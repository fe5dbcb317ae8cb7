//! The device profile: the performance tier a device class gets (or that the `MATCH3_PERF`
//! override asks for), and the visual defaults each tier sets.

use vstd::prelude::*;

use crate::text::{chars_of, range_is};

verus! {

/// The kind of device the game runs on.
#[derive(Clone, Copy, PartialEq, Eq, Debug, Structural)]
pub enum DeviceClass {
    Desktop,
    Tablet,
    Phone,
}

/// How much visual work the device can take.
#[derive(Clone, Copy, PartialEq, Eq, Debug, Structural)]
pub enum PerfTier {
    Low,
    Medium,
    High,
}

/// The device's profile.
#[derive(Clone, Copy, PartialEq, Eq, Debug, Structural)]
pub struct PlatformProfile {
    pub performance_tier: PerfTier,
    /// Whether the desktop-only options (full screen and the like) are shown.
    pub show_desktop_options: bool,
}

/// The tier a device class gets by default: phones low, tablets medium, desktops high.
pub open spec fn default_tier(class: DeviceClass) -> PerfTier {
    match class {
        DeviceClass::Phone => PerfTier::Low,
        DeviceClass::Tablet => PerfTier::Medium,
        DeviceClass::Desktop => PerfTier::High,
    }
}

/// The tier the override text `o` names, if it names one exactly.
pub open spec fn override_tier(o: Seq<char>) -> Option<PerfTier> {
    if o == "low"@ {
        Some(PerfTier::Low)
    } else if o == "medium"@ {
        Some(PerfTier::Medium)
    } else if o == "high"@ {
        Some(PerfTier::High)
    } else {
        None
    }
}

/// The profile of a device of class `class`, given the value of the performance override
/// (`None` when it is not set): a value of exactly `low`, `medium` or `high` picks the tier,
/// anything else leaves the class's default.
pub fn platform_profile(class: DeviceClass, perf_override: Option<&str>) -> (r: PlatformProfile)
    ensures
        r.performance_tier == match perf_override {
            Some(o) => match override_tier(o@) {
                Some(t) => t,
                None => default_tier(class),
            },
            None => default_tier(class),
        },
        r.show_desktop_options == (class == DeviceClass::Desktop),
{
    let default = match class {
        DeviceClass::Phone => PerfTier::Low,
        DeviceClass::Tablet => PerfTier::Medium,
        DeviceClass::Desktop => PerfTier::High,
    };
    let tier = match perf_override {
        Some(o) => {
            let t = chars_of(o);
            let n = t.len();
            assert(t@.subrange(0, n as int) =~= t@);
            if range_is(&t, 0, n, "low") {
                PerfTier::Low
            } else if range_is(&t, 0, n, "medium") {
                PerfTier::Medium
            } else if range_is(&t, 0, n, "high") {
                PerfTier::High
            } else {
                default
            }
        },
        None => default,
    };
    PlatformProfile { performance_tier: tier, show_desktop_options: class == DeviceClass::Desktop }
}

/// The visual defaults a tier sets.
#[derive(Clone, Copy, PartialEq, Eq, Debug, Structural)]
pub struct PlatformDefaults {
    /// Particles per light trail.
    pub trail_particle_count: u32,
    /// Whether the water effect under the grid is on.
    pub grid_water: bool,
}

/// The defaults of `tier`: 2, 4 or 6 trail particles from low to high; the grid water is on
/// except on a low tier off Android.
pub fn platform_defaults(tier: PerfTier, android: bool) -> (r: PlatformDefaults)
    ensures
        r == match tier {
            PerfTier::Low => PlatformDefaults { trail_particle_count: 2, grid_water: android },
            PerfTier::Medium => PlatformDefaults { trail_particle_count: 4, grid_water: true },
            PerfTier::High => PlatformDefaults { trail_particle_count: 6, grid_water: true },
        },
{
    match tier {
        PerfTier::Low => PlatformDefaults { trail_particle_count: 2, grid_water: android },
        PerfTier::Medium => PlatformDefaults { trail_particle_count: 4, grid_water: true },
        PerfTier::High => PlatformDefaults { trail_particle_count: 6, grid_water: true },
    }
}

} // verus!
