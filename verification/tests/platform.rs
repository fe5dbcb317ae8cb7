use lightcore::platform::{platform_defaults, platform_profile, DeviceClass, PerfTier, PlatformDefaults};

#[test]
fn device_classes_pick_their_tier_unless_overridden() {
    assert_eq!(platform_profile(DeviceClass::Phone, None).performance_tier, PerfTier::Low);
    assert_eq!(platform_profile(DeviceClass::Tablet, None).performance_tier, PerfTier::Medium);
    let desktop = platform_profile(DeviceClass::Desktop, None);
    assert_eq!(desktop.performance_tier, PerfTier::High);
    assert!(desktop.show_desktop_options);
    assert!(!platform_profile(DeviceClass::Phone, None).show_desktop_options);
    assert_eq!(platform_profile(DeviceClass::Desktop, Some("low")).performance_tier, PerfTier::Low);
    assert_eq!(platform_profile(DeviceClass::Phone, Some("high")).performance_tier, PerfTier::High);
    assert_eq!(platform_profile(DeviceClass::Phone, Some("medium")).performance_tier, PerfTier::Medium);
    // Only an exact tier name counts.
    assert_eq!(platform_profile(DeviceClass::Phone, Some("HIGH")).performance_tier, PerfTier::Low);
    assert_eq!(platform_profile(DeviceClass::Tablet, Some("")).performance_tier, PerfTier::Medium);
}

#[test]
fn tiers_set_their_visual_defaults() {
    assert_eq!(platform_defaults(PerfTier::Low, false), PlatformDefaults { trail_particle_count: 2, grid_water: false });
    assert_eq!(platform_defaults(PerfTier::Low, true), PlatformDefaults { trail_particle_count: 2, grid_water: true });
    assert_eq!(platform_defaults(PerfTier::Medium, false), PlatformDefaults { trail_particle_count: 4, grid_water: true });
    assert_eq!(platform_defaults(PerfTier::High, false), PlatformDefaults { trail_particle_count: 6, grid_water: true });
}
