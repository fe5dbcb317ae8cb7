//! The internal render resolution: which presets the options cycle through, and the canvas size
//! each preset gives for a viewport.

use vstd::prelude::*;

verus! {

/// The preset the board is rendered at before it is scaled to the window.
#[derive(Clone, Copy, PartialEq, Eq, Debug, Structural)]
pub enum InternalResolution {
    /// The viewport's own size.
    Native,
    /// At most 900 rows.
    High,
    /// At most 720 rows.
    Medium,
    /// At most 540 rows.
    Low,
}

impl Default for InternalResolution {
    fn default() -> (r: InternalResolution)
        ensures
            r == InternalResolution::Native,
    {
        InternalResolution::Native
    }
}

/// The preset after `r` in the options cycle.
pub open spec fn next_spec(r: InternalResolution) -> InternalResolution {
    match r {
        InternalResolution::Native => InternalResolution::High,
        InternalResolution::High => InternalResolution::Medium,
        InternalResolution::Medium => InternalResolution::Low,
        InternalResolution::Low => InternalResolution::Native,
    }
}

/// The options label of `r`.
pub open spec fn label_spec(r: InternalResolution) -> Seq<char> {
    match r {
        InternalResolution::Native => "Resolucion interna: Nativa"@,
        InternalResolution::High => "Resolucion interna: Alta"@,
        InternalResolution::Medium => "Resolucion interna: Media"@,
        InternalResolution::Low => "Resolucion interna: Baja"@,
    }
}

/// The height a preset aims at, for a viewport `native_h` rows high.
pub open spec fn target_height_spec(r: InternalResolution, native_h: nat) -> nat {
    match r {
        InternalResolution::Native => native_h,
        InternalResolution::High => 900,
        InternalResolution::Medium => 720,
        InternalResolution::Low => 540,
    }
}

/// `v`, or 1 when `v` is 0.
pub open spec fn at_least_one(v: nat) -> nat {
    if v == 0 {
        1
    } else {
        v
    }
}

/// `nx * h / ny`, rounded half up, and at least 1.
pub open spec fn scaled_width(nx: nat, ny: nat, h: nat) -> nat {
    at_least_one(((nx * h + ny / 2) / ny) as nat)
}

/// The canvas size of preset `r` for a viewport of `viewport` (width, height): the viewport itself
/// (each side at least 1) for `Native`; otherwise the preset's height, never above the viewport's,
/// and the width that keeps the viewport's aspect ratio.
pub open spec fn size_spec(r: InternalResolution, viewport: (u32, u32)) -> (nat, nat) {
    let nx = at_least_one(viewport.0 as nat);
    let ny = at_least_one(viewport.1 as nat);
    if r == InternalResolution::Native {
        (nx, ny)
    } else {
        let h = at_least_one(vstd::math::min(target_height_spec(r, ny) as int, ny as int) as nat);
        (scaled_width(nx, ny, h), h)
    }
}

/// Rounded scaling never widens: for `h <= ny`, `(nx * h + ny / 2) / ny <= nx`.
proof fn lemma_scaled_width_bound(nx: nat, ny: nat, h: nat)
    requires
        1 <= ny,
        h <= ny,
    ensures
        (nx * h + ny / 2) / ny <= nx,
{
    assert(nx * h <= nx * ny) by (nonlinear_arith)
        requires
            h <= ny,
    ;
    assert(nx * h + ny / 2 < (nx + 1) * ny) by (nonlinear_arith)
        requires
            nx * h <= nx * ny,
            1 <= ny,
    ;
    assert((nx * h + ny / 2) / ny <= nx) by (nonlinear_arith)
        requires
            nx * h + ny / 2 < (nx + 1) * ny,
            1 <= ny,
    ;
}

impl InternalResolution {
    /// The preset after this one in the options cycle.
    pub fn next(self) -> (r: InternalResolution)
        ensures
            r == next_spec(self),
    {
        match self {
            InternalResolution::Native => InternalResolution::High,
            InternalResolution::High => InternalResolution::Medium,
            InternalResolution::Medium => InternalResolution::Low,
            InternalResolution::Low => InternalResolution::Native,
        }
    }

    /// The options label of this preset.
    pub fn label(self) -> (r: &'static str)
        ensures
            r@ == label_spec(self),
    {
        match self {
            InternalResolution::Native => "Resolucion interna: Nativa",
            InternalResolution::High => "Resolucion interna: Alta",
            InternalResolution::Medium => "Resolucion interna: Media",
            InternalResolution::Low => "Resolucion interna: Baja",
        }
    }

    /// The height this preset aims at, for a viewport `native_h` rows high.
    fn target_height(self, native_h: u32) -> (r: u32)
        ensures
            r == target_height_spec(self, native_h as nat),
    {
        match self {
            InternalResolution::Native => native_h,
            InternalResolution::High => 900,
            InternalResolution::Medium => 720,
            InternalResolution::Low => 540,
        }
    }

    /// The canvas size this preset gives for a viewport of `viewport` (width, height).
    pub fn size_for_viewport(self, viewport: (u32, u32)) -> (r: (u32, u32))
        ensures
            (r.0 as nat, r.1 as nat) == size_spec(self, viewport),
    {
        let nx: u32 = if viewport.0 == 0 { 1 } else { viewport.0 };
        let ny: u32 = if viewport.1 == 0 { 1 } else { viewport.1 };
        if self == InternalResolution::Native {
            return (nx, ny);
        }
        let target = self.target_height(ny);
        let capped: u32 = if target < ny { target } else { ny };
        let h: u32 = if capped == 0 { 1 } else { capped };
        proof {
            lemma_scaled_width_bound(nx as nat, ny as nat, h as nat);
            assert((nx as u64) * (h as u64) <= (u32::MAX as u64) * (u32::MAX as u64)) by (nonlinear_arith)
                requires
                    nx <= u32::MAX,
                    h <= u32::MAX,
            ;
        }
        let q: u64 = ((nx as u64) * (h as u64) + (ny as u64) / 2) / (ny as u64);
        let w: u32 = if q == 0 { 1 } else { q as u32 };
        (w, h)
    }
}

/// Cycling through the presets comes back to the start after four steps, and passes through four
/// different presets on the way.
pub proof fn lemma_presets_cycle(r: InternalResolution)
    ensures
        next_spec(next_spec(next_spec(next_spec(r)))) == r,
        next_spec(r) != r,
        next_spec(next_spec(r)) != r,
        next_spec(next_spec(next_spec(r))) != r,
{
}

/// A preset's canvas never exceeds the viewport (each side taken as at least 1).
pub proof fn lemma_canvas_within_viewport(r: InternalResolution, viewport: (u32, u32))
    ensures
        size_spec(r, viewport).0 <= at_least_one(viewport.0 as nat),
        size_spec(r, viewport).1 <= at_least_one(viewport.1 as nat),
        1 <= size_spec(r, viewport).0,
        1 <= size_spec(r, viewport).1,
{
    let nx = at_least_one(viewport.0 as nat);
    let ny = at_least_one(viewport.1 as nat);
    if r != InternalResolution::Native {
        let h = at_least_one(vstd::math::min(target_height_spec(r, ny) as int, ny as int) as nat);
        lemma_scaled_width_bound(nx, ny, h);
    }
}

} // verus!
