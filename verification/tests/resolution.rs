use lightcore::resolution::InternalResolution;

#[test]
fn presets_cycle_through_all_four() {
    let mut r = InternalResolution::default();
    assert_eq!(r, InternalResolution::Native);
    let mut seen = vec![r];
    for _ in 0..3 {
        r = r.next();
        assert!(!seen.contains(&r));
        seen.push(r);
    }
    assert_eq!(r.next(), InternalResolution::Native);
    assert_eq!(InternalResolution::Medium.label(), "Resolucion interna: Media");
    assert_eq!(InternalResolution::Native.label(), "Resolucion interna: Nativa");
}

#[test]
fn presets_scale_the_viewport_keeping_its_shape() {
    assert_eq!(InternalResolution::Native.size_for_viewport((1920, 1080)), (1920, 1080));
    assert_eq!(InternalResolution::Native.size_for_viewport((0, 0)), (1, 1));
    assert_eq!(InternalResolution::High.size_for_viewport((1920, 1080)), (1600, 900));
    assert_eq!(InternalResolution::Medium.size_for_viewport((1920, 1080)), (1280, 720));
    assert_eq!(InternalResolution::Low.size_for_viewport((1920, 1080)), (960, 540));
    // A viewport shorter than the preset keeps its own height.
    assert_eq!(InternalResolution::High.size_for_viewport((800, 600)), (800, 600));
    // Widths round half up: 1000 * 540 / 1001 = 539.46...
    assert_eq!(InternalResolution::Low.size_for_viewport((1000, 1001)), (539, 540));
    assert_eq!(InternalResolution::Low.size_for_viewport((1001, 1000)), (541, 540));
    // A very tall viewport never gives a zero width.
    assert_eq!(InternalResolution::Low.size_for_viewport((1, 5000)), (1, 540));
}
