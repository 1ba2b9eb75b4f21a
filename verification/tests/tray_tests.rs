use codex_runway::tray_icon::{
    blend, glyph, in_disk, in_ring, label_pixels, label_text, popover_position, severity_color, Severity,
    DISK_RADIUS,
};

#[test]
fn severity_colours() {
    assert_eq!(severity_color(Severity::Normal), [52, 199, 89, 255]);
    assert_eq!(severity_color(Severity::Warn), [255, 179, 64, 255]);
    assert_eq!(severity_color(Severity::Danger), [255, 59, 48, 255]);
}

#[test]
fn glyphs_cover_digits_and_percent() {
    assert_eq!(glyph(b'0'), Some([0b111, 0b101, 0b101, 0b101, 0b111]));
    assert_eq!(glyph(b'%'), Some([0b101, 0b101, 0b010, 0b101, 0b101]));
    assert_eq!(glyph(b'a'), None);
    for d in b'0'..=b'9' {
        assert!(glyph(d).is_some());
    }
}

#[test]
fn labels_spell_the_percent() {
    assert_eq!(label_text(0), b"0".to_vec());
    assert_eq!(label_text(7), b"7".to_vec());
    assert_eq!(label_text(42), b"42".to_vec());
    assert_eq!(label_text(100), b"100".to_vec());
    assert_eq!(label_text(250), b"100".to_vec());
}

#[test]
fn label_pixels_are_centred() {
    // "1": glyph 010/110/010/010/111, 3 wide, starting at x = 16 - 1 = 15, y = 14.
    let px = label_pixels(1);
    assert_eq!(
        px,
        vec![(16, 14), (15, 15), (16, 15), (16, 16), (16, 17), (15, 18), (16, 18), (17, 18)]
    );
    // "100": 11 wide, starting at x = 16 - 5 = 11.
    let px = label_pixels(100);
    assert!(px.contains(&(12, 14)));
    assert!(px.iter().all(|&(x, y)| (11..=21).contains(&x) && (14..=18).contains(&y)));
}

#[test]
fn disk_and_ring_membership() {
    assert!(!in_disk(0, 0, DISK_RADIUS));
    assert!(in_disk(16, 16, DISK_RADIUS));
    assert!(in_disk(16, 1, DISK_RADIUS));
    assert!(!in_ring(16, 16));
    assert!(in_ring(16, 4));
    assert!(in_ring(16, 7));
    assert!(!in_ring(16, 8));
    assert!(!in_ring(16, 1));
}

#[test]
fn blending_is_source_over() {
    assert_eq!(blend([1, 2, 3, 0], [9, 9, 9, 255]), Some([9, 9, 9, 255]));
    assert_eq!(blend([1, 2, 3, 0], [9, 9, 9, 0]), None);
    assert_eq!(blend([200, 100, 0, 255], [0, 0, 0, 0]), Some([200, 100, 0, 255]));
    // 50% black over opaque white.
    assert_eq!(blend([255, 255, 255, 255], [0, 0, 0, 128]), Some([127, 127, 127, 255]));
}

#[test]
fn popover_sits_above_the_taskbar() {
    assert_eq!(popover_position(0, 0, 1920, 1080), (770, 480));
    assert_eq!(popover_position(100, 50, 300, 400), (60, 50));
}
