use engine::debug_info::{debug_header, motion_section, MotionSection};

#[test]
fn header_with_defaults() {
    assert_eq!(debug_header(7, None, None, None), "=== Entity 7 (Unnamed) ===\n\nActive: true\nLayer: 0\n\n");
}

#[test]
fn header_with_values() {
    let name = "Player".to_string();
    assert_eq!(
        debug_header(12, Some(&name), Some(false), Some(3)),
        "=== Entity 12 (Player) ===\n\nActive: false\nLayer: 3\n\n"
    );
}

#[test]
fn motion_sections() {
    assert_eq!(motion_section(true, true), MotionSection::Rigidbody);
    assert_eq!(motion_section(true, false), MotionSection::Rigidbody);
    assert_eq!(motion_section(false, true), MotionSection::LegacyVelocity);
    assert_eq!(motion_section(false, false), MotionSection::Absent);
}
