use activity_log::color::{rgb_of_hash, string_to_rgb};

fn channels(color: &str) -> (u8, u8, u8) {
    assert_eq!(color.len(), 7);
    assert!(color.starts_with('#'));
    let r = u8::from_str_radix(&color[1..3], 16).unwrap();
    let g = u8::from_str_radix(&color[3..5], 16).unwrap();
    let b = u8::from_str_radix(&color[5..7], 16).unwrap();
    (r, g, b)
}

#[test]
fn color_is_deterministic() {
    let samples = ["Skis", "Snowboarding", "Hiking", "Running", "Skating", ""];
    for s in samples {
        let first = string_to_rgb(s);
        let second = string_to_rgb(&s.to_string());
        assert_eq!(first, second);
    }
}

#[test]
fn distinct_labels_get_distinct_colors() {
    let samples = ["Skis", "Snowboarding", "Hiking", "Running", "Skating"];
    for (i, a) in samples.iter().enumerate() {
        for b in &samples[i + 1..] {
            assert_ne!(string_to_rgb(a), string_to_rgb(b), "{} vs {}", a, b);
        }
    }
}

#[test]
fn colors_are_bright_enough() {
    let samples = ["Skis", "Snowboarding", "Hiking", "Running", "Skating", "", "x", "yy"];
    for s in samples {
        let color = string_to_rgb(s);
        let (r, g, b) = channels(&color);
        let max = r.max(g).max(b);
        assert!(max >= 100, "{} -> {} is too dark", s, color);
    }
}

#[test]
fn channel_extraction_and_brightening_are_exact() {
    // all channels zero: no hue to keep, lifted straight to white
    assert_eq!(rgb_of_hash(0), "#FFFFFF");
    // a bright channel passes through unchanged
    assert_eq!(rgb_of_hash(0x0000_00FF), "#FF0000");
    // channels (10, 20, 50): the largest is below 100, so all scale by 100/50
    assert_eq!(rgb_of_hash(0x0032_140A), "#142864");
    // only the low three bytes matter
    assert_eq!(rgb_of_hash(0xFFFF_FFFF_0032_140A), "#142864");
}

#[test]
fn color_format_is_upper_hex() {
    let color = string_to_rgb("Skis");
    assert!(color.starts_with('#'));
    assert!(color[1..].chars().all(|c| c.is_ascii_digit() || ('A'..='F').contains(&c)));
}
