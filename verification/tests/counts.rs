use attractors::counts::format_count;

fn reference_count(value: u64) -> String {
    if value >= 1_000_000_000 {
        format!("{:.2}B", value as f64 / 1_000_000_000.0)
    } else if value >= 1_000_000 {
        format!("{:.2}M", value as f64 / 1_000_000.0)
    } else if value >= 1_000 {
        format!("{:.2}K", value as f64 / 1_000.0)
    } else {
        value.to_string()
    }
}

#[test]
fn format_count_small_values_are_plain() {
    assert_eq!(format_count(0), "0");
    assert_eq!(format_count(7), "7");
    assert_eq!(format_count(999), "999");
}

#[test]
fn format_count_units() {
    assert_eq!(format_count(1_000), "1.00K");
    assert_eq!(format_count(1_500), "1.50K");
    assert_eq!(format_count(12_345_678), "12.35M");
    assert_eq!(format_count(3_000_000_000), "3.00B");
    assert_eq!(format_count(999_999), "1000.00K");
}

#[test]
fn format_count_ties_and_float_rounding() {
    // 1.125 is exact in binary and rounds to even; 1.015 is not exact and
    // lies just below the tie.
    assert_eq!(format_count(1_125), "1.12K");
    assert_eq!(format_count(1_135), "1.14K");
    assert_eq!(format_count(1_015), "1.01K");
    assert_eq!(format_count(1_005), "1.00K");
}

#[test]
fn format_count_matches_binary64_below_a_million() {
    for v in 0..1_000_000u64 {
        assert_eq!(format_count(v), reference_count(v), "value {}", v);
    }
}

#[test]
fn format_count_matches_binary64_across_the_range() {
    let mut x: u64 = 0x9e37_79b9_7f4a_7c15;
    for i in 0..400_000u64 {
        x = x.wrapping_mul(6364136223846793005).wrapping_add(1442695040888963407);
        let shift = (i % 64) as u32;
        let v = x >> shift;
        assert_eq!(format_count(v), reference_count(v), "value {}", v);
        let tie = (v / 10) * 10 + 5;
        assert_eq!(format_count(tie), reference_count(tie), "value {}", tie);
    }
    for v in [u64::MAX, u64::MAX - 1, 1u64 << 53, (1u64 << 53) + 1, (1u64 << 63) + 1025, 999_999_999, 1_000_000_000, 999_995_000] {
        assert_eq!(format_count(v), reference_count(v), "value {}", v);
    }
}
