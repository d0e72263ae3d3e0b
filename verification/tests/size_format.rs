use scanner::format_bytes;

/// The sizes as the command-line tool rendered them with floating point.
fn rendered_with_floats(bytes: u64) -> String {
    let units = ["B", "KB", "MB", "GB", "TB"];
    let mut value = bytes as f64;
    let mut unit = 0;
    while value >= 1024.0 && unit < units.len() - 1 {
        value /= 1024.0;
        unit += 1;
    }
    if unit == 0 {
        format!("{bytes} {}", units[unit])
    } else if value >= 10.0 {
        format!("{value:.0} {}", units[unit])
    } else {
        format!("{value:.1} {}", units[unit])
    }
}

#[test]
fn lib_formats_bytes_for_humans() {
    assert_eq!(format_bytes(900), "900 B");
    assert_eq!(format_bytes(1536), "1.5 KB");
    assert_eq!(format_bytes(10 * 1024 * 1024), "10 MB");
}

#[test]
fn main_formats_bytes_for_humans() {
    assert_eq!(format_bytes(900), "900 B");
    assert_eq!(format_bytes(1536), "1.5 KB");
    assert_eq!(format_bytes(10 * 1024 * 1024), "10 MB");
}

#[test]
fn format_bytes_edges_of_units() {
    assert_eq!(format_bytes(0), "0 B");
    assert_eq!(format_bytes(1023), "1023 B");
    assert_eq!(format_bytes(1024), "1.0 KB");
    assert_eq!(format_bytes(10 * 1024), "10 KB");
    assert_eq!(format_bytes(1024 * 1024 - 1), "1024 KB");
    assert_eq!(format_bytes(1024 * 1024), "1.0 MB");
    assert_eq!(format_bytes(1 << 30), "1.0 GB");
    assert_eq!(format_bytes(1 << 40), "1.0 TB");
    assert_eq!(format_bytes(1 << 50), "1024 TB");
    assert_eq!(format_bytes(u64::MAX), "16777216 TB");
}

#[test]
fn format_bytes_rounds_ties_to_even() {
    // 1280 bytes is exactly 1.25 KB; 2.5 * 1024 * 1024 is exactly 2.5 MB.
    assert_eq!(format_bytes(1280), rendered_with_floats(1280));
    assert_eq!(format_bytes(1280), "1.2 KB");
    assert_eq!(format_bytes(10 * 1024 + 512), "10 KB");
    assert_eq!(format_bytes(11 * 1024 + 512), "12 KB");
    assert_eq!(format_bytes(9 * 1024 + 1000), "10.0 KB");
}

#[test]
fn format_bytes_matches_float_rendering_on_many_sizes() {
    for bytes in 0..20_000u64 {
        assert_eq!(format_bytes(bytes), rendered_with_floats(bytes), "size {bytes}");
    }
    for shift in 0..64u32 {
        let base = 1u64 << shift;
        for delta in 0..64u64 {
            for b in [base.wrapping_add(delta), base.wrapping_sub(delta), base.wrapping_mul(10).wrapping_add(delta)] {
                assert_eq!(format_bytes(b), rendered_with_floats(b), "size {b}");
            }
        }
        for k in 1..40u64 {
            let b = base.wrapping_mul(k).wrapping_add(base / 2);
            assert_eq!(format_bytes(b), rendered_with_floats(b), "size {b}");
        }
    }
    let mut x: u64 = 0x9e37_79b9_7f4a_7c15;
    for _ in 0..200_000 {
        x ^= x << 13;
        x ^= x >> 7;
        x ^= x << 17;
        let b = x >> (x % 64);
        assert_eq!(format_bytes(b), rendered_with_floats(b), "size {b}");
    }
    for b in [
        (1u64 << 53) - 1,
        1u64 << 53,
        (1u64 << 53) + 1,
        (1u64 << 63) + (1u64 << 39) - 1,
        (1u64 << 63) + (3u64 << 39) - 1,
        u64::MAX - 1,
        u64::MAX,
    ] {
        assert_eq!(format_bytes(b), rendered_with_floats(b), "size {b}");
    }
}

#[test]
fn shown_size_never_goes_down_within_a_unit() {
    fn parts(b: u64) -> (usize, f64) {
        let text = format_bytes(b);
        let (num, unit) = text.split_once(' ').unwrap();
        let index = ["B", "KB", "MB", "GB", "TB"].iter().position(|u| *u == unit).unwrap();
        (index, num.parse::<f64>().unwrap())
    }
    let mut previous = parts(0);
    for b in (0..3_000_000u64).step_by(97) {
        let now = parts(b);
        assert!(previous.0 <= now.0);
        if previous.0 == now.0 {
            assert!(previous.1 <= now.1, "at {b}");
        }
        previous = now;
    }
}
