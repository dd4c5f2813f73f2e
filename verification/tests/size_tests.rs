use reachpy_config::size::format_size;

/// The size text as the floating-point formatting writes it.
fn float_size(bytes: u64) -> String {
    if bytes < 1024 {
        format!("{} B", bytes)
    } else if bytes < 1024 * 1024 {
        format!("{:.1} KB", bytes as f64 / 1024.0)
    } else if bytes < 1024 * 1024 * 1024 {
        format!("{:.1} MB", bytes as f64 / (1024.0 * 1024.0))
    } else {
        format!("{:.1} GB", bytes as f64 / (1024.0 * 1024.0 * 1024.0))
    }
}

#[test]
fn sizes_below_a_kilobyte_are_bytes() {
    assert_eq!(format_size(0), "0 B");
    assert_eq!(format_size(1), "1 B");
    assert_eq!(format_size(512), "512 B");
    assert_eq!(format_size(1023), "1023 B");
}

#[test]
fn sizes_in_kilobytes_megabytes_and_gigabytes() {
    assert_eq!(format_size(1024), "1.0 KB");
    assert_eq!(format_size(1536), "1.5 KB");
    assert_eq!(format_size(10 * 1024 + 100), "10.1 KB");
    assert_eq!(format_size(1024 * 1024), "1.0 MB");
    assert_eq!(format_size(5 * 1024 * 1024 + 1024 * 1024 / 2), "5.5 MB");
    assert_eq!(format_size(1024 * 1024 * 1024), "1.0 GB");
    assert_eq!(format_size(3 * 1024 * 1024 * 1024), "3.0 GB");
}

#[test]
fn ties_round_as_the_float_formatting_does() {
    // 1.25 KB, 1.75 KB, 2.25 MB and 1.25 GB lie exactly half-way between tenths.
    for bytes in [1280u64, 1792, 2359296, 1342177280, 1024 + 1024 / 4, 3 * 1024 * 1024 / 4 * 3] {
        assert_eq!(format_size(bytes), float_size(bytes), "bytes = {}", bytes);
    }
}

#[test]
fn boundaries_agree_with_the_float_formatting() {
    let edges = [
        1023u64,
        1024,
        1025,
        1024 * 1024 - 1,
        1024 * 1024,
        1024 * 1024 + 1,
        1024 * 1024 * 1024 - 1,
        1024 * 1024 * 1024,
        1024 * 1024 * 1024 + 1,
        (1u64 << 53) - 1,
        1u64 << 53,
        (1u64 << 53) + 1,
        (1u64 << 54) + 3,
        u64::MAX - 1,
        u64::MAX,
    ];
    for bytes in edges {
        assert_eq!(format_size(bytes), float_size(bytes), "bytes = {}", bytes);
    }
}

#[test]
fn many_sizes_agree_with_the_float_formatting() {
    let mut x: u64 = 0x9e37_79b9_7f4a_7c15;
    for i in 0..20000u64 {
        x = x.wrapping_mul(6364136223846793005).wrapping_add(1442695040888963407);
        // spread over every magnitude
        let bytes = x >> (i % 64);
        assert_eq!(format_size(bytes), float_size(bytes), "bytes = {}", bytes);
    }
}

#[test]
fn values_near_tenths_agree_with_the_float_formatting() {
    // every size close to a half-tenth boundary in each unit
    for unit in [1024u64, 1024 * 1024, 1024 * 1024 * 1024] {
        for k in 10u64..200 {
            let exact = k * unit / 20;
            for d in [0u64, 1, 2] {
                for bytes in [exact.saturating_sub(d), exact + d] {
                    assert_eq!(format_size(bytes), float_size(bytes), "bytes = {}", bytes);
                }
            }
        }
    }
}
