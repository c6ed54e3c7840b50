use zord::api::format_byte_size;
use zord::indexer::{
    next_restart_delay, BLOCK_RETRY_SECONDS, POLL_SECONDS, RESTART_BASE_SECONDS,
    RESTART_CAP_SECONDS,
};

#[test]
fn small_sizes_are_displayed_in_bytes() {
    assert_eq!(format_byte_size(0), "0 bytes");
    assert_eq!(format_byte_size(1), "1 bytes");
    assert_eq!(format_byte_size(1023), "1023 bytes");
}

#[test]
fn larger_sizes_are_displayed_with_one_decimal_place() {
    assert_eq!(format_byte_size(1024), "1.0 KB");
    assert_eq!(format_byte_size(1536), "1.5 KB");
    assert_eq!(format_byte_size(10 * 1024 + 103), "10.1 KB");
    assert_eq!(format_byte_size(1048575), "1024.0 KB");
    assert_eq!(format_byte_size(1048576), "1.0 MB");
    assert_eq!(format_byte_size(5 * 1048576 + 524288), "5.5 MB");
    assert_eq!(format_byte_size(1073741823), "1024.0 MB");
    assert_eq!(format_byte_size(1073741824), "1.0 GB");
    assert_eq!(format_byte_size(1099511627776), "1024.0 GB");
}

#[test]
fn sizes_half_way_between_tenths_go_to_the_even_tenth() {
    assert_eq!(format_byte_size(1280), format!("{:.1} KB", 1.25f64));
    assert_eq!(format_byte_size(1280), "1.2 KB");
    assert_eq!(format_byte_size(1792), "1.8 KB");
    assert_eq!(format_byte_size(1152), "1.1 KB");
    assert_eq!(format_byte_size(1664), "1.6 KB");
    assert_eq!(format_byte_size(1075), "1.0 KB");
    assert_eq!(format_byte_size(1076), "1.1 KB");
}

#[test]
fn sizes_agree_with_floating_point_display() {
    let units = ["bytes", "KB", "MB", "GB"];
    let mut samples: Vec<usize> = vec![
        0, 1, 999, 1023, 1024, 1025, 1075, 1076, 1126, 1127, 1128, 1280, 1792, 99999, 1048575,
        1048576, 123456789, 1073741823, 1073741824, 987654321012,
    ];
    let mut x: usize = 1;
    for _ in 0..40 {
        x = x.wrapping_mul(6364136223846793005).wrapping_add(1442695040888963407);
        samples.push(x >> 20);
        samples.push(x >> 34);
        samples.push(x >> 5);
        samples.push(x);
    }
    samples.push(usize::MAX);
    samples.push(usize::MAX - 1023);
    samples.push((1usize << 53) + 1);
    samples.push((1usize << 53) + 3);
    samples.push((1usize << 60) + (1usize << 7));
    samples.push((1usize << 60) + (3usize << 7));
    for bytes in samples {
        let mut size = bytes as f64;
        let mut unit = 0;
        while size >= 1024.0 && unit < units.len() - 1 {
            size /= 1024.0;
            unit += 1;
        }
        let expected = if unit == 0 {
            format!("{:.0} {}", size, units[unit])
        } else {
            format!("{:.1} {}", size, units[unit])
        };
        assert_eq!(format_byte_size(bytes), expected, "for {} bytes", bytes);
    }
}

#[test]
fn restart_delay_doubles_up_to_the_cap() {
    assert_eq!(RESTART_BASE_SECONDS, 5);
    assert_eq!(RESTART_CAP_SECONDS, 300);
    assert_eq!(POLL_SECONDS, 10);
    assert_eq!(BLOCK_RETRY_SECONDS, 5);
    let mut delay = RESTART_BASE_SECONDS;
    let mut seen = Vec::new();
    for _ in 0..8 {
        delay = next_restart_delay(delay);
        seen.push(delay);
    }
    assert_eq!(seen, vec![10, 20, 40, 80, 160, 300, 300, 300]);
    assert_eq!(next_restart_delay(0), 0);
    assert_eq!(next_restart_delay(149), 298);
    assert_eq!(next_restart_delay(150), 300);
    assert_eq!(next_restart_delay(u64::MAX), 300);
}
