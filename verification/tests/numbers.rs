use ipmsg::app_state::size::format_size;
use ipmsg::chars::{contains, is_control, is_white, split, splitn, starts_with, to_chars, trim};
use ipmsg::number::{
    parse_u32, parse_u32_auto_radix, parse_u64, parse_u64_auto_radix, push_decimal,
    push_hexadecimal, push_padded,
};

#[test]
fn character_classes_agree_with_std() {
    for c in (0..=0x10ffff).filter_map(char::from_u32) {
        assert_eq!(is_white(c), c.is_whitespace(), "{:x}", c as u32);
        assert_eq!(is_control(c), c.is_control(), "{:x}", c as u32);
    }
}

fn text(v: &[char]) -> String {
    v.iter().collect()
}

#[test]
fn text_functions_agree_with_std() {
    for s in ["", "a", ":", "a:b", "::", " a : b ", "\u{3000}x\u{a0}", "a:b:c:d:e:f:g"] {
        let v = to_chars(s);
        assert_eq!(text(&trim(&v)), s.trim());
        let ours: Vec<String> = split(&v, ':').iter().map(|p| text(p)).collect();
        let std: Vec<String> = s.split(':').map(|p| p.to_string()).collect();
        assert_eq!(ours, std);
        for n in 1..8 {
            let ours: Vec<String> = splitn(&v, n, ':').iter().map(|p| text(p)).collect();
            let std: Vec<String> = s.splitn(n, ':').map(|p| p.to_string()).collect();
            assert_eq!(ours, std);
        }
        for t in ["", "a", "b:", ":"] {
            let w = to_chars(t);
            assert_eq!(contains(&v, &w), s.contains(t));
            assert_eq!(starts_with(&v, &w), s.starts_with(t));
        }
    }
}

#[test]
fn numbers_are_written_as_std_writes_them() {
    for n in [0u64, 1, 9, 10, 15, 16, 255, 4096, 0xffff_ffff, u64::MAX] {
        let mut v = Vec::new();
        push_decimal(&mut v, n);
        assert_eq!(text(&v), n.to_string());
        let mut v = Vec::new();
        push_hexadecimal(&mut v, n);
        assert_eq!(text(&v), format!("{n:x}"));
        let mut v = Vec::new();
        push_padded(&mut v, n, 16);
        assert_eq!(text(&v), format!("{n:016x}"));
        let mut v = Vec::new();
        push_padded(&mut v, n, 4);
        assert_eq!(text(&v), format!("{n:0>4x}"));
    }
}

#[test]
fn numbers_are_read_as_std_reads_them() {
    for s in [
        "", "+", "-", "0", "+7", "-7", "007", "10", "ff", "FF", "4294967295", "4294967296",
        "18446744073709551615", "18446744073709551616", "1 ", "٣", "0x10", "ffffffffffffffff",
    ] {
        let v = to_chars(s);
        assert_eq!(parse_u32(&v, 10), s.parse::<u32>().ok(), "{s}");
        assert_eq!(parse_u32(&v, 16), u32::from_str_radix(s, 16).ok(), "{s}");
        assert_eq!(parse_u64(&v, 10), s.parse::<u64>().ok(), "{s}");
        assert_eq!(parse_u64(&v, 16), u64::from_str_radix(s, 16).ok(), "{s}");
    }
}

#[test]
fn radix_shows_in_the_numeral() {
    assert_eq!(parse_u32_auto_radix(" 10 "), 10);
    assert_eq!(parse_u32_auto_radix("1a"), 26);
    assert_eq!(parse_u32_auto_radix("0x10"), 16);
    assert_eq!(parse_u32_auto_radix("0X1F"), 31);
    assert_eq!(parse_u32_auto_radix(""), 0);
    assert_eq!(parse_u32_auto_radix("zz"), 0);
    assert_eq!(parse_u32_auto_radix("ag"), 0);
    assert_eq!(parse_u32_auto_radix("5000000000"), 0);
    assert_eq!(parse_u64_auto_radix("5000000000"), 5_000_000_000);
    assert_eq!(parse_u64_auto_radix("ffffffffffffffff"), u64::MAX);
    assert_eq!(parse_u64_auto_radix("10000000000000000"), 10_000_000_000_000_000);
}

fn float_size(size: u64) -> String {
    let s = size as f64;
    if s < 1024.0 {
        format!("{:.0} B", s)
    } else if s < 1024.0 * 1024.0 {
        format!("{:.1} KB", s / 1024.0)
    } else if s < 1024.0 * 1024.0 * 1024.0 {
        format!("{:.1} MB", s / (1024.0 * 1024.0))
    } else {
        format!("{:.1} GB", s / (1024.0 * 1024.0 * 1024.0))
    }
}

#[test]
fn sizes_are_shown() {
    assert_eq!(format_size(0), "0 B");
    assert_eq!(format_size(1023), "1023 B");
    assert_eq!(format_size(1024), "1.0 KB");
    assert_eq!(format_size(1536), "1.5 KB");
    assert_eq!(format_size(45_000_000), "42.9 MB");
    assert_eq!(format_size(1 << 40), "1024.0 GB");
}

#[test]
fn sizes_are_shown_as_floating_point_shows_them() {
    for size in 0..2_000_000u64 {
        assert_eq!(format_size(size), float_size(size));
    }
    let mut x: u64 = 0x9e37_79b9_7f4a_7c15;
    for _ in 0..200_000 {
        x ^= x << 13;
        x ^= x >> 7;
        x ^= x << 17;
        for shift in [0, 8, 16, 24, 32] {
            assert_eq!(format_size(x >> shift), float_size(x >> shift));
        }
    }
    for bits in 50..64 {
        for delta in 0..64u64 {
            for size in [(1u64 << bits) + delta, (1u64 << bits) - delta] {
                assert_eq!(format_size(size), float_size(size));
            }
        }
    }
    assert_eq!(format_size(u64::MAX), float_size(u64::MAX));
}
