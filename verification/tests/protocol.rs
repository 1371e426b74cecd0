use ipmsg::ipmsg_core::file_table::{lookup_file_entry, FileEntry, FileTable};
use ipmsg::ipmsg_core::filename::sanitize_wire_filename;
use ipmsg::ipmsg_core::offer::{double_colons, parse_offers};
use ipmsg::ipmsg_core::offering::{draw_file_id, file_id_from, random_file_id};
use ipmsg::ipmsg_core::packet::{
    parse_entry_extra, parse_packet, parse_packet_text, split_extra, Packet, PacketError,
};
use ipmsg::ipmsg_core::text::{decode_text, encode_text, TextEncoding};
use ipmsg::net::{parse_ipv4, IpAddr};

/// Peers read wire numbers with signed 32-bit arithmetic.
#[test]
fn random_file_id_stays_in_signed_32bit_range() {
    for _ in 0..10_000 {
        let id = random_file_id();
        assert_ne!(id, 0);
        assert!(
            id < 0x8000_0000,
            "file_id {id:#x} overflows signed 32-bit parse on peers"
        );
    }
}

#[test]
fn random_file_ids_differ() {
    let first = random_file_id();
    assert!((0..100).any(|_| random_file_id() != first));
}

#[test]
fn file_id_from_takes_the_lower_bits() {
    assert_eq!(file_id_from(0), 1);
    assert_eq!(file_id_from(0x8000_0000), 1);
    assert_eq!(file_id_from(1), 1);
    assert_eq!(file_id_from(0xffff_ffff), 0x7fff_ffff);
    assert_eq!(file_id_from(0x8000_1234), 0x1234);
}

#[test]
fn drawn_file_id_is_free() {
    let mut table = FileTable::new();
    let first = draw_file_id(&table, 7, &Vec::new()).expect("a free number");
    table.insert(
        7,
        first,
        FileEntry { to: IpAddr::V4(1), path: "a".to_string(), size: 1, is_dir: false },
    );
    let second = draw_file_id(&table, 7, &vec![5]).expect("a free number");
    assert_ne!(first, second);
    assert_ne!(second, 5);
    assert!(!table.contains(7, second));
}

#[test]
fn sanitize_rejects_path_traversal_and_device_names() {
    assert!(sanitize_wire_filename("..\\..\\evil.exe").is_none());
    assert!(sanitize_wire_filename("../../evil").is_none());
    assert!(sanitize_wire_filename("C:\\evil").is_none());
    assert!(sanitize_wire_filename("f.txt:ads").is_none());
    assert!(sanitize_wire_filename("..").is_none());
    assert!(sanitize_wire_filename("").is_none());
    assert!(sanitize_wire_filename("CON").is_none());
    assert_eq!(sanitize_wire_filename("normal.txt").as_deref(), Some("normal.txt"));
    assert_eq!(sanitize_wire_filename("中文文件.pdf").as_deref(), Some("中文文件.pdf"));
}

#[test]
fn sanitize_edges() {
    assert!(sanitize_wire_filename(".").is_none());
    assert!(sanitize_wire_filename("   ").is_none());
    assert!(sanitize_wire_filename("a\u{7}b").is_none());
    assert!(sanitize_wire_filename("a\u{85}b").is_none());
    assert!(sanitize_wire_filename("nul.txt").is_none());
    assert!(sanitize_wire_filename("Com1.log.txt").is_none());
    assert!(sanitize_wire_filename("LPT9").is_none());
    assert_eq!(sanitize_wire_filename("LPT0").as_deref(), Some("LPT0"));
    assert_eq!(sanitize_wire_filename("COM10").as_deref(), Some("COM10"));
    assert_eq!(sanitize_wire_filename("console").as_deref(), Some("console"));
    assert_eq!(sanitize_wire_filename(" a b ").as_deref(), Some("a b"));
    assert_eq!(sanitize_wire_filename("...").as_deref(), Some("..."));
    assert_eq!(sanitize_wire_filename("\u{3000}名\u{3000}").as_deref(), Some("名"));
    for name in [" x ", "中文", "a.b.c"] {
        let once = sanitize_wire_filename(name).unwrap();
        assert_eq!(sanitize_wire_filename(&once), Some(once.clone()));
    }
}

/// Requests come in hexadecimal or in decimal. The lookup must resolve either
/// against the table.
#[test]
fn lookup_file_entry_resolves_hex_and_decimal_echo() {
    let mut table = FileTable::new();
    table.insert(
        34,
        271_038_928,
        FileEntry {
            to: IpAddr::V4(parse_ipv4("192.168.68.245").unwrap()),
            path: "bevy_game_1.zip".to_string(),
            size: 45_000_000,
            is_dir: false,
        },
    );
    let hit = lookup_file_entry(&table, "22", "1027b9d0").expect("hex echo must resolve");
    assert_eq!(hit.0, 34);
    assert_eq!(hit.1, 271_038_928);
    let hit = lookup_file_entry(&table, "34", "271038928").expect("decimal echo must resolve");
    assert_eq!(hit.0, 34);
    assert_eq!(hit.1, 271_038_928);
    assert_eq!(hit.2.path, "bevy_game_1.zip");
    assert_eq!(hit.2.size, 45_000_000);
    assert!(lookup_file_entry(&table, "99", "999").is_none());
}

#[test]
fn lookup_prefers_hexadecimal() {
    let mut table = FileTable::new();
    for packet_no in [16u32, 10] {
        table.insert(
            packet_no,
            5,
            FileEntry {
                to: IpAddr::V4(1),
                path: packet_no.to_string(),
                size: 0,
                is_dir: false,
            },
        );
    }
    assert_eq!(lookup_file_entry(&table, " 10 ", "5").unwrap().0, 16);
    assert!(table.remove(16, 5));
    assert!(!table.remove(16, 5));
    assert_eq!(lookup_file_entry(&table, "10", "0x5").unwrap().0, 10);
}

fn packet(username: &str, hostname: &str, command: u32, extra: &str) -> Packet {
    Packet {
        version: 1,
        packet_no: 100,
        username: username.to_string(),
        hostname: hostname.to_string(),
        command,
        extra: extra.to_string(),
    }
}

#[test]
fn packet_is_encoded_field_by_field() {
    let p = packet("me", "box", 32, "hi:there");
    assert_eq!(p.encode(TextEncoding::Utf8), b"1:100:me:box:32:hi:there".to_vec());
}

#[test]
fn packet_survives_the_wire() {
    for encoding in [TextEncoding::Utf8, TextEncoding::Gb18030] {
        let p = packet("王五", "主机", 0x120, "你好:世界\0g\u{1f600}");
        let bytes = p.encode(encoding);
        let q = parse_packet(encoding, &bytes).unwrap();
        assert_eq!(q.version, 1);
        assert_eq!(q.packet_no, 100);
        assert_eq!(q.username, "王五");
        assert_eq!(q.hostname, "主机");
        assert_eq!(q.command, 0x120);
        assert_eq!(q.extra, p.extra);
    }
}

#[test]
fn packet_errors() {
    assert_eq!(parse_packet_text("1:2:3:4").unwrap_err(), PacketError::TooFewFields);
    assert_eq!(parse_packet_text("1:x:a:b:3:").unwrap_err(), PacketError::BadPacketNo);
    assert_eq!(parse_packet_text("1:2:a:b:-1:").unwrap_err(), PacketError::BadCommand);
    assert_eq!(
        parse_packet(TextEncoding::Gb18030, b"junk").unwrap_err(),
        PacketError::TooFewFields
    );
}

#[test]
fn packet_tolerates_a_bad_version_and_a_missing_field() {
    let p = parse_packet_text("v2: 7 :u:h: 3").unwrap();
    assert_eq!(p.version, 0);
    assert_eq!(p.packet_no, 7);
    assert_eq!(p.command, 3);
    assert_eq!(p.extra, "");
}

#[test]
fn extra_is_split_at_nulls() {
    assert_eq!(
        split_extra("a\0\0b\0c"),
        ("a".to_string(), vec!["b".to_string(), "c".to_string()])
    );
    assert_eq!(split_extra(""), (String::new(), vec![]));
}

#[test]
fn entry_names_are_cleaned() {
    assert_eq!(
        parse_entry_extra("u", " ni\u{1}ck \0 grp\u{2} \0more"),
        ("nick".to_string(), "grp".to_string())
    );
    assert_eq!(parse_entry_extra("u", "\u{1}\u{2}"), ("u".to_string(), String::new()));
}

#[test]
fn gb18030_is_the_real_codec() {
    assert_eq!(encode_text(TextEncoding::Gb18030, "中文"), vec![0xd6, 0xd0, 0xce, 0xc4]);
    assert_eq!(decode_text(TextEncoding::Gb18030, &[0xd6, 0xd0]), "中");
    assert_eq!(encode_text(TextEncoding::Utf8, "中"), vec![0xe4, 0xb8, 0xad]);
    assert_eq!(decode_text(TextEncoding::Utf8, &[0xe4, 0xb8, 0xad]), "中");
    assert_eq!(encode_text(TextEncoding::Gb18030, "\u{e5e5}"), b"&#58853;".to_vec());
}

fn lossy(c: char) -> bool {
    let n = c as u32;
    n == 0xe5e5
        || (0xe78d..=0xe796).contains(&n)
        || [0xe81e, 0xe826, 0xe82b, 0xe82c, 0xe832, 0xe843, 0xe854, 0xe864].contains(&n)
}

#[test]
fn every_lossless_character_comes_back() {
    for c in (0..=0x10ffff).filter_map(char::from_u32) {
        let s = format!("a{c}");
        let bytes = encode_text(TextEncoding::Gb18030, &s);
        assert!(bytes.len() <= 8 * 2);
        assert_eq!(bytes[0], b'a');
        assert_eq!(&bytes[1..], &encode_text(TextEncoding::Gb18030, &c.to_string())[..]);
        assert_eq!(decode_text(TextEncoding::Gb18030, &bytes) == s, !lossy(c), "{:x}", c as u32);
    }
}

#[test]
fn offers_are_read() {
    let ext = vec!["1:a.txt:10:5e:1:\u{7}0x1f: b :ff:0:2:\u{7}bad:1:2\u{7} \u{7}".to_string()];
    let offers = parse_offers(&ext);
    assert_eq!(offers.len(), 2);
    assert_eq!(offers[0].file_id, 1);
    assert_eq!(offers[0].name, "a.txt");
    assert_eq!(offers[0].size, 16);
    assert!(!offers[0].is_dir);
    assert_eq!(offers[1].file_id, 31);
    assert_eq!(offers[1].name, " b ");
    assert_eq!(offers[1].size, 255);
    assert!(offers[1].is_dir);
}

#[test]
fn colons_are_doubled() {
    assert_eq!(double_colons("a:b::c"), "a::b::::c");
    assert_eq!(double_colons("plain"), "plain");
}

#[test]
fn name_with_a_colon_is_cut() {
    let offers = parse_offers(&vec!["1:a::b:5:0:1:\u{7}".to_string()]);
    assert_eq!(offers[0].name, "a");
    assert_eq!(offers[0].size, 0);
}

#[test]
fn size_and_attributes_are_hexadecimal() {
    let read = |size: &str, attr: &str| {
        let offers = parse_offers(&vec![format!("5:a.txt:{size}:0:{attr}:")]);
        (offers[0].size, offers[0].is_dir)
    };
    assert_eq!(read("1024", "1"), (4132, false));
    assert_eq!(read("10", "102"), (16, true));
    assert_eq!(read(" 1F ", "1"), (31, false));
    assert_eq!(read("0x1f", "0x2"), (31, true));
    assert_eq!(read("xyz", "zz"), (0, false));
    assert_eq!(read("ffffffffffffffff", "1"), (u64::MAX, false));
    assert_eq!(read("10000000000000000", "1"), (0, false));
}

#[test]
fn only_one_character_looks_like_a_mark_in_gb18030() {
    for c in (0..=0x10ffff).filter_map(char::from_u32) {
        let bytes = encode_text(TextEncoding::Gb18030, &c.to_string());
        let mark_like =
            bytes.starts_with(&[0xef, 0xbb]) || bytes[0] == 0xff || bytes.starts_with(&[0xfe, 0xff]);
        assert_eq!(mark_like, c == '\u{9518}', "{:x}", c as u32);
    }
    let bytes = encode_text(TextEncoding::Gb18030, "中文");
    assert_eq!(decode_text(TextEncoding::Gb18030, &bytes), "中文");
}
