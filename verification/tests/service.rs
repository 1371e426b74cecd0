use ipmsg::ipmsg_core::event::Event;
use ipmsg::ipmsg_core::folder_sender::EntryKind;
use ipmsg::ipmsg_core::inbound::{handle_udp_packet, ENCRYPTED_TEXT, MAX_SEEN};
use ipmsg::ipmsg_core::offering::{
    offer_file, offer_files, offer_folder, send_file, send_files, send_folder, FileMeta,
    OfferError,
};
use ipmsg::ipmsg_core::packet::{parse_packet, Packet, PacketError};
use ipmsg::ipmsg_core::serve::{
    cancel_send, finish_serve, handle_tcp_file, serving_started, ServeEnd, ServeError,
};
use ipmsg::ipmsg_core::service::{
    build_user_extra, default_user_info, now_millis, send_ansentry, send_broadcast_entry,
    send_exit, send_exit_to, send_message, send_readmsg, send_recvmsg, set_text_encoding,
    set_user_info, user_info_from, Service, UserInfo, MAX_PACKET_NO,
};
use ipmsg::ipmsg_core::text::TextEncoding;
use ipmsg::ipmsg_core::transfer::{file_request, folder_request, Radix};
use ipmsg::net::{parse_ipv4, NetSettings, SocketAddr};

fn addr(ip: &str, port: u16) -> SocketAddr {
    SocketAddr::V4 { ip: parse_ipv4(ip).unwrap(), port }
}

fn service(name: &str) -> Service {
    let user = UserInfo {
        username: name.to_string(),
        hostname: format!("{name}-host"),
        group: "组".to_string(),
    };
    let net = NetSettings { prefix: None, broadcast: None, detected: None };
    Service::new(TextEncoding::Gb18030, user, 0x1234, net)
}

fn meta(path: &str, name: Option<&str>, kind: EntryKind, size: u64) -> FileMeta {
    FileMeta {
        path: path.to_string(),
        name: name.map(|s| s.to_string()),
        kind,
        size,
        mtime: 0x5e,
    }
}

fn read(bytes: &[u8]) -> Packet {
    parse_packet(TextEncoding::Gb18030, bytes).unwrap()
}

#[test]
fn user_is_told_to_others() {
    let mut s = service("me");
    assert_eq!(
        build_user_extra(&s),
        "me\0组\0UN:me-<0000000000001234>\0HN:me-host\0NN:me\0GN:组\0VS:00010002:5:7:2"
    );
    let d = send_broadcast_entry(&mut s);
    assert_eq!(d.to, addr("255.255.255.255", 2425));
    let p = read(&d.bytes);
    assert_eq!((p.version, p.packet_no, p.command), (1, 1, 1));
    assert_eq!((p.username.as_str(), p.hostname.as_str()), ("me", "me-host"));
    assert_eq!(p.extra, build_user_extra(&s));
    let to = addr("10.0.0.1", 2425);
    assert_eq!(read(&send_exit(&mut s).bytes).command, 2);
    let d = send_exit_to(&mut s, to);
    assert_eq!(d.to, to);
    assert_eq!(read(&d.bytes).command, 2);
    assert_eq!(read(&send_ansentry(&mut s, to).bytes).command, 3);
    let p = read(&send_recvmsg(&mut s, 77, to).bytes);
    assert_eq!((p.command, p.extra.as_str()), (0x21, "77"));
    let p = read(&send_readmsg(&mut s, 78, to).bytes);
    assert_eq!((p.command, p.extra.as_str(), p.packet_no), (0x30, "78", 6));
}

#[test]
fn packet_numbers_go_round() {
    let mut s = service("me");
    assert_eq!(now_millis(&mut s), 1);
    assert_eq!(now_millis(&mut s), 2);
    s.packet_no_seq = MAX_PACKET_NO;
    assert_eq!(now_millis(&mut s), 0x7fff_ffff);
    assert_eq!(now_millis(&mut s), 1);
}

#[test]
fn settings_of_the_service_are_used() {
    let mut s = service("me");
    set_user_info(&mut s, "王", "队");
    set_text_encoding(&mut s, TextEncoding::Utf8);
    let (n, d) = send_message(&mut s, addr("10.0.0.2", 2425), "你好".to_string());
    assert_eq!(n, 1);
    let p = parse_packet(TextEncoding::Utf8, &d.bytes).unwrap();
    assert_eq!((p.username.as_str(), p.hostname.as_str()), ("王", "me-host"));
    assert_eq!((p.command, p.extra.as_str()), (0x120, "你好"));
    assert_eq!(s.user.group, "队");
}

#[test]
fn the_machine_names_its_user() {
    let info = default_user_info();
    assert_eq!(info.group, "");
    assert_eq!(info.username, whoami::username());
    assert_eq!(info.hostname, hostname::get().unwrap().to_string_lossy());
    let info = user_info_from("u".to_string(), None);
    assert_eq!((info.username.as_str(), info.hostname.as_str()), ("u", "host"));
}

#[test]
fn message_arrives_once_and_is_confirmed_each_time() {
    let mut a = service("a");
    let mut b = service("b");
    let from = addr("10.0.0.1", 2425);
    let (n, d) = send_message(&mut a, addr("10.0.0.2", 2425), "hi".to_string());
    let first = handle_udp_packet(&mut b, &d.bytes, from);
    assert_eq!(first.events.len(), 1);
    match &first.events[0] {
        Event::Message { from: f, user, host, text } => {
            assert_eq!(*f, from);
            assert_eq!((user.as_str(), host.as_str(), text.as_str()), ("a", "a-host", "hi"));
        }
        e => panic!("{e:?}"),
    }
    assert_eq!(first.replies.len(), 1);
    assert_eq!(first.replies[0].to, from);
    let again = handle_udp_packet(&mut b, &d.bytes, from);
    assert!(again.events.is_empty());
    assert_eq!(again.replies.len(), 1);
    let back = handle_udp_packet(&mut a, &first.replies[0].bytes, addr("10.0.0.2", 2425));
    assert!(back.replies.is_empty());
    match back.events[0] {
        Event::Delivered { packet_no, .. } => assert_eq!(packet_no, n),
        ref e => panic!("{e:?}"),
    }
}

#[test]
fn announcement_is_answered() {
    let mut a = service("a");
    let mut b = service("b");
    let from = addr("10.0.0.1", 2425);
    let d = send_broadcast_entry(&mut a);
    let r = handle_udp_packet(&mut b, &d.bytes, from);
    match &r.events[0] {
        Event::Online { user, group, host, addr } => {
            assert_eq!((user.as_str(), group.as_str(), host.as_str()), ("a", "组", "a-host"));
            assert_eq!(*addr, from);
        }
        e => panic!("{e:?}"),
    }
    let answer = handle_udp_packet(&mut a, &r.replies[0].bytes, addr("10.0.0.2", 2425));
    assert!(matches!(&answer.events[0], Event::Online { user, .. } if user == "b"));
    assert!(answer.replies.is_empty());
    let d = send_exit(&mut a);
    let r = handle_udp_packet(&mut b, &d.bytes, from);
    assert!(matches!(&r.events[0], Event::Offline { user, .. } if user == "a"));
}

fn raw(s: &mut Service, text: &str) -> ipmsg::ipmsg_core::inbound::Inbound {
    handle_udp_packet(s, text.as_bytes(), addr("10.0.0.9", 2425))
}

#[test]
fn attachment_fields_are_read_from_a_datagram() {
    let mut s = service("s");
    let command = 0x20 | 0x20_0000;
    let r = raw(&mut s, &format!("1:9:bob:pc:{command}:\u{0}5:a.txt:1024:0:1:\u{7}"));
    assert_eq!(r.events.len(), 2);
    match &r.events[1] {
        Event::FileOffer { user, packet_no, file_id, name, size, is_dir, .. } => {
            assert_eq!((user.as_str(), name.as_str()), ("bob", "a.txt"));
            assert_eq!((*packet_no, *file_id, *size, *is_dir), (9, 5, 4132, false));
        }
        e => panic!("{e:?}"),
    }
}

#[test]
fn number_and_host_make_a_duplicate() {
    let mut s = service("s");
    let first = handle_udp_packet(&mut s, b"1:9:u:h:32:one", addr("10.0.0.9", 2425));
    assert_eq!(first.events.len(), 1);
    let again = handle_udp_packet(&mut s, b"1:9:u:h:288:two", addr("10.0.0.9", 4000));
    assert!(again.events.is_empty());
    assert_eq!(again.replies.len(), 1);
    let other = handle_udp_packet(&mut s, b"1:9:u:h:32:one", addr("10.0.0.8", 2425));
    assert_eq!(other.events.len(), 1);
}

#[test]
fn options_of_messages_are_heeded() {
    let mut s = service("s");
    let sealed = 0x20 | 0x100 | 0x200;
    let r = raw(&mut s, &format!("1:5:u:h:{sealed}:secret"));
    assert_eq!(r.replies.len(), 2);
    assert_eq!(read(&r.replies[0].bytes).command, 0x21);
    assert_eq!(read(&r.replies[1].bytes).command, 0x30);
    assert_eq!(read(&r.replies[1].bytes).extra, "5");
    let encrypted = 0x20 | 0x40_0000;
    let r = raw(&mut s, &format!("1:6:u:h:{encrypted}:xxxx"));
    assert!(r.replies.is_empty());
    assert!(matches!(&r.events[0], Event::Message { text, .. } if text == ENCRYPTED_TEXT));
    assert!(raw(&mut s, "1:7:u:h:0:").events.is_empty());
}

#[test]
fn unknown_packets_are_shown_raw() {
    let mut s = service("s");
    let r = raw(&mut s, "1:7:u:h:99:x");
    assert!(matches!(&r.events[0], Event::Unknown { raw, .. } if raw == "1:7:u:h:99:x"));
    let r = handle_udp_packet(&mut s, b"junk\xff", addr("10.0.0.9", 2425));
    assert!(matches!(&r.events[0], Event::Unknown { raw, .. } if raw == "junk\u{fffd}"));
}

#[test]
fn unheeded_peers_are_answered_but_not_shown() {
    let mut s = service("s");
    s.net.prefix = Some("192.168.".to_string());
    let r = raw(&mut s, &format!("1:5:u:h:{}:t", 0x120));
    assert!(r.events.is_empty());
    assert_eq!(r.replies.len(), 1);
    assert!(raw(&mut s, "junk").events.is_empty());
}

#[test]
fn remembered_messages_are_forgotten_together() {
    let mut s = service("s");
    for n in 0..=MAX_SEEN {
        raw(&mut s, &format!("1:{n}:u:h:32:t"));
    }
    assert_eq!(s.seen.len(), MAX_SEEN + 1);
    raw(&mut s, "1:99999:u:h:32:t");
    assert_eq!(s.seen.len(), 1);
}

#[test]
fn offered_files_arrive_and_are_served_to_their_addressee() {
    let mut a = service("a");
    let mut b = service("b");
    let to = addr("10.0.0.2", 2425);
    let from = addr("10.0.0.1", 2425);
    let metas = vec![
        meta("/x/甲.bin", Some("甲.bin"), EntryKind::File, 0xabc),
        meta("/x/dir", Some("dir"), EntryKind::Dir, 1),
        meta("/x/b", None, EntryKind::File, 7),
    ];
    let (sent, d) = send_files(&mut a, to, metas).unwrap();
    assert_eq!(sent.len(), 2);
    assert_eq!(sent[0].packet_no, 1);
    assert_eq!(sent[0].path, "/x/甲.bin");
    assert_eq!(sent[1].name, "file");
    assert_ne!(sent[0].file_id, sent[1].file_id);
    let r = handle_udp_packet(&mut b, &d.bytes, from);
    assert_eq!(r.events.len(), 3);
    assert!(matches!(&r.events[0], Event::Message { text, .. } if text.is_empty()));
    match &r.events[1] {
        Event::FileOffer { packet_no, file_id, name, size, is_dir, .. } => {
            assert_eq!(*packet_no, 1);
            assert_eq!(*file_id, sent[0].file_id);
            assert_eq!(name, "甲.bin");
            assert_eq!(*size, 0xabc);
            assert!(!is_dir);
        }
        e => panic!("{e:?}"),
    }
    for radix in [Radix::Hex, Radix::Decimal] {
        let request = file_request(&mut b, 1, sent[0].file_id, radix);
        let job = handle_tcp_file(&mut a, &request, addr("10.0.0.2", 50000)).unwrap();
        if radix == Radix::Hex {
            let job = job.unwrap();
            assert_eq!(job.path, "/x/甲.bin");
            assert_eq!(job.offset, 0);
            assert!(!job.is_dir);
            assert!(matches!(serving_started(&job), Event::FileServingStarted { packet_no: 1, .. }));
            assert!(matches!(
                finish_serve(&mut a, &job, ServeEnd::Done),
                Some(Event::FileServed { .. })
            ));
        } else {
            assert!(job.is_some());
        }
        let stranger = handle_tcp_file(&mut a, &request, addr("10.0.0.3", 50000));
        assert_eq!(stranger.unwrap_err(), ServeError::NotAuthorized);
    }
    // A file is not served as a folder.
    let request = folder_request(&mut b, 1, sent[0].file_id);
    assert!(handle_tcp_file(&mut a, &request, addr("10.0.0.2", 50000)).unwrap().is_none());
}

#[test]
fn folder_is_offered_with_a_text() {
    let mut a = service("a");
    let mut b = service("b");
    let to = addr("10.0.0.2", 2425);
    let (sent, d) = send_folder(&mut a, to, meta("/d", Some("照片"), EntryKind::Dir, 9)).unwrap();
    assert_eq!((sent.size, sent.is_dir, sent.name.as_str()), (0, true, "照片"));
    let r = handle_udp_packet(&mut b, &d.bytes, addr("10.0.0.1", 2425));
    assert!(matches!(&r.events[0], Event::Message { text, .. } if text == "[文件夹] 照片"));
    assert!(matches!(&r.events[1], Event::FileOffer { is_dir: true, name, .. } if name == "照片"));
    let request = folder_request(&mut b, sent.packet_no, sent.file_id);
    let job = handle_tcp_file(&mut a, &request, addr("10.0.0.2", 1)).unwrap().unwrap();
    assert!(job.is_dir);
    assert_eq!(job.path, "/d");
    let not_dir = send_folder(&mut a, to, meta("/f", Some("f"), EntryKind::File, 9));
    assert_eq!(not_dir.unwrap_err(), OfferError::NotDirectory);
}

#[test]
fn offers_fail_as_they_should() {
    let mut a = service("a");
    let to = addr("10.0.0.2", 2425);
    let none = send_files(&mut a, to, vec![meta("/d", None, EntryKind::Dir, 0)]);
    assert_eq!(none.unwrap_err(), OfferError::NoFiles);
    assert_eq!(a.packet_no_seq, 1);
    assert!(offer_file(&mut a, to, meta("/f", Some("f"), EntryKind::File, 1), 5).is_ok());
    a.packet_no_seq = 1;
    let clash = offer_file(&mut a, to, meta("/g", Some("g"), EntryKind::File, 1), 5);
    assert_eq!(clash.unwrap_err(), OfferError::IdCollision);
    assert_eq!(a.packet_no_seq, 2);
    a.packet_no_seq = 1;
    let clash = offer_folder(&mut a, to, meta("/g", Some("g"), EntryKind::Dir, 1), 5);
    assert_eq!(clash.unwrap_err(), OfferError::IdCollision);
}

#[test]
fn offer_is_written_field_by_field() {
    let mut a = service("a");
    let to = addr("10.0.0.2", 2425);
    let (sent, d) = offer_files(
        &mut a,
        to,
        vec![
            meta("/1", Some("a:b"), EntryKind::File, 255),
            meta("/2", Some("c"), EntryKind::File, 16),
        ],
        vec![11, 12],
    );
    assert_eq!(sent[0].name, "a::b");
    let p = read(&d.bytes);
    assert_eq!(p.command, 0x20_0120);
    assert_eq!(p.extra, "\u{0}11:a::b:ff:5e:1:\u{7}12:c:10:5e:1:\u{7}");
    let mut b = service("b");
    let r = handle_udp_packet(&mut b, &d.bytes, addr("10.0.0.1", 2425));
    assert!(matches!(&r.events[2], Event::FileOffer { file_id: 12, size: 16, .. }));
    let (one, d) = send_file(&mut a, to, meta("/3", Some("d"), EntryKind::File, 1)).unwrap();
    assert_eq!(read(&d.bytes).extra, format!("\u{0}{}:d:1:5e:1:\u{7}", one.file_id));
}

#[test]
fn withdrawn_offer_is_not_served() {
    let mut a = service("a");
    let mut b = service("b");
    let to = addr("10.0.0.2", 2425);
    let (sent, _) = send_file(&mut a, to, meta("/f", Some("f"), EntryKind::File, 3)).unwrap();
    let request = file_request(&mut b, sent.packet_no, sent.file_id, Radix::Hex);
    let peer = addr("10.0.0.2", 40000);
    let job = handle_tcp_file(&mut a, &request, peer).unwrap().unwrap();
    assert!(!a.cancels.is_canceled(job.token));
    assert!(cancel_send(&mut a, to, sent.packet_no, sent.file_id));
    assert!(a.cancels.is_canceled(job.token));
    assert!(!cancel_send(&mut a, to, sent.packet_no, sent.file_id));
    assert!(handle_tcp_file(&mut a, &request, peer).unwrap().is_none());
    assert!(finish_serve(&mut a, &job, ServeEnd::Canceled).is_none());
    assert!(matches!(
        finish_serve(&mut a, &job, ServeEnd::Broken),
        Some(Event::FileServeFailed { .. })
    ));
}

#[test]
fn marked_transfer_is_refused_once() {
    let mut a = service("a");
    let mut b = service("b");
    let to = addr("10.0.0.2", 2425);
    let file = meta("/f", Some("f"), EntryKind::File, 3);
    offer_file(&mut a, to, file.clone(), 9).unwrap();
    cancel_send(&mut a, to, 1, 9);
    a.packet_no_seq = 1;
    offer_file(&mut a, to, file, 9).unwrap();
    let request = file_request(&mut b, 1, 9, Radix::Hex);
    let peer = addr("10.0.0.2", 40000);
    assert_eq!(handle_tcp_file(&mut a, &request, peer).unwrap_err(), ServeError::Canceled);
    let job = handle_tcp_file(&mut a, &request, peer).unwrap().unwrap();
    assert!(!a.cancels.is_canceled(job.token));
    assert!(finish_serve(&mut a, &job, ServeEnd::Unopened).is_some());
}

#[test]
fn malformed_requests_are_refused() {
    let mut a = service("a");
    let peer = addr("10.0.0.2", 1);
    assert!(handle_tcp_file(&mut a, b"", peer).unwrap().is_none());
    assert_eq!(
        handle_tcp_file(&mut a, b"junk", peer).unwrap_err(),
        ServeError::BadPacket(PacketError::TooFewFields)
    );
    assert_eq!(
        handle_tcp_file(&mut a, b"1:1:u:h:96:1:2", peer).unwrap_err(),
        ServeError::BadFileRequest
    );
    assert_eq!(
        handle_tcp_file(&mut a, b"1:1:u:h:98:1", peer).unwrap_err(),
        ServeError::BadDirRequest
    );
    assert!(handle_tcp_file(&mut a, b"1:1:u:h:96:1:2:0", peer).unwrap().is_none());
    assert!(handle_tcp_file(&mut a, b"1:1:u:h:32:1:2:0", peer).unwrap().is_none());
}

#[test]
fn offset_of_a_request_is_used() {
    let mut a = service("a");
    let to = addr("10.0.0.2", 2425);
    offer_file(&mut a, to, meta("/f", Some("f"), EntryKind::File, 3), 9).unwrap();
    let job = handle_tcp_file(&mut a, b"1:1:u:h:96:1:9: 0x10 ", to).unwrap().unwrap();
    assert_eq!(job.offset, 16);
}
