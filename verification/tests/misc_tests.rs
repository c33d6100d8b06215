use gkd::calendar::compact_date;
use gkd::calendar::today_stamp;
use gkd::session::binary_or_empty;
use gkd::session::binary_payload;
use gkd::session::digest_path;
use gkd::session::fragment_op;
use gkd::session::fragment_path;
use gkd::session::listen_address;
use gkd::session::recv_step;
use gkd::session::text_or;
use gkd::session::FragmentOp;
use gkd::session::Message;
use gkd::session::RecvStep;
use gkd::setup::parse_setup;
use gkd::setup::port_u16;
use gkd::setup::status_report;
use gkd::transfer::decode_length;
use gkd::transfer::encode_length;
use gkd::transfer::receive_chunks;
use gkd::transfer::send_chunks;
use gkd::walk::FolderWalk;

#[test]
fn length_framing_round_trip() {
    for n in [0u64, 1, 1024, 1025, 0x0102_0304_0506_0708, i64::MAX as u64] {
        let b = encode_length(n);
        assert_eq!(b, n.to_be_bytes().to_vec());
        assert_eq!(decode_length(&b), n as i64);
    }
    assert_eq!(decode_length(&u64::MAX.to_be_bytes()), -1);
    assert_eq!(decode_length(&[0x80, 0, 0, 0, 0, 0, 0, 0]), i64::MIN);
}

#[test]
fn chunk_plans() {
    assert_eq!(receive_chunks(0), (0, 0));
    assert_eq!(receive_chunks(1024), (0, 1024));
    assert_eq!(receive_chunks(1025), (1, 1));
    assert_eq!(receive_chunks(2048), (1, 1024));
    assert_eq!(receive_chunks(3000), (2, 952));
    assert_eq!(receive_chunks(-5), (0, -5));
    assert_eq!(send_chunks(2049), (2, 1));
    assert_eq!(send_chunks(10), (0, 10));
}

#[test]
fn dates_lose_their_separators() {
    assert_eq!(compact_date("2024-05-01+08:00"), "20240501");
    assert_eq!(compact_date("2024-05-01"), "20240501");
    assert_eq!(compact_date("abcdefgh"), "abcdfg");
    let d = today_stamp();
    assert_eq!(d.len(), 8);
    if d.chars().next().map_or(false, |c| c.is_ascii_digit()) {
        assert!(d.chars().all(|c| c.is_ascii_digit()));
    }
}

#[test]
fn receiving_skips_pings_and_closes() {
    assert!(matches!(recv_step(None), RecvStep::Stop));
    assert!(matches!(recv_step(Some(Message::Close)), RecvStep::Skip));
    assert!(matches!(recv_step(Some(Message::Ping(vec![1]))), RecvStep::Skip));
    match recv_step(Some(Message::Text("U".into()))) {
        RecvStep::Deliver(Message::Text(t)) => assert_eq!(t, "U"),
        _ => panic!("text not delivered"),
    }
    assert!(matches!(recv_step(Some(Message::Pong(vec![]))), RecvStep::Deliver(Message::Pong(_))));
}

#[test]
fn operations_and_payloads() {
    assert!(matches!(fragment_op(&Message::Text("U".into())), FragmentOp::Upload));
    assert!(matches!(fragment_op(&Message::Text("D".into())), FragmentOp::Download));
    assert!(matches!(fragment_op(&Message::Text("E".into())), FragmentOp::Echo));
    assert!(matches!(fragment_op(&Message::Text("UD".into())), FragmentOp::Undefined));
    assert!(matches!(fragment_op(&Message::Binary(vec![85])), FragmentOp::Undefined));
    assert_eq!(text_or(&Message::Text("f1".into()), "dismatch"), "f1");
    assert_eq!(text_or(&Message::Close, "dismatch"), "dismatch");
    assert_eq!(binary_payload(Message::Binary(vec![1, 2])), Some(vec![1, 2]));
    assert_eq!(binary_payload(Message::Text("x".into())), None);
    assert_eq!(binary_or_empty(Message::Close), Vec::<u8>::new());
}

#[test]
fn paths_and_addresses() {
    assert_eq!(fragment_path("/tmp/frag", "702"), "/tmp/frag/702");
    assert_eq!(digest_path("/tmp/frag", "702"), "/tmp/frag/702.digest");
    assert_eq!(listen_address(2794), "127.0.0.1:2794");
}

#[test]
fn setup_file_is_read() {
    let lines: Vec<String> = [
        "10.0.0.1\n", "6666\n", " 2794 \n", "3\n", "\n", "/data/frag\n", "1000\n",
    ]
    .iter()
    .map(|s| s.to_string())
    .collect();
    let s = parse_setup(&lines).unwrap();
    assert_eq!(s.server_ip, "10.0.0.1");
    assert_eq!(s.control_port, 6666);
    assert_eq!(s.data_port, 2794);
    assert_eq!(s.client_id, 3);
    assert_eq!(s.fragment_folder, "/data/frag");
    assert_eq!(s.rs, 1000);
    assert!(parse_setup(&lines[..6].to_vec()).is_none());
    let mut bad = lines.clone();
    bad[1] = "port\n".into();
    assert!(parse_setup(&bad).is_none());
}

#[test]
fn ports_and_status() {
    assert_eq!(port_u16(6666), 6666u16);
    assert_eq!(port_u16(70000), 70000i32 as u16);
    assert_eq!(port_u16(-1), -1i32 as u16);
    assert_eq!(status_report(1).unwrap(), "Err: can not connect to server");
    assert_eq!(status_report(2).unwrap(), "Err: can detect files");
    assert!(status_report(0).is_none());
}

#[test]
fn walk_is_breadth_first() {
    let mut w = FolderWalk::new("root".into());
    assert_eq!(w.next_folder(), Some("root".to_string()));
    w.add_entries(
        &vec!["root/a".into(), "root/f1".into(), "root/b".into()],
        &vec![true, false, true],
    );
    assert_eq!(w.next_folder(), Some("root/a".to_string()));
    w.add_entries(&vec!["root/a/f2".into(), "root/a/c".into()], &vec![false, true]);
    assert_eq!(w.next_folder(), Some("root/b".to_string()));
    w.add_entries(&vec!["root/b/f3".into()], &vec![false]);
    assert_eq!(w.next_folder(), Some("root/a/c".to_string()));
    assert_eq!(w.next_folder(), None);
    assert_eq!(w.into_files(), vec!["root/f1".to_string(), "root/a/f2".into(), "root/b/f3".into()]);
}
