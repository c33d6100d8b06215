use gkd::protocol::ack_exact;
use gkd::protocol::ack_prefix;
use gkd::protocol::check_folders_request;
use gkd::protocol::file_id_reply;
use gkd::protocol::parse_data_command;
use gkd::protocol::parse_file_id_reply;
use gkd::protocol::push_fragment_request;
use gkd::protocol::register_file_request;
use gkd::protocol::AckCheck;
use gkd::protocol::DataCommand;
use gkd::records::FileAttrs;

#[test]
fn register_request_is_read_back() {
    let fa = FileAttrs::init("a.txt".into(), "/docs/".into(), "rw".into(), -4);
    let msg = register_file_request(&fa);
    assert_eq!(msg, "4 0 a.txt /docs/ rw -4 false\n");
    match parse_data_command(&msg) {
        DataCommand::RegisterFile { name, path, attr, noa, is_folder } => {
            assert_eq!(name, "a.txt");
            assert_eq!(path, "/docs/");
            assert_eq!(attr, "rw");
            assert_eq!(noa, -4);
            assert!(!is_folder);
        }
        _ => panic!("not a registration"),
    }
}

#[test]
fn push_request_is_read_back() {
    let msg = push_fragment_request(12, 3, 5);
    assert_eq!(msg, "5 12 3 5\n");
    match parse_data_command(&msg) {
        DataCommand::RecvFileFragment { file_id, fragment_num, fragment_count } => {
            assert_eq!((file_id, fragment_num, fragment_count), (12, 3, 5));
        }
        _ => panic!("not a fragment"),
    }
}

#[test]
fn transfer_commands_parse() {
    assert!(matches!(parse_data_command("1 4 702\n"),
        DataCommand::RecvRequiredFragment { request_id: 4, fragment_id: 702 }));
    assert!(matches!(parse_data_command("2 4 702\n"),
        DataCommand::SendFragment { request_id: 4, fragment_id: 702 }));
    assert!(matches!(parse_data_command("3 4 702"),
        DataCommand::DeleteFragment { request_id: 4, fragment_id: 702 }));
    // the delete command reads its fragment field untrimmed
    assert!(matches!(parse_data_command("3 4 702\n"), DataCommand::Malformed));
    assert!(matches!(parse_data_command("7 1 2\n"), DataCommand::Unknown));
    assert!(matches!(parse_data_command("1 2\n"), DataCommand::Malformed));
    assert!(matches!(parse_data_command("1 x 2\n"), DataCommand::Malformed));
    assert!(matches!(parse_data_command("5 1 2"), DataCommand::Malformed));
    assert!(matches!(parse_data_command("4 0 a b c 3"), DataCommand::Malformed));
    assert!(matches!(parse_data_command("4 0 a b c 3 yes\n"), DataCommand::Malformed));
}

#[test]
fn folder_check_command_keeps_the_fields() {
    match parse_data_command("6 0 1 / docs \n") {
        DataCommand::CheckFolder { count, entries } => {
            assert_eq!(count, 1);
            assert_eq!(entries, vec!["/".to_string(), "docs".into(), "\n".into()]);
        }
        _ => panic!("not a folder check"),
    }
}

#[test]
fn folder_check_request_layout() {
    let r = check_folders_request(&vec!["docs".to_string()]);
    assert_eq!(r, "6 0 1 / docs \n");
    let r = check_folders_request(&vec!["a/b".to_string()]);
    assert_eq!(r, "6 0 1 a\n/\n/ b\n\n\n");
    let r = check_folders_request(&vec![]);
    assert_eq!(r, "6 0 0 ");
}

#[test]
fn file_id_reply_round_trip() {
    for fid in [0, 17, -1, i32::MAX, i32::MIN] {
        let r = file_id_reply(fid);
        assert_eq!(r, format!("FileId: {}\n", fid));
        assert_eq!(parse_file_id_reply(&r), Some(fid));
    }
}

#[test]
fn file_id_reply_refusals() {
    assert_eq!(parse_file_id_reply("ERROR!\n"), Some(-2));
    assert_eq!(parse_file_id_reply("FileIx: 3\n"), Some(-2));
    assert_eq!(parse_file_id_reply("File"), None);
    assert_eq!(parse_file_id_reply("FileId:"), None);
    assert_eq!(parse_file_id_reply("FileId: x\n"), None);
    assert_eq!(parse_file_id_reply("FileId:abc 9 7\n"), Some(9));
}

#[test]
fn acknowledgements() {
    assert_eq!(ack_prefix("received!\n"), AckCheck::Accepted);
    assert_eq!(ack_prefix(""), AckCheck::Accepted);
    assert_eq!(ack_prefix("rece"), AckCheck::Accepted);
    assert_eq!(ack_prefix("ERROR!\n"), AckCheck::Rejected);
    assert_eq!(ack_prefix("received!\nmore"), AckCheck::Overrun);
    assert_eq!(ack_exact("received!\n"), AckCheck::Accepted);
    assert_eq!(ack_exact("rece"), AckCheck::Rejected);
    assert_eq!(ack_exact("received!\nx"), AckCheck::Overrun);
    assert_eq!(ack_exact("UPLOADFAIL!\n"), AckCheck::Rejected);
}
