//! The client's start-up settings, read line by line from its settings file.
use vstd::prelude::*;

use crate::text::chars_of;
use crate::text::parse_i32_chars;
use crate::text::parse_i32_spec;
use crate::text::string_from;
use crate::text::string_of;
use crate::text::trim;
use crate::text::trim_chars;

verus! {

/// The settings: the server's address and control port, the client's data
/// port and device id, its fragment folder and its total space.
pub struct ClientSetup {
    pub server_ip: String,
    pub control_port: i32,
    pub data_port: i32,
    pub client_id: i32,
    pub fragment_folder: String,
    pub rs: i32,
}

/// Line `i` of the file; a line past the end reads as empty.
pub open spec fn line_at(lines: Seq<Seq<char>>, i: int) -> Seq<char> {
    if 0 <= i < lines.len() {
        lines[i]
    } else {
        Seq::empty()
    }
}

/// The settings file holds, one per line: the server address, the control
/// port, the data port, the device id, a blank line, the fragment folder and
/// the total space. Each line is trimmed; `None` when a number cannot be read
/// (the client stops there).
pub open spec fn setup_ok(lines: Seq<Seq<char>>) -> bool {
    &&& parse_i32_spec(trim(line_at(lines, 1))) is Some
    &&& parse_i32_spec(trim(line_at(lines, 2))) is Some
    &&& parse_i32_spec(trim(line_at(lines, 3))) is Some
    &&& parse_i32_spec(trim(line_at(lines, 6))) is Some
}

fn line_chars(lines: &Vec<String>, i: usize) -> (r: Vec<char>)
    ensures
        r@ == trim(line_at(lines@.map_values(|l: String| l@), i as int)),
{
    let ghost views = lines@.map_values(|l: String| l@);
    if i < lines.len() {
        let cs = chars_of(lines[i].as_str());
        trim_chars(cs.as_slice())
    } else {
        let e: Vec<char> = Vec::new();
        assert(e@ =~= Seq::<char>::empty());
        assert(trim(Seq::<char>::empty()) =~= Seq::<char>::empty());
        e
    }
}

/// Reads the settings from the lines of the settings file.
pub fn parse_setup(lines: &Vec<String>) -> (r: Option<ClientSetup>)
    ensures
        r is Some <==> setup_ok(lines@.map_values(|l: String| l@)),
        r matches Some(c) ==> {
            let v = lines@.map_values(|l: String| l@);
            &&& c.server_ip@ == trim(line_at(v, 0))
            &&& Some(c.control_port) == parse_i32_spec(trim(line_at(v, 1)))
            &&& Some(c.data_port) == parse_i32_spec(trim(line_at(v, 2)))
            &&& Some(c.client_id) == parse_i32_spec(trim(line_at(v, 3)))
            &&& c.fragment_folder@ == trim(line_at(v, 5))
            &&& Some(c.rs) == parse_i32_spec(trim(line_at(v, 6)))
        },
{
    let ip = line_chars(lines, 0);
    let p1 = line_chars(lines, 1);
    let p2 = line_chars(lines, 2);
    let p3 = line_chars(lines, 3);
    let folder = line_chars(lines, 5);
    let p6 = line_chars(lines, 6);
    let control_port = parse_i32_chars(p1.as_slice());
    let data_port = parse_i32_chars(p2.as_slice());
    let client_id = parse_i32_chars(p3.as_slice());
    let rs = parse_i32_chars(p6.as_slice());
    match (control_port, data_port, client_id, rs) {
        (Some(control_port), Some(data_port), Some(client_id), Some(rs)) => Some(
            ClientSetup {
                server_ip: string_of(ip.as_slice()),
                control_port,
                data_port,
                client_id,
                fragment_folder: string_of(folder.as_slice()),
                rs,
            },
        ),
        _ => None,
    }
}

/// `port as u16`: the control port as the client dials it, its low 16 bits.
pub fn port_u16(port: i32) -> (r: u16)
    ensures
        r as int == (port as int) % 65536,
{
    let m: i64 = (port as i64) % 65536;
    let p: i64 = if m < 0 {
        m + 65536
    } else {
        m
    };
    p as u16
}

/// What the client reports when one of its services stops: `1` for a lost
/// server connection, `2` for a failed folder watch.
pub fn status_report(code: i32) -> (r: Option<String>)
    ensures
        code == 1 ==> (r matches Some(s) && s@ == "Err: can not connect to server"@),
        code == 2 ==> (r matches Some(s) && s@ == "Err: can detect files"@),
        code != 1 && code != 2 ==> r is None,
{
    if code == 1 {
        Some(string_from("Err: can not connect to server"))
    } else if code == 2 {
        Some(string_from("Err: can detect files"))
    } else {
        None
    }
}

} // verus!
