use gkd::text::chars_of;
use gkd::text::format_i32;
use gkd::text::parse_bool_chars;
use gkd::text::parse_i32;
use gkd::text::split_chars;
use gkd::text::string_of;
use gkd::text::trim_chars;

fn split_str(s: &str) -> Vec<String> {
    let cs = chars_of(s);
    split_chars(&cs, ' ').iter().map(|t| t.iter().collect()).collect()
}

#[test]
fn split_matches_str_split() {
    for s in ["", " ", "a", "a b", "  a  b ", "6 0 1 / a \n", "x  y"] {
        let expected: Vec<String> = s.split(' ').map(|t| t.to_string()).collect();
        assert_eq!(split_str(s), expected);
    }
}

#[test]
fn trim_matches_str_trim() {
    for s in ["", "  ", " a ", "\t12\n", "\u{3000}x\u{a0}", "x y", "\r\n7\r\n"] {
        let cs = chars_of(s);
        let t: String = trim_chars(&cs).iter().collect();
        assert_eq!(t, s.trim());
    }
}

#[test]
fn parse_matches_i32_from_str() {
    for s in [
        "0", "-0", "+7", "42", "-42", "2147483647", "-2147483648", "2147483648", "-2147483649",
        "", "-", "+", "1a", " 1", "1 ", "007", "99999999999999999999", "--1", "+-1",
    ] {
        assert_eq!(parse_i32(s), s.parse::<i32>().ok(), "input {:?}", s);
    }
}

#[test]
fn format_matches_to_string() {
    for n in [0, 1, -1, 9, 10, -10, 123456, i32::MAX, i32::MIN] {
        assert_eq!(format_i32(n), n.to_string());
        assert_eq!(parse_i32(&format_i32(n)), Some(n));
    }
}

#[test]
fn parse_bool_matches_bool_from_str() {
    for s in ["true", "false", "True", "", "fals", "false\n"] {
        assert_eq!(parse_bool_chars(&chars_of(s)), s.parse::<bool>().ok());
    }
}

#[test]
fn string_of_round_trips() {
    let s = "héllo wörld";
    assert_eq!(string_of(&chars_of(s)), s);
}
