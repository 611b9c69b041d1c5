use rwui::net::{element_number, listen_address, socket_address, Direction};
use rwui::text::{
    contains_str, ends_with_str, find_str, fmt_i32, parse_u8_str, push_dec, push_pad3,
    split_whitespace_str, starts_with_str, str_eq, suffix_from, trim_str,
};

#[test]
fn formats_signed_numbers() {
    assert_eq!(fmt_i32(0), "0");
    assert_eq!(fmt_i32(300), "300");
    assert_eq!(fmt_i32(-42), "-42");
    assert_eq!(fmt_i32(i32::MIN), "-2147483648");
    assert_eq!(fmt_i32(i32::MAX), "2147483647");
    let mut s = String::from("n=");
    push_dec(&mut s, 1234567890123);
    assert_eq!(s, "n=1234567890123");
}

#[test]
fn pads_to_three_digits() {
    for (n, t) in [(0u8, "000"), (7, "007"), (42, "042"), (255, "255")] {
        let mut s = String::new();
        push_pad3(&mut s, n);
        assert_eq!(s, t);
        assert_eq!(s, format!("{:0>3}", n));
    }
}

#[test]
fn parses_u8_like_std() {
    for s in ["0", "7", "+7", "007", "255", "256", "", "+", "-1", "-0", "12a", " 1", "1000", "+255"] {
        assert_eq!(parse_u8_str(s), s.parse::<u8>().ok(), "input {:?}", s);
    }
}

#[test]
fn finds_and_compares_text() {
    assert_eq!(find_str("abid_12", "id_"), Some(2));
    assert_eq!(find_str("abc", "id_"), None);
    assert_eq!(find_str("abc", ""), Some(0));
    assert!(contains_str("/x/id_4", "/id_"));
    assert!(!contains_str("/x/id4", "/id_"));
    assert!(starts_with_str("/pkg/a.js", "/pkg/"));
    assert!(!starts_with_str("/pk", "/pkg/"));
    assert!(ends_with_str("a.wasm", ".wasm"));
    assert!(!ends_with_str("a.wasm", ".js"));
    assert!(str_eq("GET", "GET"));
    assert!(!str_eq("GET", "GETS"));
    assert_eq!(suffix_from("héllo", 1), "éllo");
}

#[test]
fn trims_and_splits_on_unicode_whitespace() {
    for s in ["  q \n", "q", "", "   ", "\u{3000}a b\u{2028}", "\t x\ty \r\n"] {
        assert_eq!(trim_str(s), s.trim());
        let words: Vec<String> = s.split_whitespace().map(|w| w.to_string()).collect();
        assert_eq!(split_whitespace_str(s), words);
    }
}

#[test]
fn element_numbers_follow_the_first_marker() {
    assert_eq!(element_number("id_7"), Some(7));
    assert_eq!(element_number("id_007"), Some(7));
    assert_eq!(element_number("xid_12"), Some(12));
    assert_eq!(element_number("id_id_3"), None);
    assert_eq!(element_number("id_256"), None);
    assert_eq!(element_number("id_"), None);
    assert_eq!(element_number("button"), None);
}

#[test]
fn addresses_of_an_element() {
    assert_eq!(listen_address(Direction::ToPage, 7), "127.0.0.1:61007");
    assert_eq!(listen_address(Direction::ToServer, 42), "127.0.0.1:62042");
    assert_eq!(socket_address(Direction::ToPage, 0), "ws://127.0.0.1:61000");
    assert_eq!(socket_address(Direction::ToServer, 255), "ws://127.0.0.1:62255");
}

#[test]
fn every_socket_has_its_own_port() {
    let mut seen: Vec<String> = Vec::new();
    for n in 0..=255u8 {
        for d in [Direction::ToPage, Direction::ToServer] {
            let a = listen_address(d, n);
            assert!(!seen.contains(&a), "{} repeated", a);
            seen.push(a);
        }
    }
    assert_eq!(seen.len(), 512);
    assert_eq!(listen_address(Direction::ToServer, 255), "127.0.0.1:62255");
}
