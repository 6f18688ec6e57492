use synac_client::address::parse_addr;
use synac_client::frontend::sanitize;
use synac_client::order::sort_texts;
use synac_client::text::{
    chars_of, decimal_text, parse_number, replace, same_text, text_of, trim,
};
use synac_client::typing::get_typing_string;

fn sanitized(text: &str) -> String {
    let mut text = String::from(text);
    sanitize(&mut text);
    text
}

#[test]
fn sanitize_keeps_newlines_and_tabs() {
    assert_eq!(sanitized("a\tb\nc"), "a\tb\nc");
}

#[test]
fn sanitize_removes_control_codes() {
    assert_eq!(sanitized("\u{1b}[31mred\u{7f}\u{9b}\r\0!"), "[31mred!");
    assert_eq!(sanitized(""), "");
}

#[test]
fn sanitize_agrees_with_std_on_every_character() {
    for n in 0..0x110000u32 {
        if let Some(c) = char::from_u32(n) {
            let kept = !c.is_control() || c == '\n' || c == '\t';
            let expected = if kept { c.to_string() } else { String::new() };
            assert_eq!(sanitized(&c.to_string()), expected, "{:x}", n);
        }
    }
}

#[test]
fn sanitize_twice_changes_nothing() {
    let once = sanitized("ä\u{85}ö\u{1}\u{2028}ü\n");
    assert_eq!(once, "äö\u{2028}ü\n");
    assert_eq!(sanitized(&once), once);
}

#[test]
fn trim_agrees_with_std_on_every_character() {
    for n in 0..0x110000u32 {
        if let Some(c) = char::from_u32(n) {
            let text = format!("{}x{}", c, c);
            assert_eq!(trim(&text), text.trim(), "{:x}", n);
        }
    }
}

#[test]
fn trim_keeps_what_is_inside() {
    assert_eq!(trim("  a b\u{3000}"), "a b");
    assert_eq!(trim(" \t\n"), "");
    assert_eq!(trim(""), "");
    assert_eq!(trim(&trim("  a b ")), "a b");
}

#[test]
fn replace_agrees_with_std() {
    let cases = [
        ("aaa", "a", "bb"),
        ("aaaa", "aa", "b"),
        ("aaa", "aa", "b"),
        ("hello", "l", ""),
        ("hello", "", "-"),
        ("", "", "x"),
        ("", "a", "x"),
        ("äöä", "ä", "ö"),
        ("äöä", "", "."),
        ("abc", "abcd", "x"),
        ("abab", "ab", "ab"),
    ];
    for (text, from, to) in cases.iter() {
        assert_eq!(replace(text, from, to), text.replace(from, to), "{:?}", (text, from, to));
    }
}

#[test]
fn replacing_by_itself_changes_nothing() {
    assert_eq!(replace("banana", "an", "an"), "banana");
    assert_eq!(replace("banana", "", ""), "banana");
}

#[test]
fn numbers_are_written_and_read_back() {
    for n in [0u64, 7, 10, 99, 100, 65535, u64::MAX].iter() {
        let text = decimal_text(*n);
        assert_eq!(text, n.to_string());
        assert_eq!(parse_number(&text, u64::MAX), Some(*n));
    }
}

#[test]
fn numbers_are_read_as_std_reads_them() {
    let cases = [
        "", "+", "-", "0", "+0", "007", "+42", "-1", "4a", "a4", " 1", "1 ", "65535", "65536",
        "++1", "18446744073709551615", "18446744073709551616", "99999999999999999999999", "٣",
    ];
    for text in cases.iter() {
        assert_eq!(parse_number(text, u64::MAX), text.parse::<u64>().ok(), "{:?}", text);
        assert_eq!(
            parse_number(text, 65535),
            text.parse::<u16>().ok().map(u64::from),
            "{:?}",
            text
        );
    }
}

#[test]
fn texts_are_compared_whole() {
    assert!(same_text("", ""));
    assert!(same_text("grüße", "grüße"));
    assert!(!same_text("a", "ab"));
    assert!(!same_text("é", "e"));
}

#[test]
fn characters_go_back_and_forth() {
    assert_eq!(chars_of("aé漢🦀"), vec!['a', 'é', '漢', '🦀']);
    assert_eq!(text_of(&['a', 'é', '漢', '🦀']), "aé漢🦀");
}

#[test]
fn texts_are_sorted_as_std_sorts_them() {
    let texts: Vec<String> = ["b", "a", "", "é", "ab", "Z", "a", "漢", "🦀", "z"]
        .iter()
        .map(|text| text.to_string())
        .collect();
    let mut expected = texts.clone();
    expected.sort();
    assert_eq!(sort_texts(texts), expected);
}

#[test]
fn an_address_without_a_port_gets_the_default() {
    assert_eq!(parse_addr("example.org", 8439), Some((String::from("example.org"), 8439)));
    assert_eq!(parse_addr("", 8439), Some((String::new(), 8439)));
}

#[test]
fn an_address_is_cut_at_its_last_colon() {
    assert_eq!(parse_addr("example.org:80", 8439), Some((String::from("example.org"), 80)));
    assert_eq!(parse_addr("::1:80", 8439), Some((String::from("::1"), 80)));
    assert_eq!(parse_addr(":65535", 8439), Some((String::new(), 65535)));
    assert_eq!(parse_addr("h:+1", 8439), Some((String::from("h"), 1)));
}

#[test]
fn an_address_with_a_bad_port_is_refused() {
    assert_eq!(parse_addr("example.org:", 8439), None);
    assert_eq!(parse_addr("example.org:65536", 8439), None);
    assert_eq!(parse_addr("example.org:http", 8439), None);
    assert_eq!(parse_addr("example.org:-1", 8439), None);
}

#[test]
fn nobody_is_typing() {
    assert_eq!(get_typing_string(&[]), "");
}

#[test]
fn up_to_three_people_are_named() {
    assert_eq!(get_typing_string(&["A"]), "A is typing");
    assert_eq!(get_typing_string(&["A", "B"]), "A and B are typing");
    assert_eq!(get_typing_string(&["A", "B", "C"]), "A, B and C are typing");
}

#[test]
fn more_people_are_counted_roughly() {
    let typing = |n: usize| get_typing_string(&vec!["x"; n]);
    assert_eq!(typing(4), "Several people are typing");
    assert_eq!(typing(10), "Several people are typing");
    assert_eq!(typing(11), "Over 10 people are typing");
    assert_eq!(typing(50), "Over 10 people are typing");
    assert_eq!(typing(51), "Over 50 people are typing");
    assert_eq!(typing(100), "Over 50 people are typing");
    assert_eq!(typing(101), "A crap ton of people are typing");
    assert_eq!(typing(500), "A crap ton of people are typing");
    assert_eq!(typing(501), "(╯°□°）╯︵ ┻━┻");
}
