use message_board::decimal::{parse_i64, push_decimal};
use message_board::form::{bytes_eq, find, find_last, parse_pairs, unescape_range, Pair};
use message_board::json::{encode_insert_ack, encode_list, push_message, push_string};
use message_board::models::Message;

fn written(n: i64) -> Vec<u8> {
    let mut out = Vec::new();
    push_decimal(&mut out, n);
    out
}

fn pair(name: &str, value: &str) -> Pair {
    Pair { name: name.as_bytes().to_vec(), value: value.as_bytes().to_vec() }
}

fn names_and_values(pairs: &[Pair]) -> Vec<(Vec<u8>, Vec<u8>)> {
    pairs.iter().map(|p| (p.name.clone(), p.value.clone())).collect()
}

fn message(id: i32, username: &str, text: &str, timestamp: i64) -> Message {
    Message { id, username: username.to_string(), message: text.to_string(), timestamp }
}

#[test]
fn parse_i64_reads_plain_digits() {
    assert_eq!(parse_i64(b"0"), Some(0));
    assert_eq!(parse_i64(b"7"), Some(7));
    assert_eq!(parse_i64(b"1500000000"), Some(1_500_000_000));
    assert_eq!(parse_i64(b"007"), Some(7));
}

#[test]
fn parse_i64_reads_signs() {
    assert_eq!(parse_i64(b"-12"), Some(-12));
    assert_eq!(parse_i64(b"+12"), Some(12));
    assert_eq!(parse_i64(b"-0"), Some(0));
}

#[test]
fn parse_i64_reads_the_ends_of_the_range() {
    assert_eq!(parse_i64(b"9223372036854775807"), Some(i64::MAX));
    assert_eq!(parse_i64(b"-9223372036854775808"), Some(i64::MIN));
    assert_eq!(parse_i64(b"0000000000000000000009223372036854775807"), Some(i64::MAX));
}

#[test]
fn parse_i64_refuses_what_does_not_fit() {
    assert_eq!(parse_i64(b"9223372036854775808"), None);
    assert_eq!(parse_i64(b"-9223372036854775809"), None);
    assert_eq!(parse_i64(b"99999999999999999999999999"), None);
    assert_eq!(parse_i64(b"18446744073709551616"), None);
}

#[test]
fn parse_i64_refuses_what_is_no_literal() {
    assert_eq!(parse_i64(b""), None);
    assert_eq!(parse_i64(b"-"), None);
    assert_eq!(parse_i64(b"+"), None);
    assert_eq!(parse_i64(b"abc"), None);
    assert_eq!(parse_i64(b"12a"), None);
    assert_eq!(parse_i64(b" 12"), None);
    assert_eq!(parse_i64(b"12 "), None);
    assert_eq!(parse_i64(b"1.5"), None);
    assert_eq!(parse_i64(b"--1"), None);
    assert_eq!(parse_i64(b"1-"), None);
}

#[test]
fn parse_i64_agrees_with_std() {
    let samples: [&str; 12] = [
        "0", "-1", "+1", "42", "-42", "000", "9223372036854775807", "9223372036854775808",
        "-9223372036854775808", "x", "", "+-1",
    ];
    for s in samples {
        assert_eq!(parse_i64(s.as_bytes()), s.parse::<i64>().ok(), "on {:?}", s);
    }
}

#[test]
fn push_decimal_writes_digits() {
    assert_eq!(written(0), b"0".to_vec());
    assert_eq!(written(5), b"5".to_vec());
    assert_eq!(written(10), b"10".to_vec());
    assert_eq!(written(1234567890), b"1234567890".to_vec());
    assert_eq!(written(-1), b"-1".to_vec());
    assert_eq!(written(-907), b"-907".to_vec());
}

#[test]
fn push_decimal_writes_the_ends_of_the_range() {
    assert_eq!(written(i64::MAX), b"9223372036854775807".to_vec());
    assert_eq!(written(i64::MIN), b"-9223372036854775808".to_vec());
}

#[test]
fn push_decimal_appends() {
    let mut out = b"n=".to_vec();
    push_decimal(&mut out, 31);
    assert_eq!(out, b"n=31".to_vec());
}

#[test]
fn decimal_reads_back_what_it_wrote() {
    let samples: [i64; 9] = [0, 1, -1, 9, 10, -10, 1_500_000_000, i64::MAX, i64::MIN];
    for n in samples {
        assert_eq!(parse_i64(&written(n)), Some(n));
    }
}

#[test]
fn bytes_eq_compares_contents() {
    assert!(bytes_eq(b"", b""));
    assert!(bytes_eq(b"abc", b"abc"));
    assert!(!bytes_eq(b"abc", b"abd"));
    assert!(!bytes_eq(b"abc", b"ab"));
    assert!(!bytes_eq(b"", b"a"));
}

#[test]
fn find_gives_the_first_position_or_the_end() {
    assert_eq!(find(b"a&b&c", 0, 5, b'&'), 1);
    assert_eq!(find(b"a&b&c", 2, 5, b'&'), 3);
    assert_eq!(find(b"a&b&c", 4, 5, b'&'), 5);
    assert_eq!(find(b"a&b&c", 0, 1, b'&'), 1);
    assert_eq!(find(b"", 0, 0, b'&'), 0);
    assert_eq!(find(b"&", 0, 1, b'&'), 0);
}

#[test]
fn unescape_range_decodes_plus_and_percent() {
    assert_eq!(unescape_range(b"hello+world", 0, 11), b"hello world".to_vec());
    assert_eq!(unescape_range(b"a%20b", 0, 5), b"a b".to_vec());
    assert_eq!(unescape_range(b"%2B", 0, 3), b"+".to_vec());
    assert_eq!(unescape_range(b"%26%3D%25", 0, 9), b"&=%".to_vec());
    assert_eq!(unescape_range(b"%e2%82%AC", 0, 9), vec![0xe2, 0x82, 0xac]);
    assert_eq!(unescape_range(b"%00%ff", 0, 6), vec![0x00, 0xff]);
}

#[test]
fn unescape_range_keeps_a_percent_that_escapes_nothing() {
    assert_eq!(unescape_range(b"100%", 0, 4), b"100%".to_vec());
    assert_eq!(unescape_range(b"%zz", 0, 3), b"%zz".to_vec());
    assert_eq!(unescape_range(b"%4", 0, 2), b"%4".to_vec());
    assert_eq!(unescape_range(b"%4g", 0, 3), b"%4g".to_vec());
    assert_eq!(unescape_range(b"%%41", 0, 4), b"%A".to_vec());
}

#[test]
fn unescape_range_reads_only_its_range() {
    assert_eq!(unescape_range(b"ab%41cd", 2, 5), b"A".to_vec());
    assert_eq!(unescape_range(b"ab%41cd", 2, 4), b"%4".to_vec());
    assert_eq!(unescape_range(b"abc", 1, 1), Vec::<u8>::new());
}

#[test]
fn parse_pairs_splits_a_form() {
    let pairs = parse_pairs(b"message=hi&username=ann");
    assert_eq!(
        names_and_values(&pairs),
        names_and_values(&[pair("message", "hi"), pair("username", "ann")])
    );
}

#[test]
fn parse_pairs_skips_empty_segments() {
    let pairs = parse_pairs(b"&a=1&&b=2&");
    assert_eq!(names_and_values(&pairs), names_and_values(&[pair("a", "1"), pair("b", "2")]));
    assert!(parse_pairs(b"").is_empty());
    assert!(parse_pairs(b"&&&").is_empty());
}

#[test]
fn parse_pairs_reads_names_without_values() {
    let pairs = parse_pairs(b"flag&empty=&=bare&a=b=c");
    assert_eq!(
        names_and_values(&pairs),
        names_and_values(&[pair("flag", ""), pair("empty", ""), pair("", "bare"), pair("a", "b=c")])
    );
}

#[test]
fn parse_pairs_unescapes_names_and_values() {
    let pairs = parse_pairs(b"my+key=a%26b&%6dessage=x%3Dy");
    assert_eq!(
        names_and_values(&pairs),
        names_and_values(&[pair("my key", "a&b"), pair("message", "x=y")])
    );
}

#[test]
fn find_last_takes_the_last_value() {
    let pairs = parse_pairs(b"k=1&other=x&k=2&k=3&other=y");
    assert_eq!(find_last(&pairs, b"k"), Some(&b"3".to_vec()));
    assert_eq!(find_last(&pairs, b"other"), Some(&b"y".to_vec()));
    assert_eq!(find_last(&pairs, b"none"), None);
    assert_eq!(find_last(&Vec::new(), b"k"), None);
}

#[test]
fn push_string_escapes() {
    let mut out = Vec::new();
    push_string(&mut out, "a\"b\\c");
    assert_eq!(out, b"\"a\\\"b\\\\c\"".to_vec());
}

#[test]
fn push_string_writes_control_bytes() {
    let mut out = Vec::new();
    push_string(&mut out, "\u{8}\t\n\u{c}\r");
    assert_eq!(out, b"\"\\b\\t\\n\\f\\r\"".to_vec());
    let mut out = Vec::new();
    push_string(&mut out, "\u{0}\u{1}\u{b}\u{1f}\u{20}\u{7f}");
    assert_eq!(out, b"\"\\u0000\\u0001\\u000b\\u001f \x7f\"".to_vec());
}

#[test]
fn push_string_passes_other_text_through() {
    let mut out = Vec::new();
    push_string(&mut out, "");
    assert_eq!(out, b"\"\"".to_vec());
    let mut out = Vec::new();
    push_string(&mut out, "gr\u{fc}\u{df}e \u{20ac}/<>");
    assert_eq!(out, "\"gr\u{fc}\u{df}e \u{20ac}/<>\"".as_bytes().to_vec());
}

#[test]
fn push_message_writes_the_four_members_in_order() {
    let mut out = Vec::new();
    push_message(&mut out, &message(3, "ann", "hi", -20));
    assert_eq!(
        out,
        b"{\"id\":3,\"username\":\"ann\",\"message\":\"hi\",\"timestamp\":-20}".to_vec()
    );
}

#[test]
fn encode_list_of_nothing_is_an_empty_array() {
    assert_eq!(encode_list(&[]), b"[]".to_vec());
}

#[test]
fn encode_list_of_one() {
    assert_eq!(
        encode_list(&[message(1, "ann", "hi", 5)]),
        b"[{\"id\":1,\"username\":\"ann\",\"message\":\"hi\",\"timestamp\":5}]".to_vec()
    );
}

#[test]
fn encode_list_keeps_the_order_given() {
    let rows = [message(2, "b", "second", 20), message(1, "a", "first", 10), message(3, "c", "", 30)];
    assert_eq!(
        String::from_utf8(encode_list(&rows)).unwrap(),
        "[{\"id\":2,\"username\":\"b\",\"message\":\"second\",\"timestamp\":20},\
         {\"id\":1,\"username\":\"a\",\"message\":\"first\",\"timestamp\":10},\
         {\"id\":3,\"username\":\"c\",\"message\":\"\",\"timestamp\":30}]"
    );
}

#[test]
fn encode_list_escapes_texts() {
    let rows = [message(1, "a\"b", "line\nbreak\\", 1)];
    assert_eq!(
        String::from_utf8(encode_list(&rows)).unwrap(),
        "[{\"id\":1,\"username\":\"a\\\"b\",\"message\":\"line\\nbreak\\\\\",\"timestamp\":1}]"
    );
}

#[test]
fn encode_insert_ack_holds_the_timestamp() {
    assert_eq!(encode_insert_ack(1500000000), b"{\"timestamp\":1500000000}".to_vec());
    assert_eq!(encode_insert_ack(0), b"{\"timestamp\":0}".to_vec());
    assert_eq!(encode_insert_ack(-4), b"{\"timestamp\":-4}".to_vec());
    assert_eq!(
        encode_insert_ack(i64::MIN),
        b"{\"timestamp\":-9223372036854775808}".to_vec()
    );
}

#[test]
fn parse_pairs_of_joined_forms_are_the_pairs_of_each() {
    let forms: [&str; 5] = ["a=1&b=2", "", "c", "&d=4&", "e=%26&f=+"];
    for first in forms {
        for second in forms {
            let joined = format!("{}&{}", first, second);
            let mut expected = names_and_values(&parse_pairs(first.as_bytes()));
            expected.extend(names_and_values(&parse_pairs(second.as_bytes())));
            assert_eq!(names_and_values(&parse_pairs(joined.as_bytes())), expected);
        }
    }
}
