use corrosion::ip::{push_hex, push_v4, push_v6, read_group, read_octet};
use corrosion::text::{
    chars_of, push_decimal, push_signed_decimal, split_at_each, string_of,
};
use corrosion::tokens::{append_bytes, order_of, Order};

fn chars(s: &str) -> Vec<char> {
    s.chars().collect()
}

#[test]
fn decimal_numerals() {
    for n in [0u64, 1, 9, 10, 99, 100, 65535, u64::MAX] {
        let mut out = String::from("n=");
        push_decimal(&mut out, n);
        assert_eq!(out, format!("n={n}"));
    }
    for i in [0i64, 1, -1, 1700000000, -62135596800, i64::MAX, i64::MIN] {
        let mut out = String::new();
        push_signed_decimal(&mut out, i);
        assert_eq!(out, format!("{i}"));
    }
}

#[test]
fn hexadecimal_numerals() {
    for n in [0u16, 1, 9, 10, 15, 16, 0xff, 0x100, 0xabcd, 0xffff] {
        let mut out = String::new();
        push_hex(&mut out, n);
        assert_eq!(out, format!("{n:x}"));
    }
    assert_eq!(read_group(&chars("abcd")), Some(0xabcd));
    assert_eq!(read_group(&chars("ABCD")), Some(0xabcd));
    assert_eq!(read_group(&chars("0")), Some(0));
    assert_eq!(read_group(&chars("0000")), Some(0));
    assert_eq!(read_group(&chars("ffff")), Some(0xffff));
    assert_eq!(read_group(&chars("")), None);
    assert_eq!(read_group(&chars("00000")), None);
    assert_eq!(read_group(&chars("g")), None);
    assert_eq!(read_octet(&chars("255")), Some(255));
    assert_eq!(read_octet(&chars("0")), Some(0));
    assert_eq!(read_octet(&chars("256")), None);
    assert_eq!(read_octet(&chars("00")), None);
    assert_eq!(read_octet(&chars("")), None);
}

#[test]
fn address_texts_are_appended() {
    let mut out = String::from("<");
    push_v4(&mut out, &[127, 0, 0, 1]);
    out.push('>');
    push_v6(&mut out, &[0xfe80, 0, 0, 0, 0, 0, 0, 1]);
    assert_eq!(out, "<127.0.0.1>fe80::1");
}

#[test]
fn characters_and_pieces() {
    assert_eq!(chars_of("a|ü:€"), chars("a|ü:€"));
    assert_eq!(chars_of(""), chars(""));
    assert_eq!(string_of(&chars("a|ü:€")), "a|ü:€");
    let text = chars("a::b:");
    let pieces: Vec<String> = split_at_each(&text, ':')
        .into_iter()
        .map(|p| p.iter().collect())
        .collect();
    assert_eq!(pieces, ["a", "", "b", ""]);
    assert_eq!(split_at_each(&[], ':'), [&[] as &[char]]);
}

#[test]
fn order_of_tokens() {
    assert_eq!(order_of(&[], &[]), Order::Same);
    assert_eq!(order_of(&[], &[0]), Order::Before);
    assert_eq!(order_of(&[0], &[]), Order::After);
    assert_eq!(order_of(&[1, 2], &[1, 3]), Order::Before);
    assert_eq!(order_of(&[1, 2], &[1, 2, 0]), Order::Before);
    assert_eq!(order_of(&[2], &[1, 9, 9]), Order::After);
    assert_eq!(order_of(&[7, 7], &[7, 7]), Order::Same);
    let mut out = vec![1u8];
    append_bytes(&mut out, &[2, 3]);
    assert_eq!(out, [1, 2, 3]);
}
