use listinfo::parse::{parse_document, parse_fragment};
use listinfo::{EntryData, Error, Node};

fn fragment_with(n: usize) -> String {
    let mut text = String::from("game (\n");
    for i in 0..n {
        text.push_str(&format!("    sample s{}\n", i));
    }
    text.push_str("    name x\n)");
    text
}

#[test]
fn repeated_key_round_trip() {
    for n in [1usize, 2, 5] {
        let text = fragment_with(n);
        let (_, fragment) = parse_fragment(&text).unwrap();
        let mut values = fragment.entry_iter("sample").unwrap();
        let mut seen = vec![];
        while let Some(v) = values.next() {
            match v {
                EntryData::Scalar(t) => seen.push(t.to_string()),
                _ => panic!(),
            }
        }
        let expected: Vec<String> = (0..n).map(|i| format!("s{}", i)).collect();
        assert_eq!(seen, expected);
        assert_eq!(fragment.entry_unique("sample"), Some(&EntryData::Scalar("s0")));
    }
}

#[test]
fn unique_many_tags() {
    for n in [1usize, 2, 5] {
        let text = fragment_with(n);
        let (_, fragment) = parse_fragment(&text).unwrap();
        match fragment.entry("sample").unwrap() {
            Node::Unique(_) => assert_eq!(n, 1),
            Node::Many(v) => {
                assert!(n >= 2);
                assert_eq!(v.len(), n);
            }
        }
    }
}

#[test]
fn group_and_field_order() {
    let doc = parse_document("a ( k 1 )\nb ( k 2 )\na ( k 3 z 0 y 1 z 2 )").unwrap();
    let mut groups = doc.iter();
    let (first, a) = groups.next().unwrap();
    assert_eq!(first, "a");
    assert_eq!(a.len(), 2);
    assert_eq!(a[0].entry_unique("k"), Some(&EntryData::Scalar("1")));
    assert_eq!(a[1].entry_unique("k"), Some(&EntryData::Scalar("3")));
    let (second, b) = groups.next().unwrap();
    assert_eq!(second, "b");
    assert_eq!(b.len(), 1);
    assert!(groups.next().is_none());
    let mut fields = a[1].iter();
    assert_eq!(fields.next().unwrap().0, "k");
    assert_eq!(fields.next().unwrap().0, "z");
    assert_eq!(fields.next().unwrap().0, "y");
    assert!(fields.next().is_none());
}

#[test]
fn empty_and_blank_documents() {
    assert!(parse_document("").unwrap().iter().next().is_none());
    assert!(parse_document(" \n\t\r\n").unwrap().iter().next().is_none());
    assert!(parse_document("a ( b c )\n  ").is_ok());
}

#[test]
fn grammar_mismatch_is_a_parse_error() {
    assert!(matches!(parse_document("a ( b c )\n\"x\""), Err(Error::ParseError(_))));
    assert!(matches!(parse_fragment("game [ name x ]"), Err(Error::ParseError(_))));
    assert!(matches!(parse_fragment("game ( name x ]"), Err(Error::ParseError(_))));
    assert!(matches!(parse_fragment("\"game\" ( )"), Err(Error::ParseError(_))));
}

#[test]
fn truncated_text_is_incomplete() {
    assert_eq!(parse_fragment("").unwrap_err(), Error::UnknownError);
    assert_eq!(parse_fragment("game").unwrap_err(), Error::UnknownError);
    assert_eq!(parse_fragment("game (\n name x\n").unwrap_err(), Error::UnknownError);
    assert!(matches!(parse_document("a ( b c )\nd ("), Err(Error::UnknownError)));
}

#[test]
fn values_and_separators() {
    let (_, f) = parse_fragment("g (\r\n a \"\"\r\n b c\r\n q \" x y \" )").unwrap();
    assert_eq!(f.entry_unique("a"), Some(&EntryData::Scalar("")));
    assert_eq!(f.entry_unique("b"), Some(&EntryData::Scalar("c")));
    assert_eq!(f.entry_unique("q"), Some(&EntryData::Scalar(" x y ")));
    // A key is separated from its value by exactly one space.
    assert!(matches!(parse_fragment("g ( a  b )"), Err(Error::ParseError(_))));
    assert!(parse_fragment("g ( a\tb )").is_err());
}

#[test]
fn nested_block_in_sub_entry_is_rejected() {
    assert!(matches!(parse_fragment("g ( r ( a ( b c ) ) )"), Err(Error::ParseError(_))));
    assert!(matches!(parse_fragment("game ( rom ( sub ( a b ) ) ) )"), Err(Error::ParseError(_))));
    assert!(matches!(parse_document("g ( r ( a ( b c ) ) )"), Err(Error::ParseError(_))));
    assert!(matches!(
        parse_fragment("game (\n rom ( name x\n  sub ( a b )\n )\n)"),
        Err(Error::ParseError(_))
    ));
    // A token that merely starts with a parenthesis is a value.
    let (_, f) = parse_fragment("g ( r ( name (v).bin ) )").unwrap();
    match f.entry_unique("r") {
        Some(EntryData::SubEntry(r)) => assert_eq!(r.value_unique("name"), Some("(v).bin")),
        other => panic!("{:?}", other),
    }
}

#[test]
fn closing_parenthesis_on_one_line() {
    let doc = parse_document("a ( x 1 ) b ( x 2 ) a ( x 3 )").unwrap();
    let a = doc.entry("a").unwrap();
    assert_eq!(a.len(), 2);
    assert_eq!(a[0].entry_unique("x"), Some(&EntryData::Scalar("1")));
    assert_eq!(a[1].entry_unique("x"), Some(&EntryData::Scalar("3")));
    let b = doc.entry("b").unwrap();
    assert_eq!(b.len(), 1);
    assert_eq!(b[0].entry_unique("x"), Some(&EntryData::Scalar("2")));
    assert!(doc.entry("c").is_none());

    let doc = parse_document("b ( x 1 ) a ( x 2 ) b ( x 3 )").unwrap();
    let mut groups = vec![];
    let mut it = doc.iter();
    while let Some((k, fs)) = it.next() {
        groups.push((k, fs.len()));
    }
    assert_eq!(groups, vec![("b", 2), ("a", 1)]);

    let (key, f) = parse_fragment("a ( x 1 ) b ( x 2 )").unwrap();
    assert_eq!(key, "a");
    assert_eq!(f.entry_unique("x"), Some(&EntryData::Scalar("1")));
    assert!(f.entry("b").is_none());

    let (_, f) = parse_fragment("game ( rom ( name x ) )").unwrap();
    match f.entry_unique("rom") {
        Some(EntryData::SubEntry(r)) => assert_eq!(r.value_unique("name"), Some("x")),
        other => panic!("{:?}", other),
    }

    assert!(matches!(parse_document("a ( x 1 ) )"), Err(Error::ParseError(_))));
}

#[test]
fn unicode_tokens() {
    let (k, f) = parse_fragment("ゲーム ( 名前 \"洞窟物語\" rom ( name 日本.bin )\n)").unwrap();
    assert_eq!(k, "ゲーム");
    assert_eq!(f.entry_unique("名前"), Some(&EntryData::Scalar("洞窟物語")));
    match f.entry_unique("rom") {
        Some(EntryData::SubEntry(r)) => assert_eq!(r.value_unique("name"), Some("日本.bin")),
        _ => panic!(),
    }
}
