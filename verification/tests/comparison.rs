use js_string::{JsString, JsStringSlice};
use std::cmp::Ordering;
use std::collections::hash_map::DefaultHasher;
use std::collections::HashSet;
use std::hash::{Hash, Hasher};

fn units(text: &str) -> Vec<u16> {
    text.encode_utf16().collect()
}

fn hash_of(s: &JsString) -> u64 {
    let mut hasher = DefaultHasher::new();
    s.hash(&mut hasher);
    hasher.finish()
}

#[test]
fn strings_of_equal_content_agree() {
    for text in ["hello world", "h\u{e9}llo w\u{f6}rld", "length"] {
        let direct = JsString::from(text);
        let (head, tail) = text.split_at(text.char_indices().nth(3).unwrap().0);
        let joined = JsString::concat(JsStringSlice::from(head), JsStringSlice::from(tail));
        let from_units = JsString::from(&units(text)[..]);
        let third = JsString::from("hello xorld");
        for other in [&joined, &from_units] {
            assert_eq!(&direct, other);
            assert_eq!(hash_of(&direct), hash_of(other));
            assert_eq!(direct.cmp(other), Ordering::Equal);
            assert_eq!(direct.cmp(&third), other.cmp(&third));
            assert_eq!(third.cmp(&direct), third.cmp(other));
            assert_eq!(direct.partial_cmp(&third), other.partial_cmp(&third));
        }
    }
}

#[test]
fn order_is_by_code_units() {
    let cases = [
        ("", "", Ordering::Equal),
        ("", "a", Ordering::Less),
        ("a", "", Ordering::Greater),
        ("abc", "abd", Ordering::Less),
        ("abd", "abc", Ordering::Greater),
        ("ab", "abc", Ordering::Less),
        ("abc", "ab", Ordering::Greater),
        ("Z", "a", Ordering::Less),
        ("a", "\u{e9}", Ordering::Less),
        ("\u{FFFF}", "\u{10000}", Ordering::Greater),
        ("\u{e9}", "\u{e9}", Ordering::Equal),
    ];
    for (a, b, expected) in cases {
        let (x, y) = (JsString::from(a), JsString::from(b));
        assert_eq!(x.cmp(&y), expected);
        assert_eq!(x.partial_cmp(&y), Some(expected));
        assert_eq!(y.cmp(&x), expected.reverse());
        assert_eq!(x < y, expected == Ordering::Less);
        assert_eq!(x == y, expected == Ordering::Equal);
    }
}

#[test]
fn equality_with_text_and_code_units() {
    let s = JsString::from("h\u{e9}llo");
    assert!(&s == "h\u{e9}llo");
    assert!("h\u{e9}llo" == &s);
    assert!(&s != "hello");
    assert!(&s != "h\u{e9}ll");
    assert!(s == units("h\u{e9}llo")[..]);
    assert!(units("h\u{e9}llo")[..] == s);
    assert!(s != units("hello")[..]);
    let ascii = JsString::from("hello");
    assert!(&ascii == "hello");
    assert!(&ascii != "h\u{e9}llo");
    assert!(&ascii != "hell");
    assert!(ascii == units("hello")[..]);
    assert!(ascii == ascii.as_str());
    assert!(ascii.as_str() == ascii);
    assert!(s != ascii.as_str());
    assert!(ascii == [0x68u16, 0x65, 0x6C, 0x6C, 0x6F]);
    assert!([0x68u16, 0x65, 0x6C, 0x6C, 0x6F] == ascii);
    assert!(s != [0x68u16, 0x65, 0x6C, 0x6C, 0x6F]);
    assert!(s == [0x68u16, 0xE9, 0x6C, 0x6C, 0x6F]);
    let lone = JsString::from(&[0xD800u16][..]);
    assert!(&lone != "\u{FFFD}");
    assert!(JsString::default() == *"");
}

#[test]
fn usable_as_a_key() {
    let mut set = HashSet::new();
    set.insert(JsString::from("key"));
    set.insert(JsString::concat(JsStringSlice::from("k"), JsStringSlice::from("ey")));
    set.insert(JsString::from("k\u{e9}y"));
    set.insert(JsString::from(&units("k\u{e9}y")[..]));
    assert_eq!(set.len(), 2);
    assert!(set.contains(&JsString::from("key")));
    let mut sorted = vec![JsString::from("b"), JsString::from("a"), JsString::from("\u{e9}")];
    sorted.sort_by(|a, b| a.cmp(b));
    assert_eq!(sorted, vec![JsString::from("a"), JsString::from("b"), JsString::from("\u{e9}")]);
}

#[test]
fn hash_of_wide_strings_is_of_code_units() {
    let s = JsString::from("h\u{e9}");
    let mut hasher = DefaultHasher::new();
    units("h\u{e9}")[..].hash(&mut hasher);
    assert_eq!(hash_of(&s), hasher.finish());
    assert_ne!(hash_of(&s), hash_of(&JsString::from("he")));
}
