use js_string::common::StaticJsStrings;
use js_string::{JsStr, JsString, JsStringSlice};

fn units(text: &str) -> Vec<u16> {
    text.encode_utf16().collect()
}

#[test]
fn text_round_trips() {
    for text in ["", "abc", "caf\u{e9}", "\u{1F600} smile", "\u{FEFF}x", "length"] {
        let s = JsString::from(text);
        assert_eq!(s.to_std_string().unwrap(), text);
        assert_eq!(s.to_vec(), units(text));
        assert_eq!(s.len(), units(text).len());
    }
}

#[test]
fn code_units_round_trip() {
    let source = units("\u{10348}a\u{20AC}");
    let s = JsString::from(&source[..]);
    let text = s.to_std_string().unwrap();
    assert_eq!(text, "\u{10348}a\u{20AC}");
    assert_eq!(units(&text), source);
}

#[test]
fn empty_text_is_the_well_known_empty_string() {
    let a = JsString::from("");
    let b = JsString::from(&[][..] as &[u16]);
    let c = JsString::concat(JsStringSlice::from(""), JsStringSlice::from(""));
    for s in [&a, &b, &c] {
        assert!(s.is_empty());
        assert!(s.is_static());
        assert!(s.as_str().is_ascii());
        assert_eq!(s.refcount(), None);
        assert!(s.ptr_eq(&JsString::default()));
    }
}

#[test]
fn well_known_text_is_never_allocated() {
    let direct = JsString::from("length");
    let from_units = JsString::from(&units("length")[..]);
    let joined = JsString::concat(JsStringSlice::from("len"), JsStringSlice::from("gth"));
    assert!(direct.is_static());
    assert!(from_units.is_static());
    assert!(joined.is_static());
    assert!(direct.ptr_eq(&joined));
    assert_eq!(joined.refcount(), None);
    assert_eq!(StaticJsStrings::get(4), Some("length"));
    assert_eq!(StaticJsStrings::lookup(b"length"), Some(4));
    assert_eq!(StaticJsStrings::lookup(b"lengths"), None);
    assert_eq!(StaticJsStrings::get(32), None);
    assert!(StaticJsStrings::get_string("no such entry").is_none());
}

#[test]
fn other_text_is_allocated() {
    let s = JsString::from("lengths");
    assert!(!s.is_static());
    assert_eq!(s.refcount(), Some(1));
}

#[test]
fn concat_joins_code_units() {
    let s = JsString::concat(JsStringSlice::from("abc"), JsStringSlice::from("def"));
    assert_eq!(s.to_vec(), units("abcdef"));
    assert!(s.as_str().is_ascii());
}

#[test]
fn concat_is_ascii_only_if_both_parts_are() {
    let wide = units("\u{e9}");
    let cases = [
        JsString::concat(JsStringSlice::from("abc"), JsStringSlice::from("\u{e9}")),
        JsString::concat(JsStringSlice::from("\u{e9}"), JsStringSlice::from("abc")),
        JsString::concat(JsStringSlice::from(&wide[..]), JsStringSlice::from(&wide[..])),
    ];
    assert_eq!(cases[0].to_vec(), units("abc\u{e9}"));
    assert_eq!(cases[1].to_vec(), units("\u{e9}abc"));
    assert_eq!(cases[2].to_vec(), units("\u{e9}\u{e9}"));
    for s in &cases {
        assert!(!s.as_str().is_ascii());
    }
    let narrow = units("xyz");
    let s = JsString::concat(JsStringSlice::from(&narrow[..]), JsStringSlice::from("abc"));
    assert!(s.as_str().is_ascii());
    assert_eq!(s.to_vec(), units("xyzabc"));
}

#[test]
fn concat_array_of_mixed_sources() {
    let a = JsString::from("Hello, ");
    let name = units("h\u{fc}man! ");
    let parts = [
        JsStringSlice::from(&a),
        JsStringSlice::from(&name[..]),
        JsStringSlice::from("Nice to meet you!"),
        JsStringSlice::from("\u{1F600}"),
    ];
    let s = JsString::concat_array(&parts);
    assert_eq!(s.to_vec(), units("Hello, h\u{fc}man! Nice to meet you!\u{1F600}"));
    assert_eq!(s.len(), 33);
    let none = JsString::concat_array(&[]);
    assert!(none.is_empty());
    assert!(none.is_static());
}

#[test]
fn concatenation_of_strings() {
    let parts = [JsString::from("len"), JsString::from("g\u{e9}"), JsString::default()];
    let s = JsString::from_strings(&parts);
    assert_eq!(s.to_vec(), units("leng\u{e9}"));
    let known = JsString::from_strings(&[JsString::from("leng"), JsString::from("th")]);
    assert!(known.is_static());
    assert!(JsString::from_strings(&[]).is_empty());
}

#[test]
fn checked_concatenation() {
    let parts = [JsStringSlice::from("ab"), JsStringSlice::from("\u{e9}")];
    assert!(JsString::fits_block(&parts));
    let s = JsString::try_concat_array(&parts).unwrap();
    assert_eq!(s.to_vec(), units("ab\u{e9}"));
    assert!(JsString::fits_block(&[]));
    assert!(JsString::try_concat_array(&[]).unwrap().is_static());
}

#[test]
fn table_entries() {
    assert_eq!(StaticJsStrings::text(0), "");
    assert_eq!(StaticJsStrings::text(31), "NaN");
    assert_eq!(StaticJsStrings::get(0), Some(""));
    assert_eq!(StaticJsStrings::get(31), Some("NaN"));
    for index in 0..32 {
        let text = StaticJsStrings::text(index);
        assert!(text.is_ascii());
        assert_eq!(StaticJsStrings::lookup(text.as_bytes()), Some(index));
        let string = StaticJsStrings::get_string(text).unwrap();
        assert!(string.is_static());
        assert_eq!(string.to_vec(), units(text));
    }
    assert!(StaticJsStrings::empty_string().is_empty());
}

#[test]
fn slices_are_classified() {
    assert!(JsStringSlice::from("abc").is_ascii());
    assert!(!JsStringSlice::from("ab\u{e9}").is_ascii());
    assert!(JsStringSlice::from(&units("abc")[..]).is_ascii());
    assert!(!JsStringSlice::from(&units("ab\u{e9}")[..]).is_ascii());
    assert_eq!(JsStringSlice::from("\u{1F600}a").len(), 3);
    assert_eq!(JsStringSlice::from("ab\u{e9}").len(), 3);
    assert_eq!(JsStringSlice::from("").len(), 0);
}

#[test]
fn views_are_classified() {
    let ascii = JsStr::ascii_unchecked(b"abc");
    assert!(ascii.is_ascii());
    assert_eq!(ascii.as_ascii(), Some(&b"abc"[..]));
    assert_eq!(ascii.len(), 3);
    assert!(!ascii.is_empty());
    let wide = units("\u{e9}");
    let other = JsStr::u16_unchecked(&wide);
    assert!(!other.is_ascii());
    assert_eq!(other.as_ascii(), None);
    assert!(ascii != other);
    assert!(ascii == JsString::from("abc").as_str());
    assert_eq!(JsString::from(other).to_vec(), wide);
    assert_eq!(JsString::from(ascii).to_vec(), units("abc"));
}

#[test]
fn clones_share_one_block() {
    let x = JsString::from("shared block");
    let before = x.refcount();
    let clones: Vec<JsString> = (0..5).map(|_| x.clone()).collect();
    assert_eq!(x.refcount(), Some(6));
    for c in &clones {
        assert!(c.ptr_eq(&x));
        assert_eq!(c, &x);
    }
    drop(clones);
    assert_eq!(x.refcount(), before);
    let fresh = JsString::from("shared block");
    assert!(!fresh.ptr_eq(&x));
    assert_eq!(fresh.refcount(), Some(1));
}

#[test]
fn parses_from_str() {
    let s: JsString = "parsed".parse().unwrap();
    assert_eq!(s.to_vec(), units("parsed"));
    assert_eq!(JsString::from(String::from("owned")).to_vec(), units("owned"));
    assert_eq!(JsString::from(&[0x61u16, 0x62]).to_vec(), units("ab"));
}
