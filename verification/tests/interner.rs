use boa_interner::{Interner, JStrRef};
use js_string::JsString;

#[test]
fn ascii_strings_are_referred_to_as_text() {
    let s = JsString::from("hello");
    assert_eq!(s.as_jstr_ref(), JStrRef::Utf8("hello"));
    assert_eq!(JStrRef::from(s.as_str()), JStrRef::Utf8("hello"));
    assert_eq!(JsString::default().as_jstr_ref(), JStrRef::Utf8(""));
    assert_eq!(JsString::from("length").as_jstr_ref(), JStrRef::Utf8("length"));
}

#[test]
fn other_strings_are_referred_to_as_code_units() {
    let units = [0x68u16, 0xE9, 0xD800];
    let s = JsString::from(&units[..]);
    assert_eq!(s.as_jstr_ref(), JStrRef::Utf16(&units));
}

#[test]
fn equal_strings_intern_to_one_symbol() {
    let mut interner = Interner::default();
    let a = interner.get_or_intern(JsString::from("caf\u{e9}").as_jstr_ref());
    let wide: Vec<u16> = "caf\u{e9}".encode_utf16().collect();
    let b = interner.get_or_intern(JsString::from(&wide[..]).as_jstr_ref());
    let c = interner.get_or_intern("caf\u{e9}");
    let d = interner.get_or_intern(JsString::from("cafe").as_jstr_ref());
    assert_eq!(a, b);
    assert_eq!(a, c);
    assert_ne!(a, d);
}
