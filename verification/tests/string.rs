use js_string::{JsString, JsStringSlice};
use std::collections::hash_map::DefaultHasher;
use std::hash::{Hash, Hasher};

fn utf16(text: &str) -> Vec<u16> {
    text.encode_utf16().collect()
}

#[test]
fn empty() {
    let s = JsString::default();
    assert_eq!(&s, &utf16("")[..]);
}

#[test]
fn refcount() {
    let x = JsString::from("Hello world");
    assert_eq!(x.refcount(), Some(1));

    {
        let y = x.clone();
        assert_eq!(x.refcount(), Some(2));
        assert_eq!(y.refcount(), Some(2));

        {
            let z = y.clone();
            assert_eq!(x.refcount(), Some(3));
            assert_eq!(y.refcount(), Some(3));
            assert_eq!(z.refcount(), Some(3));
        }

        assert_eq!(x.refcount(), Some(2));
        assert_eq!(y.refcount(), Some(2));
    }

    assert_eq!(x.refcount(), Some(1));
}

#[test]
fn static_refcount() {
    let x = JsString::default();
    assert_eq!(x.refcount(), None);

    {
        let y = x.clone();
        assert_eq!(x.refcount(), None);
        assert_eq!(y.refcount(), None);
    };

    assert_eq!(x.refcount(), None);
}

#[test]
fn ptr_eq() {
    let x = JsString::from("Hello");
    let y = x.clone();

    assert!(!x.is_static());

    assert!(x.ptr_eq(&y));

    let z = JsString::from("Hello");
    assert!(!x.ptr_eq(&z));
    assert!(!y.ptr_eq(&z));
}

#[test]
fn static_ptr_eq() {
    let x = JsString::default();
    let y = x.clone();

    assert!(x.is_static());

    assert!(x.ptr_eq(&y));

    let z = JsString::default();
    assert!(x.ptr_eq(&z));
    assert!(y.ptr_eq(&z));
}

#[test]
fn as_str() {
    let hello = utf16("Hello");
    let x = JsString::from(&hello[..]);

    assert_eq!(&x, &hello[..]);
}

#[test]
fn hash() {
    const HELLOWORLD: &str = "Hello World!";
    let x = JsString::from(HELLOWORLD);

    assert_eq!(&x, HELLOWORLD);

    assert!(HELLOWORLD.is_ascii());
    assert!(x.as_str().is_ascii());

    let mut hasher = DefaultHasher::new();
    HELLOWORLD.as_bytes().hash(&mut hasher);
    let s_hash = hasher.finish();

    let mut hasher = DefaultHasher::new();
    x.hash(&mut hasher);
    let x_hash = hasher.finish();

    assert_eq!(s_hash, x_hash);
}

#[test]
fn concat() {
    let y = utf16(", ");
    let w = utf16("!");

    let x = JsString::from("hello");
    let z = JsString::from("world");

    let xy = JsString::concat(JsStringSlice::from(&x), JsStringSlice::from(&y[..]));
    assert_eq!(&xy, &utf16("hello, ")[..]);
    assert_eq!(xy.refcount(), Some(1));

    let xyz = JsString::concat(JsStringSlice::from(&xy), JsStringSlice::from(&z));
    assert_eq!(&xyz, &utf16("hello, world")[..]);
    assert_eq!(xyz.refcount(), Some(1));

    let xyzw = JsString::concat(JsStringSlice::from(&xyz), JsStringSlice::from(&w[..]));
    assert_eq!(&xyzw, &utf16("hello, world!")[..]);
    assert_eq!(xyzw.refcount(), Some(1));
}

#[test]
fn trim_start_non_ascii_to_ascii() {
    let s = "\u{2029}abc";
    let x = JsString::from(s);

    let y = JsString::from(x.trim_start());

    assert_eq!(&y, s.trim_start());
}
