use js_string::{CodePoint, FromUtf16Error, JsString, JsStringSlice};

fn units(text: &str) -> Vec<u16> {
    text.encode_utf16().collect()
}

fn needle(text: &str) -> JsString {
    JsString::from(text)
}

#[test]
fn index_of_empty_needle() {
    let s = JsString::from("abc");
    let empty = JsString::default();
    assert_eq!(s.index_of(&empty.as_str(), 0), Some(0));
    assert_eq!(s.index_of(&empty.as_str(), 2), Some(2));
    assert_eq!(s.index_of(&empty.as_str(), 3), Some(3));
    assert_eq!(s.index_of(&empty.as_str(), 4), None);
    assert_eq!(empty.index_of(&empty.as_str(), 0), Some(0));
    assert_eq!(empty.index_of(&empty.as_str(), 1), None);
}

#[test]
fn index_of_finds_the_leftmost_occurrence() {
    let s = JsString::from("abcabc");
    assert_eq!(s.index_of(&needle("bc").as_str(), 2), Some(4));
    assert_eq!(s.index_of(&needle("bc").as_str(), 0), Some(1));
    assert_eq!(s.index_of(&needle("bc").as_str(), 1), Some(1));
    assert_eq!(s.index_of(&needle("bc").as_str(), 5), None);
    assert_eq!(s.index_of(&needle("bc").as_str(), 100), None);
    assert_eq!(s.index_of(&needle("abcabc").as_str(), 0), Some(0));
    assert_eq!(s.index_of(&needle("abcabcd").as_str(), 0), None);
    assert_eq!(s.index_of(&needle("cab").as_str(), 0), Some(2));
    assert_eq!(s.index_of(&needle("x").as_str(), 0), None);
}

#[test]
fn index_of_across_storages() {
    let s = JsString::from("a\u{e9}b\u{e9}b");
    assert_eq!(s.index_of(&needle("b").as_str(), 0), Some(2));
    assert_eq!(s.index_of(&needle("\u{e9}b").as_str(), 2), Some(3));
    let ascii = JsString::from("abc");
    assert_eq!(ascii.index_of(&needle("\u{e9}").as_str(), 0), None);
}

#[test]
fn code_point_at_surrogates() {
    let s = JsString::from(&[0x61u16, 0xD83D, 0xDE00, 0xDC00, 0xD800, 0x62, 0xD800][..]);
    assert_eq!(s.code_point_at(0), CodePoint::Unicode('a'));
    assert_eq!(s.code_point_at(0).code_unit_count(), 1);
    assert_eq!(s.code_point_at(1), CodePoint::Unicode('\u{1F600}'));
    assert_eq!(s.code_point_at(1).code_unit_count(), 2);
    assert_eq!(s.code_point_at(2), CodePoint::UnpairedSurrogate(0xDE00));
    assert_eq!(s.code_point_at(2).code_unit_count(), 1);
    assert_eq!(s.code_point_at(3), CodePoint::UnpairedSurrogate(0xDC00));
    assert_eq!(s.code_point_at(4), CodePoint::UnpairedSurrogate(0xD800));
    assert_eq!(s.code_point_at(6), CodePoint::UnpairedSurrogate(0xD800));
    assert_eq!(JsString::from("abc").code_point_at(2), CodePoint::Unicode('c'));
}

#[test]
fn code_points_in_order() {
    let s = JsString::from(&[0xD83Du16, 0xDE00, 0xDC00, 0x20AC][..]);
    assert_eq!(
        s.code_points(),
        vec![
            CodePoint::Unicode('\u{1F600}'),
            CodePoint::UnpairedSurrogate(0xDC00),
            CodePoint::Unicode('\u{20AC}'),
        ]
    );
    assert_eq!(JsString::default().code_points(), vec![]);
}

#[test]
fn code_point_accessors() {
    let scalar = CodePoint::Unicode('\u{10348}');
    assert_eq!(scalar.as_u32(), 0x10348);
    assert_eq!(scalar.as_char(), Some('\u{10348}'));
    assert_eq!(scalar.code_unit_count(), 2);
    let mut buffer = [0u16, 7, 9];
    assert_eq!(scalar.encode_utf16(&mut buffer), &[0xD800, 0xDF48]);
    assert_eq!(buffer, [0xD800, 0xDF48, 9]);
    let lone = CodePoint::UnpairedSurrogate(0xDFFF);
    assert_eq!(lone.as_u32(), 0xDFFF);
    assert_eq!(lone.as_char(), None);
    assert_eq!(lone.code_unit_count(), 1);
    let mut buffer = [0u16, 7];
    assert_eq!(lone.encode_utf16(&mut buffer), &[0xDFFF]);
    assert_eq!(buffer, [0xDFFF, 7]);
    let mut buffer = [0u16; 2];
    assert_eq!(CodePoint::Unicode('\u{FFFF}').encode_utf16(&mut buffer), &[0xFFFF]);
}

#[test]
fn strict_decoding_fails_on_unpaired_surrogates() {
    let s = JsString::from(&[0x61u16, 0xD800, 0x62][..]);
    assert_eq!(s.to_std_string(), Err(FromUtf16Error));
    assert_eq!(FromUtf16Error.message(), "invalid utf-16: lone surrogate found");
    let t = JsString::from(&[0xDC00u16][..]);
    assert!(t.to_std_string().is_err());
    let ok = JsString::from(&[0xD800u16, 0xDC00][..]);
    assert_eq!(ok.to_std_string().unwrap(), "\u{10000}");
}

#[test]
fn escaped_decoding_never_fails() {
    let s = JsString::from(&[0x61u16, 0xD800, 0x62, 0xDFAB, 0x00E9][..]);
    assert_eq!(s.to_std_string_escaped(), "a\\uD800b\\uDFAB\u{e9}");
    assert_eq!(JsString::from("plain").to_std_string_escaped(), "plain");
    let low = JsString::from(&[0xDC0Fu16][..]);
    assert_eq!(low.to_std_string_escaped(), "\\uDC0F");
}

#[test]
fn segments_between_surrogates() {
    let s = JsString::from(&[0x61u16, 0x62, 0xD800, 0xDBFF, 0x63, 0xD83D, 0xDE00][..]);
    assert_eq!(
        s.to_std_string_with_surrogates(),
        vec![
            Ok(String::from("ab")),
            Err(0xD800),
            Err(0xDBFF),
            Ok(String::from("c\u{1F600}")),
        ]
    );
    assert_eq!(JsString::default().to_std_string_with_surrogates(), vec![]);
    assert_eq!(
        JsString::from("abc").to_std_string_with_surrogates(),
        vec![Ok(String::from("abc"))]
    );
}

#[test]
fn map_valid_segments_keeps_surrogates() {
    let s = JsString::from(&[0x61u16, 0x62, 0xD800, 0x63][..]);
    let mapped = s.map_valid_segments(|text| text.to_uppercase());
    assert_eq!(mapped.to_vec(), vec![0x41, 0x42, 0xD800, 0x43]);
    let same = JsString::from("length").map_valid_segments(|text| text);
    assert!(same.is_static());
    let grown = JsString::from("a").map_valid_segments(|text| text + "\u{1F600}");
    assert_eq!(grown.to_vec(), units("a\u{1F600}"));
}

#[test]
fn trim_start_removes_the_byte_order_mark() {
    let s = JsString::from("\u{FEFF}abc ");
    let trimmed = s.trim_start();
    assert!(trimmed.is_ascii());
    assert_eq!(JsString::from(trimmed).to_vec(), units("abc "));
    assert_eq!(trimmed.len(), 4);
}

#[test]
fn trim_uses_the_ecmascript_white_space() {
    let all = format!(
        "{}{}",
        "\u{9}\u{A}\u{B}\u{C}\u{D} \u{A0}\u{1680}\u{2000}\u{200A}",
        "\u{2028}\u{2029}\u{202F}\u{205F}\u{3000}\u{FEFF}"
    );
    let text = format!("{all}x\u{85}y{all}");
    let s = JsString::from(text.as_str());
    assert_eq!(JsString::from(s.trim()).to_vec(), units("x\u{85}y"));
    assert_eq!(JsString::from(s.trim_start()).to_vec(), units(&format!("x\u{85}y{all}")));
    assert_eq!(JsString::from(s.trim_end()).to_vec(), units(&format!("{all}x\u{85}y")));
    let next_line = JsString::from("\u{85}a\u{85}");
    assert_eq!(JsString::from(next_line.trim()).to_vec(), units("\u{85}a\u{85}"));
    let zero_width = JsString::from("\u{200B}a");
    assert_eq!(zero_width.trim().len(), 2);
}

#[test]
fn trim_of_every_slice_shape() {
    let wide = units(" \u{e9} ");
    let narrow = units(" a ");
    let shapes = [
        (JsStringSlice::from(" a "), "a"),
        (JsStringSlice::from(" \u{e9} "), "\u{e9}"),
        (JsStringSlice::from(&narrow[..]), "a"),
        (JsStringSlice::from(&wide[..]), "\u{e9}"),
        (JsStringSlice::from("\u{FEFF}\u{1F600}\u{2029}"), "\u{1F600}"),
    ];
    for (slice, expected) in shapes {
        assert_eq!(JsString::from(slice.trim()).to_vec(), units(expected));
        assert_eq!(slice.trim().is_ascii(), expected.is_ascii());
    }
}

#[test]
fn trim_of_white_space_only_is_empty_and_ascii() {
    let wide = units("\u{2028}\u{FEFF}");
    for slice in [
        JsStringSlice::from("  \t"),
        JsStringSlice::from("\u{FEFF}\u{3000}"),
        JsStringSlice::from(&wide[..]),
        JsStringSlice::from(""),
    ] {
        for trimmed in [slice.trim(), slice.trim_start(), slice.trim_end()] {
            assert_eq!(trimmed.len(), 0);
            assert!(trimmed.is_ascii());
        }
    }
    let s = JsString::from(" \u{A0} ");
    assert!(JsString::from(s.trim()).is_static());
    assert!(s.as_str().trim().is_ascii());
    assert_eq!(s.as_str().trim_start().len(), 0);
    assert_eq!(s.as_str().trim_end().len(), 0);
}

#[test]
fn contains_and_to_vec() {
    let s = JsString::from("abc");
    assert!(s.contains(b'b'));
    assert!(!s.contains(b'z'));
    let wide = JsString::from("a\u{e9}");
    assert!(wide.contains(b'a'));
    assert!(wide.contains(0xe9));
    assert!(!wide.contains(b'b'));
    assert_eq!(wide.to_vec(), vec![0x61, 0xe9]);
    assert!(!JsString::default().contains(0));
}

#[test]
fn iterates_code_units() {
    let s = JsString::from("a\u{1F600}");
    let mut iter = s.iter();
    assert_eq!(iter.len(), 3);
    assert_eq!(iter.next(), Some(0x61));
    let mut rest = iter.clone();
    assert_eq!(iter.next(), Some(0xD83D));
    assert_eq!(iter.len(), 1);
    assert_eq!(iter.next(), Some(0xDE00));
    assert_eq!(iter.next(), None);
    assert_eq!(iter.next(), None);
    assert_eq!(iter.len(), 0);
    assert_eq!(rest.next(), Some(0xD83D));
    let mut again = s.iter();
    assert_eq!(again.next(), Some(0x61));
    let mut narrow = JsStringSlice::from("h\u{e9}").iter();
    assert_eq!(narrow.next(), Some(0x68));
    assert_eq!(narrow.next(), Some(0xe9));
    assert_eq!(narrow.next(), None);
    let owner = JsString::from("ab");
    let mut ascii = owner.as_str().iter();
    assert_eq!(ascii.len(), 2);
    assert_eq!(ascii.next(), Some(0x61));
    assert_eq!(ascii.next(), Some(0x62));
    assert_eq!(ascii.next(), None);
}

#[test]
fn indexing() {
    let s = JsString::from("a\u{e9}bc");
    assert_eq!(s.get(0usize), Some(0x61));
    assert_eq!(s.get(1usize), Some(0xe9));
    assert_eq!(s.get(4usize), None);
    assert_eq!(s.get_expect(3usize), 0x63);
    let part = s.get(2..4).unwrap();
    assert!(part.is_ascii());
    assert_eq!(JsString::from(part).to_vec(), units("bc"));
    let wide = s.get(0..2).unwrap();
    assert!(!wide.is_ascii());
    assert_eq!(wide.len(), 2);
    assert!(s.get(3..2).is_none());
    assert!(s.get(2..5).is_none());
    assert_eq!(s.get(4..4).unwrap().len(), 0);
    assert_eq!(s.get(..).unwrap().len(), 4);
    assert_eq!(s.get_expect(..).len(), 4);
    let ascii = JsString::from("hello");
    let view = ascii.as_str();
    assert_eq!(view.get(1usize), Some(0x65));
    assert_eq!(view.get(5usize), None);
    assert_eq!(JsString::from(view.get(1..3).unwrap()).to_vec(), units("el"));
    assert!(view.get(..).unwrap().is_ascii());
}
