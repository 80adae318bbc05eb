use serde_dbgfmt::Deserializer;

#[test]
fn every_u8_in_every_radix() {
    for value in u8::MIN..=u8::MAX {
        for text in [
            format!("{value:?}"),
            format!("{value:#x?}"),
            format!("{value:#X?}"),
            format!("{value:#o}"),
            format!("{value:#b}"),
            format!("{value:#010b}"),
            format!("+{value}"),
        ] {
            let mut de = Deserializer::new(&text);
            assert_eq!(de.deserialize_u8().unwrap(), value, "{text}");
            de.end().unwrap();
            assert_eq!(
                Deserializer::new(&text).deserialize_u64().unwrap(),
                value as u64,
                "{text}"
            );
        }
    }
}

#[test]
fn every_i8_in_every_radix() {
    for value in i8::MIN..=i8::MAX {
        for text in [
            format!("{value:?}"),
            format!("{value:#x?}"),
            format!("{value:#X?}"),
            format!("{value:#o}"),
            format!("{value:#b}"),
            format!("{value:#010b}"),
        ] {
            let mut de = Deserializer::new(&text);
            assert_eq!(de.deserialize_i8().unwrap(), value, "{text}");
            de.end().unwrap();
        }
        // In a wider type the same bits are a positive number.
        let text = format!("{value:#x?}");
        assert_eq!(
            Deserializer::new(&text).deserialize_i16().unwrap(),
            value as u8 as i16,
            "{text}"
        );
    }
}

#[test]
fn wider_integers_as_debug_writes_them() {
    let samples: [i128; 17] = [
        0,
        1,
        -1,
        127,
        -128,
        255,
        32767,
        -32768,
        65535,
        i32::MAX as i128,
        i32::MIN as i128,
        u32::MAX as i128,
        i64::MAX as i128,
        i64::MIN as i128,
        u64::MAX as i128,
        i128::MAX,
        i128::MIN,
    ];
    for sample in samples {
        if let Ok(value) = i16::try_from(sample) {
            for text in [format!("{value:?}"), format!("{value:#x?}"), format!("{value:#b}")] {
                assert_eq!(Deserializer::new(&text).deserialize_i16().unwrap(), value, "{text}");
            }
        }
        if let Ok(value) = u16::try_from(sample) {
            for text in [format!("{value:?}"), format!("{value:#x?}"), format!("{value:#o}")] {
                assert_eq!(Deserializer::new(&text).deserialize_u16().unwrap(), value, "{text}");
            }
        }
        if let Ok(value) = i32::try_from(sample) {
            for text in [format!("{value:?}"), format!("{value:#x?}"), format!("{value:#o}")] {
                assert_eq!(Deserializer::new(&text).deserialize_i32().unwrap(), value, "{text}");
            }
        }
        if let Ok(value) = u32::try_from(sample) {
            for text in [format!("{value:?}"), format!("{value:#x?}"), format!("{value:#b}")] {
                assert_eq!(Deserializer::new(&text).deserialize_u32().unwrap(), value, "{text}");
            }
        }
        if let Ok(value) = i64::try_from(sample) {
            for text in [format!("{value:?}"), format!("{value:#x?}"), format!("{value:#b}")] {
                assert_eq!(Deserializer::new(&text).deserialize_i64().unwrap(), value, "{text}");
            }
        }
        if let Ok(value) = u64::try_from(sample) {
            for text in [format!("{value:?}"), format!("{value:#x?}"), format!("{value:#o}")] {
                assert_eq!(Deserializer::new(&text).deserialize_u64().unwrap(), value, "{text}");
            }
        }
        for text in [format!("{sample:?}"), format!("{sample:#x?}"), format!("{sample:#b}")] {
            assert_eq!(Deserializer::new(&text).deserialize_i128().unwrap(), sample, "{text}");
        }
        if let Ok(value) = u128::try_from(sample) {
            for text in [format!("{value:?}"), format!("{value:#x?}"), format!("{value:#o}")] {
                assert_eq!(Deserializer::new(&text).deserialize_u128().unwrap(), value, "{text}");
            }
        }
    }
}

#[test]
fn strings_as_debug_writes_them() {
    let samples = [
        "",
        "plain",
        "two words",
        "tab\there",
        "line\nbreak\r\n",
        "quote \" inside",
        "apostrophe ' inside",
        "back\\slash inside",
        "\\ at the start",
        "nul \0 byte",
        "bell \u{7} and escape \u{1b}",
        "combining e\u{301}",
        "\u{301} first",
        "emoji 🦀 🔥",
        "Ünïcödé 你好 مرحبا",
        "zero width \u{200b} space",
        "private use \u{e000} and \u{10ffff}",
        "braces {} [] () and : , ..",
        "\\\"",
        "\\n is no line break",
    ];
    for sample in samples {
        let text = format!("{sample:?}");
        let mut de = Deserializer::new(&text);
        assert_eq!(de.deserialize_str().unwrap(), sample, "{text}");
        de.end().unwrap();
    }
}

#[test]
fn strings_that_end_in_a_backslash_stay_open() {
    for sample in ["\\", "ends with \\", "two \\\\"] {
        let text = format!("{sample:?}");
        assert!(Deserializer::new(&text).deserialize_str().is_err(), "{text}");
        // Behind another literal the first one is closed by a quote of the
        // second, and is read as something that was never written.
        let both = format!("{sample:?} {:?}", "next");
        let read = Deserializer::new(&both).deserialize_str();
        assert!(read.is_err() || read.unwrap() != sample, "{both}");
    }
}

#[test]
fn characters_as_debug_writes_them() {
    let samples = [
        'a', 'Z', '0', ' ', '\t', '\n', '\r', '\0', '\'', '"', '{', '\u{7}', '\u{301}', 'é', '🦀',
        '\u{200b}', '\u{e000}', '\u{10ffff}', '\u{d7ff}',
    ];
    for sample in samples {
        let text = format!("{sample:?}");
        let mut de = Deserializer::new(&text);
        assert_eq!(de.deserialize_char().unwrap(), sample, "{text}");
        de.end().unwrap();
    }
    for code in 0..0x3000u32 {
        if let Some(sample) = char::from_u32(code) {
            if sample == '\\' {
                continue;
            }
            let text = format!("{sample:?}");
            assert_eq!(
                Deserializer::new(&text).deserialize_char().unwrap(),
                sample,
                "{text}"
            );
        }
    }
    assert!(Deserializer::new(&format!("{:?}", '\\')).deserialize_char().is_err());
}

#[test]
fn booleans_units_and_options_as_debug_writes_them() {
    assert!(Deserializer::new(&format!("{:?}", true)).deserialize_bool().unwrap());
    assert!(!Deserializer::new(&format!("{:?}", false)).deserialize_bool().unwrap());
    Deserializer::new(&format!("{:?}", ())).deserialize_unit().unwrap();
    let mut de = Deserializer::new(&format!("{:?}", Some(5u8)));
    assert!(de.deserialize_option().unwrap());
    assert_eq!(de.deserialize_u8().unwrap(), 5);
    de.end_option().unwrap();
    de.end().unwrap();
    let mut de = Deserializer::new(&format!("{:?}", None::<u8>));
    assert!(!de.deserialize_option().unwrap());
    de.end().unwrap();
}

#[test]
fn pretty_output_reads_like_compact_output() {
    #[derive(Debug)]
    #[allow(dead_code)]
    struct Inner {
        list: Vec<i32>,
        pair: (u8, char),
    }
    #[derive(Debug)]
    #[allow(dead_code)]
    struct Outer {
        name: String,
        inner: Inner,
        maybe: Option<Inner>,
    }
    let value = Outer {
        name: "x y".into(),
        inner: Inner {
            list: vec![-1, 2],
            pair: (3, 'c'),
        },
        maybe: Some(Inner {
            list: vec![],
            pair: (0, ' '),
        }),
    };
    let lex = |text: &str| -> Vec<(serde_dbgfmt::lex::TokenKind, String)> {
        serde_dbgfmt::lex::lex_all(text)
            .unwrap()
            .into_iter()
            .map(|token| (token.kind, token.value))
            // The pretty form ends every item with a comma.
            .filter(|(_, text)| text != ",")
            .collect()
    };
    assert_eq!(lex(&format!("{value:?}")), lex(&format!("{value:#?}")));
    assert!(lex(&format!("{value:?}")).len() > 40);
}
