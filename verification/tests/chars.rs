use postbus::parser::chars::{alphanumeric, atext, letters_match, qtext, quotable};

#[test]
fn character_classes() {
    let symbols = "!#$%&'*+-/=?^_`{|}~";
    for code in 0u32..=0x2ff {
        let c = char::from_u32(code).unwrap();
        let ascii = code < 128;
        assert_eq!(ascii && c.is_ascii_alphanumeric(), alphanumeric(c), "{:?}", c);
        assert_eq!(
            ascii && (c.is_ascii_alphanumeric() || symbols.contains(c)),
            atext(c),
            "{:?}",
            c
        );
        assert_eq!(
            (32..=126).contains(&code) && c != '"' && c != '\\',
            qtext(c),
            "{:?}",
            c
        );
        assert_eq!((32..=126).contains(&code), quotable(c), "{:?}", c);
    }
}

#[test]
fn characters_beyond_ascii_are_in_no_class() {
    // Characters whose low byte is that of an ASCII letter.
    for c in ['\u{141}', '\u{161}', '\u{1041}', '\u{10441}', 'é', '日'] {
        assert!(!alphanumeric(c));
        assert!(!atext(c));
        assert!(!qtext(c));
        assert!(!quotable(c));
    }
}

#[test]
fn letters_match_up_to_case() {
    for a in ' '..='~' {
        for b in ' '..='~' {
            assert_eq!(
                a.to_ascii_uppercase() == b.to_ascii_uppercase(),
                letters_match(a, b),
                "{:?} {:?}",
                a,
                b
            );
        }
    }
    assert!(!letters_match('k', '\u{212a}'));
    assert!(!letters_match('K', '\u{212a}'));
    assert!(letters_match('\u{212a}', '\u{212a}'));
    assert!(!letters_match('s', '\u{17f}'));
}
