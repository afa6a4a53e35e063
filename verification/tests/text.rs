use bootnode::text::{is_blank, is_text_before};

#[test]
fn order_of_text_is_that_of_strings() {
    let texts = ["", "a", "b", "ab", "aa", "event-a", "event-b", "é", "z", "\u{ffff}", "\u{10000}", "0", "00"];
    for a in texts {
        for b in texts {
            assert_eq!(is_text_before(a, b), a < b, "{a:?} {b:?}");
        }
    }
}

#[test]
fn blank_is_what_trimming_empties() {
    for text in ["", " ", "\t\n", "\u{a0}\u{3000}", " a ", "a", "\u{200b}", "\u{feff}"] {
        assert_eq!(is_blank(text), text.trim().is_empty(), "{text:?}");
    }
    for n in 0..=0x10_ffffu32 {
        if let Some(c) = char::from_u32(n) {
            let text = c.to_string();
            assert_eq!(is_blank(&text), c.is_whitespace(), "{n:#x}");
        }
    }
}
