use dhammapada::verse::{clipboard_text, resized_markup, verse_markup};

#[test]
fn markup_of_a_verse() {
    assert_eq!(
        verse_markup("  12 ", 12288, " Mind precedes all things. \n"),
        "<span alpha='50%'>12</span>\n\n<span size='12288'>Mind precedes all things.</span>"
    );
    assert_eq!(
        verse_markup("1", 0, ""),
        "<span alpha='50%'>1</span>\n\n<span size='0'></span>"
    );
}

#[test]
fn clipboard_keeps_text_as_is() {
    assert_eq!(clipboard_text("5", " Hatred is never appeased by hatred. "), "5\n Hatred is never appeased by hatred. ");
    assert_eq!(clipboard_text("", ""), "\n");
}

#[test]
fn resized_markup_rebuilds_the_verse() {
    assert_eq!(
        resized_markup("1\n\nMind precedes all.\nMind is chief.", 16384),
        Some(
            "<span alpha='50%'>1</span>\n\n<span size='16384'>Mind precedes all.\nMind is chief.</span>"
                .to_string()
        )
    );
}

#[test]
fn resized_markup_drops_blank_lines_and_trims() {
    assert_eq!(
        resized_markup("\n  7 \n \n\n  a line \n\t\n second\n", 8192),
        Some("<span alpha='50%'>7</span>\n\n<span size='8192'>a line\nsecond</span>".to_string())
    );
}

#[test]
fn resized_markup_needs_a_number_and_a_text() {
    assert_eq!(resized_markup("", 12288), None);
    assert_eq!(resized_markup("42", 12288), None);
    assert_eq!(resized_markup("42\n\n   \n", 12288), None);
}

#[test]
fn resizing_keeps_the_verse() {
    let id = "183";
    let text = "Not to do any evil,\nto cultivate good,\nto purify one's mind";
    let shown = format!("{}\n\n{}", id, text);
    assert_eq!(resized_markup(&shown, 20480), Some(verse_markup(id, 20480, text)));
}
