use bandits::command::{command_words, whitespace};

fn split(text: &str) -> Vec<String> {
    text.split_whitespace().map(|word| word.to_string()).collect()
}

#[test]
fn whitespace_is_what_the_standard_library_calls_white_space() {
    for code in 0..=0x10FFFFu32 {
        if let Some(c) = char::from_u32(code) {
            assert_eq!(whitespace(c), c.is_whitespace(), "U+{:04X}", code);
        }
    }
}

#[test]
fn a_command_splits_into_the_program_and_its_arguments() {
    assert_eq!(command_words("./fuzz.sh --seed 7 corpus/"), vec!["./fuzz.sh", "--seed", "7", "corpus/"]);
    assert_eq!(command_words("make"), vec!["make"]);
}

#[test]
fn any_amount_of_white_space_parts_two_words() {
    assert_eq!(command_words("  a \t\tb\n\nc  "), vec!["a", "b", "c"]);
    assert_eq!(command_words("a\u{a0}b\u{3000}c\u{2003}d\u{85}e"), vec!["a", "b", "c", "d", "e"]);
    assert_eq!(command_words("\tleading"), vec!["leading"]);
    assert_eq!(command_words("trailing\r\n"), vec!["trailing"]);
}

#[test]
fn a_blank_command_has_no_words() {
    assert_eq!(command_words(""), Vec::<String>::new());
    assert_eq!(command_words(" "), Vec::<String>::new());
    assert_eq!(command_words(" \t \n\u{2028}"), Vec::<String>::new());
}

#[test]
fn words_keep_what_is_no_white_space() {
    assert_eq!(command_words("na\u{ef}ve=\u{1f600} \u{200b}x"), vec!["na\u{ef}ve=\u{1f600}", "\u{200b}x"]);
    assert_eq!(command_words("a=b \"c d\""), vec!["a=b", "\"c", "d\""]);
}

#[test]
fn words_are_those_of_the_standard_library() {
    let texts = [
        "",
        " ",
        "one",
        " one",
        "one ",
        "one two",
        "one  two   three",
        "\tone\ntwo\rthree\u{b}four\u{c}five",
        "a\u{1680}b\u{2000}c\u{200a}d\u{2028}e\u{2029}f\u{202f}g\u{205f}h\u{3000}i",
        "x\u{200b}y \u{feff}z",
        "sh -c 'echo  hello'",
    ];
    for text in texts.iter() {
        assert_eq!(command_words(text), split(text), "{:?}", text);
    }
}
