use python_ext::ext::requirements::{
    install_arguments, is_white, requirement_specifiers, INSTALLER,
};

fn strings(items: &[&str]) -> Vec<String> {
    items.iter().map(|item| item.to_string()).collect()
}

/// The same rule written with std: every line but the blank ones and those
/// whose first character that is not white space is the comment marker.
fn by_std(text: &str) -> Vec<String> {
    text.lines()
        .filter(|line| !line.trim().is_empty() && !line.trim_start().starts_with('#'))
        .map(|line| line.to_string())
        .collect()
}

#[test]
fn specifiers_are_the_lines_that_name_a_dependency() {
    let text = "# dependencies\n\nrequests==2.31.0\n   \n# pinned\nnumpy>=1.26\n\t# indented comment\nflask\n";
    assert_eq!(
        requirement_specifiers(text),
        strings(&["requests==2.31.0", "numpy>=1.26", "flask"])
    );
}

#[test]
fn specifiers_keep_their_order_and_their_repetitions() {
    assert_eq!(requirement_specifiers("b\na\nb\n#c\na"), strings(&["b", "a", "b", "a"]));
}

#[test]
fn a_specifier_is_handed_on_as_it_stands() {
    assert_eq!(
        requirement_specifiers("  spaced  \nname # trailing\n"),
        strings(&["  spaced  ", "name # trailing"])
    );
}

#[test]
fn line_endings_are_not_part_of_a_line() {
    assert_eq!(requirement_specifiers("a\r\nb\nc"), strings(&["a", "b", "c"]));
    assert_eq!(requirement_specifiers("a\r\n\r\n#x\r\nb\r\n"), strings(&["a", "b"]));
    // A carriage return belongs to a line unless a newline follows it.
    assert_eq!(requirement_specifiers("a\rb\nc\r"), strings(&["a\rb", "c\r"]));
    assert_eq!(requirement_specifiers("a\r\r\n"), strings(&["a\r"]));
}

#[test]
fn a_text_without_specifiers_gives_none() {
    assert_eq!(requirement_specifiers(""), Vec::<String>::new());
    assert_eq!(requirement_specifiers("\n\n\n"), Vec::<String>::new());
    assert_eq!(requirement_specifiers("# only\n  # comments\n \t \n"), Vec::<String>::new());
    assert_eq!(requirement_specifiers("\r\n\r"), Vec::<String>::new());
    assert_eq!(requirement_specifiers("#"), Vec::<String>::new());
}

#[test]
fn white_space_is_what_unicode_calls_so() {
    for code in 0..=0x3100u32 {
        if let Some(ch) = char::from_u32(code) {
            assert_eq!(is_white(ch), ch.is_whitespace(), "U+{:04X}", code);
        }
    }
    assert!(!is_white('#'));
    assert!(!is_white('\u{200b}'));
    assert!(!is_white('\u{10FFFF}'));
    assert_eq!(
        requirement_specifiers("\u{a0}\u{2003}\u{3000}\n\u{2028}# note\n\u{a0}pkg\n"),
        strings(&["\u{a0}pkg"])
    );
}

#[test]
fn specifiers_agree_with_the_rule_written_with_std() {
    let texts = [
        "",
        "\n",
        "a",
        "a\n",
        "a\n\nb",
        "# c\na\n  # d\n\tb\r\n\r\nc # e\n",
        " \n\t\n\u{a0}\n# \n#\n##\n #a\nb#\n",
        "ünïcödé==1.0\n# ünïcödé\n  日本語\n",
        "x\r",
        "\r\nx\r\n\r",
    ];
    for text in texts {
        assert_eq!(requirement_specifiers(text), by_std(text), "{:?}", text);
    }
}

#[test]
fn the_installer_gets_one_specifier() {
    assert_eq!(INSTALLER, "pip3");
    assert_eq!(install_arguments("requests==2.31.0"), strings(&["install", "requests==2.31.0"]));
    assert_eq!(install_arguments(" a b "), strings(&["install", " a b "]));
}
