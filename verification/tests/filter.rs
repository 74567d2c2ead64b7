use honeypot::filter::is_usable_filter;

#[test]
fn directives_behind_ascii_space_are_read_as_they_are() {
    assert!(is_usable_filter(""));
    assert!(is_usable_filter("info"));
    assert!(is_usable_filter(" info"));
    assert!(is_usable_filter(" [span]"));
    assert!(!is_usable_filter(" honeypot=info"));
    assert!(!is_usable_filter(" "));
    assert!(!is_usable_filter("\u{3000}"));
    assert!(!is_usable_filter("honeypot=nonsense"));
}

#[test]
fn a_target_behind_space_is_taken_whole() {
    for level in [" \u{e9}", "\u{3000}a", "info, \u{e9}", " \u{e9}]", " a\u{e9}{b}"] {
        assert!(is_usable_filter(level), "{level:?}");
    }
    assert!(!is_usable_filter("\u{a0}\u{1f600}a"));
}

#[test]
fn a_span_behind_space_is_cut_between_characters() {
    for level in [" [\u{e9}a]", "    \u{e9}[b]", " [\u{e9}a{b}]", "info, [\u{e9}a] "] {
        assert!(is_usable_filter(level), "{level:?}");
    }
}

#[test]
fn a_directive_that_would_be_cut_inside_a_character_is_refused() {
    for level in [
        "\u{3000}a=info",
        " \u{e9}=info",
        "info, \u{e9}=debug",
        " \u{e9}[b]",
        " [a\u{e9}]",
        " [\u{e9}{ab}]",
        " [\u{e9}a{b\u{e9}}]",
        " [\u{e9}a]=info",
        " [\u{e9}a{b}]=info",
        " [\u{e9}a",
        " [\u{e9}a{b",
        "\u{a0}aa=info",
    ] {
        assert!(!is_usable_filter(level), "{level:?}");
    }
}

#[test]
fn directives_without_space_before_them_are_read_in_any_script() {
    for level in ["\u{e9}=info", "\u{e9}[b]=debug", "info,\u{e9}=debug", "[\u{e9}{f}]=warn"] {
        assert!(is_usable_filter(level), "{level:?}");
    }
    assert!(!is_usable_filter("\u{e9}=warn "));
}
