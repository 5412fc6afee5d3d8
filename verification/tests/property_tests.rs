use sanitize_filename_reader_friendly::sanitize;

fn inputs() -> Vec<&'static str> {
    vec![
        "",
        "\tabc\tefg\t",
        "abc\u{0019}efg",
        "abc:\\/|?~=efg",
        "abc<>\"*<>#%{}^[]+[]`efg",
        "-_ \tabc \t >_-\n   efg \t_-",
        "abc\nefg",
        "abc\r\nefg",
        "abc\n",
        "\nabc",
        "a\n\nb",
        "a\rb",
        "a\u{2028}b",
        "abc_ __  efg __hij",
        "https://blog.getreu.net/projects/",
        "the quick brown fox jumped over the lazy dog",
        "résumé",
        ";-_hello.,\n,.world_-;",
        "~/.\u{0000}notssh/authorized_keys",
        "foo\u{200b}bar",
        "author | title",
        "Des questions ? Ou pas ?",
        "x~ ~x",
        "*.|.",
    ]
}

fn is_forbidden(c: char) -> bool {
    ":\\/|?~<>\"*#%{}^`\u{200b}".contains(c)
}

fn is_trimmed(c: char) -> bool {
    c.is_whitespace() || "_-.,;".contains(c)
}

// Length non-increase: the output never holds more characters than the
// input.
#[test]
fn test_length_non_increase() {
    for input in inputs() {
        let output = sanitize(input);
        assert!(output.chars().count() <= input.chars().count());
    }
}

// No residual forbidden characters, and neither two plain spaces nor two
// underscores in a row.
#[test]
fn test_no_forbidden_characters() {
    for input in inputs() {
        let output = sanitize(input);
        assert!(!output.chars().any(is_forbidden), "input {:?}", input);
        assert!(!output.contains("  "), "input {:?}", input);
        assert!(!output.contains("__"), "input {:?}", input);
    }
}

// No leading or trailing junk: the output never starts or ends with
// whitespace or one of `_ - . , ;`.
#[test]
fn test_no_edge_junk() {
    for input in inputs() {
        let output = sanitize(input);
        if let Some(first) = output.chars().next() {
            assert!(!is_trimmed(first), "input {:?}", input);
        }
        if let Some(last) = output.chars().last() {
            assert!(!is_trimmed(last), "input {:?}", input);
        }
    }
}

// Line joining: an internal line break becomes a single `-`, the lines
// trimmed on each side of it.
#[test]
fn test_line_joining() {
    assert_eq!(sanitize("first line \n second line"), "first line-second line");
    assert_eq!(sanitize("first line \r\n second line"), "first line-second line");
    assert_eq!(sanitize("a\n\nb"), "a--b");
    assert_eq!(sanitize("abc\n"), "abc");
    // A lone carriage return is not a line break; as whitespace it becomes
    // a space.
    assert_eq!(sanitize("a\rb"), "a b");
    // The Unicode line separator is whitespace, not a line break.
    assert_eq!(sanitize("a\u{2028}b"), "a b");
}

// Determinism: repeated calls with the same input produce the same output.
#[test]
fn test_determinism() {
    for input in inputs() {
        assert_eq!(sanitize(input), sanitize(input));
    }
}

// Idempotence holds on many ordinary inputs ...
#[test]
fn test_idempotence_examples() {
    let stable = vec![
        "",
        "\tabc\tefg\t",
        "abc:\\/|?~=efg",
        "abc\nefg",
        "abc_ __  efg __hij",
        "https://blog.getreu.net/projects/",
        "the quick brown fox jumped over the lazy dog",
        "LPT9.asdf",
        "filename(1).ext",
    ];
    for input in stable {
        let once = sanitize(input);
        assert_eq!(sanitize(&once), once, "input {:?}", input);
    }
}

// ... but is not guaranteed in general: an underscore that the first pass
// made from another character survives after a space, while a literal
// underscore there is suppressed by the second pass.
#[test]
fn test_not_idempotent_in_general() {
    let once = sanitize("author | title");
    assert_eq!(once, "author _ title");
    assert_ne!(sanitize(&once), once);
    assert_eq!(sanitize(&once), "author title");

    let once = sanitize("x~ ~x");
    assert_eq!(once, "x_ _x");
    assert_ne!(sanitize(&once), once);
    assert_eq!(sanitize(&once), "x_ x");
}

// The scenarios of the documentation, literally.
#[test]
fn test_documented_scenarios() {
    assert_eq!(sanitize("\tabc\tefg\t"), "abc efg");
    assert_eq!(sanitize("abc:\\/|?~efg"), "abc_efg");
    assert_eq!(sanitize("abc\nefg"), "abc-efg");
    assert_eq!(sanitize("abc_ __  efg __hij"), "abc_ efg hij");
    assert_eq!(
        sanitize("https://blog.getreu.net/projects/"),
        "https_blog.getreu.net_projects"
    );
    assert_eq!(sanitize(""), "");
    assert_eq!(
        sanitize("Read: http://blog.getreu.net/projects/tp-note/"),
        "Read_ http_blog.getreu.net_projects_tp-note"
    );
}
