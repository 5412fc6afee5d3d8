use sanitize_filename_reader_friendly::sanitize;

#[test]
fn test_sanitize() {
    // Test filter tabs.
    assert_eq!(sanitize("\tabc\tefg\t"), "abc efg".to_string());
    // Test filter control characters.
    assert_eq!(sanitize("abc\u{0019}efg"), "abcefg".to_string());
    // Test filter special characters, replace with _.
    assert_eq!(sanitize("abc:\\/|?~=efg"), "abc_=efg".to_string());
    // Test filter special characters, replace with _.
    assert_eq!(
        sanitize("abc<>\"*<>#%{}^[]+[]`efg"),
        "abc []+[] efg".to_string()
    );
    // Test trim before and after newline.
    assert_eq!(
        sanitize("-_ \tabc \t >_-\n   efg \t_-"),
        "abc-efg".to_string()
    );
    // Test replace Unix newline.
    assert_eq!(sanitize("abc\nefg"), "abc-efg".to_string());
    // Test replace Windows newline.
    assert_eq!(sanitize("abc\r\nefg"), "abc-efg".to_string());
    // Test double '_' or ' '.
    assert_eq!(sanitize("abc_ __  efg __hij"), "abc_ efg hij".to_string());
    // Test hyperlink.
    assert_eq!(
        sanitize("https://blog.getreu.net/projects/"),
        "https_blog.getreu.net_projects".to_string()
    );
}

// File stem examples; the extension is usually added after sanitizing the
// file stem.
fn corpus() -> Vec<(&'static str, &'static str)> {
    vec![
        (
            "the quick brown fox jumped over the lazy dog",
            "the quick brown fox jumped over the lazy dog",
        ),
        ("résumé", "résumé"),
        ("hello\u{0000}world", "helloworld"),
        ("hello\nworld", "hello-world"),
        (";-_hello.,\n,.world_-;", "hello-world"),
        ("semi;colon", "semi;colon"),
        (";leading-semi", "leading-semi"),
        ("com,ma", "com,ma"),
        ("equals=", "equals="),
        ("slash\\", "slash"),
        ("slash/", "slash"),
        ("col:on", "col_on"),
        ("star*", "star"),
        ("question?", "question"),
        ("quote\"", "quote"),
        ("singlequote'", "singlequote'"),
        ("brack<e>ts", "brack e ts"),
        ("p|pes", "p_pes"),
        ("plus+", "plus+"),
        ("'five and six<seven'", "'five and six seven'"),
        (" space at front", "space at front"),
        ("space at end ", "space at end"),
        (".period", "period"),
        ("period.", "period"),
        ("relative/path/to/some/dir", "relative_path_to_some_dir"),
        ("/abs/path/to/some/dir", "abs_path_to_some_dir"),
        ("~/.\u{0000}notssh/authorized_keys", "notssh_authorized_keys"),
        ("", ""),
        ("h?w", "h_w"),
        ("h/w", "h_w"),
        ("h*w", "h w"),
        (".", ""),
        ("..", ""),
        ("./", ""),
        ("../", ""),
        ("/..", ""),
        ("/../", ""),
        ("*.|.", ""),
        ("./", ""),
        ("./foobar", "foobar"),
        ("../foobar", "foobar"),
        ("../../foobar", "foobar"),
        ("./././foobar", "foobar"),
        ("|*.what", "what"),
        ("LPT9.asdf", "LPT9.asdf"),
        ("author| title", "author_ title"),
        ("author | title", "author _ title"),
        ("author: title", "author_ title"),
        ("auteur : titre", "auteur _ titre"),
        ("author, title", "author, title"),
        ("no , enumeration", "no enumeration"),
        ("Any questions? Or not?", "Any questions_ Or not"),
        ("Des questions ? Ou pas ?", "Des questions _ Ou pas"),
        ("Hello!", "Hello!"),
        ("filename(1).ext", "filename(1).ext"),
        ("1,23", "1,23"),
        ("1.23", "1.23"),
        ("foo\u{200b}bar", "foobar"),
    ]
}

#[test]
fn test_string_list() {
    for (input, expected) in corpus() {
        assert_eq!(expected, sanitize(input));
    }
}
