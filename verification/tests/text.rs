use sitemap_indexnow::text::{escape, join_with_commas, render_decimal};

#[test]
fn decimal_numerals() {
    assert_eq!(render_decimal(0), "0");
    assert_eq!(render_decimal(7), "7");
    assert_eq!(render_decimal(10), "10");
    assert_eq!(render_decimal(109), "109");
    assert_eq!(render_decimal(4294967295), "4294967295");
    for n in [1u32, 9, 11, 99, 100, 101, 999, 1000, 65535, 123456789] {
        assert_eq!(render_decimal(n), n.to_string());
    }
}

#[test]
fn escape_replaces_ampersands_only() {
    assert_eq!(escape(""), "");
    assert_eq!(escape("plain"), "plain");
    assert_eq!(escape("&"), "&amp;");
    assert_eq!(escape("a&b"), "a&amp;b");
    assert_eq!(escape("&&"), "&amp;&amp;");
    assert_eq!(escape("&amp;"), "&amp;amp;");
    assert_eq!(escape("<tag> \"q\" 'a'"), "<tag> \"q\" 'a'");
    assert_eq!(escape("caf\u{e9}&\u{3042}"), "caf\u{e9}&amp;\u{3042}");
}

#[test]
fn escape_agrees_with_replace() {
    for text in ["http://x/?a=1&b=2", "&&&", "no ampersand", "&amp;&lt;", "end&"] {
        assert_eq!(escape(text), text.replace('&', "&amp;"));
        assert_eq!(escape(text).replace("&amp;", "&"), text);
    }
}

#[test]
fn commas_stand_between_parts() {
    assert_eq!(join_with_commas(&Vec::new()), "");
    assert_eq!(join_with_commas(&vec!["a".to_string()]), "a");
    assert_eq!(join_with_commas(&vec!["a".to_string(), "b".to_string()]), "a,b");
    assert_eq!(
        join_with_commas(&vec!["".to_string(), "".to_string(), "c".to_string()]),
        ",,c"
    );
}
