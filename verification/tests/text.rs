use mesh_ai_node::text::chars_of;
use mesh_ai_node::text::contains_char;
use mesh_ai_node::text::split_segments;

#[test]
fn text_is_cut_at_every_separator() {
    assert_eq!(split_segments(""), vec![""]);
    assert_eq!(split_segments("/"), vec!["", ""]);
    assert_eq!(split_segments("abc"), vec!["abc"]);
    assert_eq!(split_segments("/ip4/127.0.0.1/tcp/0"), vec!["", "ip4", "127.0.0.1", "tcp", "0"]);
    assert_eq!(split_segments("a//b/"), vec!["a", "", "b", ""]);
}

#[test]
fn cut_text_joins_back() {
    for text in ["", "/", "abc", "/ip4/127.0.0.1/tcp/0", "a//b/", "/dns4/b\u{fc}cher.example/tcp/1"] {
        assert_eq!(split_segments(text).join("/"), text);
    }
}

#[test]
fn characters_are_counted_not_bytes() {
    assert_eq!(chars_of("b\u{fc}/c"), vec!['b', '\u{fc}', '/', 'c']);
    assert_eq!(split_segments("b\u{fc}/c"), vec!["b\u{fc}", "c"]);
    assert!(contains_char("b\u{fc}/c", '/'));
    assert!(contains_char("b\u{fc}/c", '\u{fc}'));
    assert!(!contains_char("abc", '/'));
    assert!(!contains_char("", '/'));
}
