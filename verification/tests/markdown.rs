use atomic_core::markdown::{
    extract_title_and_snippet, is_non_text_line, strip_inline_markdown, text_of_events,
    title_and_snippet, MarkdownEvent,
};
use atomic_core::source::{parse_source, source_from_parts, ParsedUrl};

#[test]
fn test_strip_inline_markdown() {
    // Backslash escapes
    assert_eq!(strip_inline_markdown(r"U\.S\. policy"), "U.S. policy");
    // Bold and italic
    assert_eq!(
        strip_inline_markdown("**bold** and *italic*"),
        "bold and italic"
    );
    // Links: keep text, drop URL
    assert_eq!(
        strip_inline_markdown("[click here](https://example.com)"),
        "click here"
    );
    // Images: drop entirely
    assert_eq!(
        strip_inline_markdown("before ![alt](img.png) after"),
        "before  after"
    );
    // Inline code
    assert_eq!(strip_inline_markdown("use `foo()` here"), "use foo() here");
    // Mixed
    assert_eq!(
        strip_inline_markdown(r"The **U\.S\.** has [a link](http://x.com)"),
        "The U.S. has a link"
    );
}

#[test]
fn breaks_become_blanks_and_images_nothing() {
    let events = vec![
        MarkdownEvent::Text("a".to_string()),
        MarkdownEvent::SoftBreak,
        MarkdownEvent::Code("b".to_string()),
        MarkdownEvent::HardBreak,
        MarkdownEvent::ImageStart,
        MarkdownEvent::Text("alt".to_string()),
        MarkdownEvent::SoftBreak,
        MarkdownEvent::ImageEnd,
        MarkdownEvent::Other,
        MarkdownEvent::Text("c".to_string()),
    ];
    assert_eq!(text_of_events(&events), "a b c");
    assert_eq!(strip_inline_markdown("one\ntwo"), "one two");
    assert_eq!(strip_inline_markdown("one  \ntwo"), "one two");
}

#[test]
fn lines_without_text_are_told_apart() {
    for line in [
        "```rust", "![alt](x.png)", "---", "***", "- - -", "_ _ _", "http://x.com", "https://x.com/a?b=c",
    ] {
        assert!(is_non_text_line(line), "{line}");
    }
    for line in ["--", "text", "https://x.com and more", "- item", "http:/x", "**", ""] {
        assert!(!is_non_text_line(line), "{line}");
    }
}

#[test]
fn title_is_the_first_text() {
    let content = "\n---\n![i](x.png)\nhttps://x.com\n```\n# code\n```\n## The **Title**\n\nBody `one`.\n- item\n";
    assert_eq!(
        extract_title_and_snippet(content, 300),
        ("The Title".to_string(), "Body one. item".to_string())
    );
    assert_eq!(extract_title_and_snippet("", 300), (String::new(), String::new()));
    assert_eq!(
        extract_title_and_snippet("```\nunclosed", 300),
        (String::new(), String::new())
    );
    assert_eq!(
        extract_title_and_snippet("#\n###\nreal", 10),
        ("real".to_string(), String::new())
    );
}

#[test]
fn snippet_is_cut_with_a_mark() {
    assert_eq!(
        extract_title_and_snippet("t\nabcdefghij klm", 10).1,
        "abcdefg..."
    );
    // The blank before the cut goes too.
    assert_eq!(extract_title_and_snippet("t\nabcdef ghijkl", 10).1, "abcdef...");
    assert_eq!(extract_title_and_snippet("t\nabcdefghij", 10).1, "abcdefghij");
    // Enough is enough: later lines are not looked at.
    assert_eq!(extract_title_and_snippet("t\nabcdefghij\nmore", 10).1, "abcdefghij");
    assert_eq!(extract_title_and_snippet("t\nabc\ndef", 10).1, "abc def");
    // The limit is in characters, the mark of the cut included.
    assert_eq!(
        extract_title_and_snippet("T\néé", 3),
        ("T".to_string(), "éé".to_string())
    );
    assert_eq!(extract_title_and_snippet("t\nééééé", 4).1, "é...");
    assert_eq!(extract_title_and_snippet("t\néé\néé", 5).1, "éé éé");
    assert_eq!(extract_title_and_snippet("t\nabcd", 3).1, "...");
    assert_eq!(extract_title_and_snippet("t\nabcd", 2).1, "ab");
    assert_eq!(extract_title_and_snippet("t\nab", 0).1, "");
    for max in 0..20 {
        let (_, snippet) = extract_title_and_snippet("t\nábc défg\nhij klm nop", max);
        assert!(snippet.chars().count() <= max, "{snippet}");
    }
}

#[test]
fn texts_give_title_and_snippet() {
    let texts: Vec<String> = ["one", "two", "three"].iter().map(|s| s.to_string()).collect();
    assert_eq!(
        title_and_snippet(&texts, 100),
        ("one".to_string(), "two three".to_string())
    );
    assert_eq!(title_and_snippet(&texts, 3), ("one".to_string(), "two".to_string()));
    assert_eq!(title_and_snippet(&texts, 5), ("one".to_string(), "tw...".to_string()));
    assert_eq!(title_and_snippet(&vec![], 5), (String::new(), String::new()));
}

#[test]
fn source_is_host_scheme_or_text() {
    assert_eq!(parse_source("https://www.example.com/a"), "example.com");
    assert_eq!(parse_source("http://Blog.Example.com"), "blog.example.com");
    assert_eq!(parse_source("https://wwwx.com"), "wwwx.com");
    assert_eq!(parse_source("kindle://book/B00"), "kindle");
    assert_eq!(parse_source("obsidian://Vault/Note.md"), "obsidian");
    assert_eq!(parse_source("mailto:a@b.c"), "mailto");
    assert_eq!(parse_source("just text"), "just text");
    assert_eq!(parse_source(""), "");
}

#[test]
fn source_is_told_from_the_parts() {
    let parts = |scheme: &str, host: Option<&str>| {
        Some(ParsedUrl {
            scheme: scheme.to_string(),
            host: host.map(|h| h.to_string()),
        })
    };
    assert_eq!(source_from_parts(parts("https", Some("www.a.b")), "x"), "a.b");
    assert_eq!(source_from_parts(parts("http", Some("a.b")), "x"), "a.b");
    assert_eq!(source_from_parts(parts("ftp", Some("a.b")), "x"), "ftp");
    assert_eq!(source_from_parts(parts("https", None), "x"), "https");
    assert_eq!(source_from_parts(None, "x"), "x");
}
