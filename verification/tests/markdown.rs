use moltis_slack::chunk::can_chunk;
use moltis_slack::markdown::{chunk_message, markdown_to_mrkdwn, SLACK_MAX_MESSAGE_LEN};
use moltis_slack::text::is_white_space;

#[test]
fn markdown_to_slack() {
    assert_eq!(markdown_to_mrkdwn("**bold**"), "*bold*");
    assert_eq!(markdown_to_mrkdwn("*italic*"), "_italic_");
    assert_eq!(markdown_to_mrkdwn("`code`"), "`code`");
    assert_eq!(markdown_to_mrkdwn("~~strike~~"), "~strike~");
}

#[test]
fn fenced_code_block() {
    let input = "```rust\nfn main() {}\n```";
    let output = markdown_to_mrkdwn(input);
    assert!(output.contains("```\nfn main() {}\n```"));
}

#[test]
fn link_conversion() {
    assert_eq!(
        markdown_to_mrkdwn("[click](https://example.com)"),
        "<https://example.com|click>"
    );
}

#[test]
fn chunk_short_message() {
    let chunks = chunk_message("hello", 100);
    assert_eq!(chunks, vec!["hello"]);
}

#[test]
fn chunk_at_newline() {
    let text = "line1\nline2\nline3";
    let chunks = chunk_message(text, 10);
    assert_eq!(chunks[0], "line1");
}

#[test]
fn special_chars_escaped() {
    assert_eq!(
        markdown_to_mrkdwn("a < b & c > d"),
        "a &lt; b &amp; c &gt; d"
    );
}

#[test]
fn fences_and_line_ends() {
    assert_eq!(markdown_to_mrkdwn(""), "");
    assert_eq!(markdown_to_mrkdwn("a\r\nb\n"), "a\nb\n");
    assert_eq!(markdown_to_mrkdwn("a\r"), "a\r");
    assert_eq!(markdown_to_mrkdwn("```\nx\n```"), "```\nx\n```");
    assert_eq!(markdown_to_mrkdwn("```rs\r\nx"), "```\nx");
    assert_eq!(markdown_to_mrkdwn("````"), "```");
    assert_eq!(markdown_to_mrkdwn(" ```rs"), " ```rs");
    assert_eq!(markdown_to_mrkdwn("\n\n"), "\n\n");
}

#[test]
fn links_that_are_none() {
    assert_eq!(markdown_to_mrkdwn("[a] (b)"), "[a] (b)");
    assert_eq!(markdown_to_mrkdwn("[a](b"), "[a](b");
    assert_eq!(markdown_to_mrkdwn("x [a [b](c) d"), "x <c|a [b> d");
    assert_eq!(markdown_to_mrkdwn("[a](b)[c](d)"), "<b|a><d|c>");
    assert_eq!(markdown_to_mrkdwn("[](u)"), "<u|>");
    assert_eq!(markdown_to_mrkdwn("[<b>](u?a&b)"), "<u?a&amp;b|&lt;b&gt;>");
}

#[test]
fn marks_that_do_not_close() {
    assert_eq!(markdown_to_mrkdwn("**a"), "**a");
    assert_eq!(markdown_to_mrkdwn("*a"), "*a");
    assert_eq!(markdown_to_mrkdwn("a**b**c*d*"), "a*b*c_d_");
    assert_eq!(markdown_to_mrkdwn("****"), "**");
    assert_eq!(markdown_to_mrkdwn("***a***"), "*_a*_");
    assert_eq!(markdown_to_mrkdwn("~~~"), "~~");
    assert_eq!(markdown_to_mrkdwn("~~~~~"), "~~~");
    assert_eq!(markdown_to_mrkdwn("\u{1}a\u{2}"), "*a*");
}

#[test]
fn bytes_outside_spans_are_written_one_by_one() {
    assert_eq!(markdown_to_mrkdwn("\u{e9}"), "\u{c3}\u{83}\u{c2}\u{a9}");
    assert_eq!(markdown_to_mrkdwn("*\u{e9}*"), "_\u{c3}\u{a9}_");
    assert_eq!(markdown_to_mrkdwn("**\u{20ac}**"), "*\u{e2}\u{82}\u{ac}*");
}

#[test]
fn chunks_at_spaces_and_limits() {
    assert_eq!(chunk_message("", 5), vec![""]);
    assert_eq!(chunk_message("hello world", 0), vec!["hello world"]);
    assert_eq!(chunk_message("hello world", 11), vec!["hello world"]);
    assert_eq!(chunk_message("hello world", 10), vec!["hello", "world"]);
    assert_eq!(chunk_message("abcdefgh", 3), vec!["abc", "def", "gh"]);
    assert_eq!(chunk_message("line1\nline2\nline3", 10), vec!["line1", "line2", "line3"]);
    assert_eq!(chunk_message("line1\nline2\nline3", 12), vec!["line1\nline2", "line3"]);
    assert_eq!(chunk_message("     ", 2), vec![""]);
    assert_eq!(chunk_message("\nabc", 3), vec!["", "abc"]);
    assert_eq!(chunk_message(" a b c", 2), vec!["", "a", "b", "c"]);
    assert_eq!(chunk_message("ab\n  cd", 4), vec!["ab", "cd"]);
}

#[test]
fn chunks_of_wide_characters() {
    assert_eq!(
        chunk_message("\u{e9}\u{e9}\u{e9}", 2),
        vec!["\u{e9}", "\u{e9}", "\u{e9}"]
    );
    assert_eq!(chunk_message("\u{20ac}\u{a0}x", 5), vec!["\u{20ac}", "x"]);
    assert_eq!(chunk_message("\u{1f600}a", 4), vec!["\u{1f600}", "a"]);
}

#[test]
fn text_that_cannot_be_cut() {
    assert!(!can_chunk("\u{e9}\u{e9}", 3));
    assert!(!can_chunk("\u{1f600}\u{1f600}", 6));
    assert!(can_chunk("\u{e9}\u{e9}", 4));
    assert!(can_chunk("\u{e9}\u{e9}", 2));
    assert!(can_chunk("\u{e9}\u{e9}", 0));
    assert!(can_chunk("", 1));
    assert!(can_chunk("a\u{e9}\u{e9} b", 5));
    assert!(!can_chunk("abc \u{e9}\u{e9}\u{e9}", 5));
}

#[test]
fn chunks_fit_and_rejoin() {
    let text = "The quick brown fox\njumps over   the lazy dog. ".repeat(40);
    for limit in 1..60 {
        let chunks = chunk_message(&text, limit);
        let mut rest = text.as_str();
        for c in &chunks {
            assert!(c.len() <= limit);
            assert!(rest.starts_with(c.as_str()) || c.is_empty());
            rest = rest[c.len()..].trim_start();
        }
        assert!(rest.trim().is_empty());
    }
    assert_eq!(chunk_message(&text, SLACK_MAX_MESSAGE_LEN).len(), 1);
}

#[test]
fn angle_brackets_only_in_links() {
    let out = markdown_to_mrkdwn("<!channel> **x** [a<b](c>d) > <");
    assert_eq!(out.matches('<').count(), 1);
    assert_eq!(out.matches('>').count(), 1);
    assert_eq!(out, "&lt;!channel&gt; *x* <c&gt;d|a&lt;b> &gt; &lt;");
}

#[test]
fn white_space_is_that_of_unicode() {
    for n in 0..0x11_0000u32 {
        if let Some(c) = char::from_u32(n) {
            assert_eq!(is_white_space(c), c.is_whitespace(), "{n:x}");
        }
    }
}

#[test]
fn markup_inside_text_and_inside_markup() {
    assert_eq!(markdown_to_mrkdwn("see **b** now"), "see *b* now");
    assert_eq!(
        markdown_to_mrkdwn("see **a & [x](y) ~~z~~** now"),
        "see *a &amp; <y|x> ~z~* now"
    );
    assert_eq!(markdown_to_mrkdwn("*a > [x](y)*"), "_a &gt; <y|x>_");
    assert_eq!(markdown_to_mrkdwn("~~*a* **b**~~"), "~_a_ *b*~");
    // A round bracket behind a text can close a link of it.
    assert_eq!(markdown_to_mrkdwn("[a](b"), "[a](b");
    assert_eq!(markdown_to_mrkdwn("[a](b) c"), "<b|a> c");
}

#[test]
fn text_without_markup_is_unchanged() {
    for text in ["about ~5 or ~6", "2 * 3 = 6", "[x] done (yes)", "a]b(c", "`x`~y"] {
        assert_eq!(markdown_to_mrkdwn(text), text);
    }
    assert_eq!(markdown_to_mrkdwn("a~b **c** d~e"), "a~b *c* d~e");
}

#[test]
fn line_feeds_survive() {
    for text in ["a\r\nb\n\nc", "```rs\nx\n```", "[a\nb](c\nd)\n", "**a\nb** *c\n*", "\n"] {
        let out = markdown_to_mrkdwn(text);
        assert_eq!(out.matches('\n').count(), text.matches('\n').count(), "{text:?}");
    }
}

#[test]
fn ampersands_begin_entities() {
    for text in ["&", "&amp;", "a && <b> **&** *&* [&](&) ~~&~~", "&\u{e9}&"] {
        let out = markdown_to_mrkdwn(text);
        for (i, _) in out.match_indices('&') {
            let rest = &out[i..];
            assert!(
                rest.starts_with("&amp;") || rest.starts_with("&lt;") || rest.starts_with("&gt;")
            );
        }
    }
    assert_eq!(markdown_to_mrkdwn("&amp;"), "&amp;amp;");
}

#[test]
fn chunks_begin_and_end_with_text() {
    let text = "  one two\n three   four five \n\n six ".repeat(9);
    for limit in 1..40 {
        let chunks = chunk_message(&text, limit);
        let last = chunks.len() - 1;
        for (i, c) in chunks.iter().enumerate() {
            if i > 0 {
                assert!(!c.is_empty() && !c.starts_with(char::is_whitespace));
            }
            if i < last {
                assert!(!c.ends_with(char::is_whitespace));
            }
        }
    }
}
