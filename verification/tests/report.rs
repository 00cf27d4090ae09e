use dash2html::{annotate, assemble, escape, footer, format_tags, header, render, Entry, Snippet, Tag};

fn tag(id: u64, name: &str) -> Tag {
    Tag { id, name: name.to_string() }
}

fn snippet(id: u64, title: &str, body: &str, syntax: &str) -> Snippet {
    Snippet {
        id,
        title: title.to_string(),
        body: body.to_string(),
        syntax: syntax.to_string(),
    }
}

#[test]
fn escape_replaces_every_special() {
    assert_eq!(
        escape("a&b<c>d\"e'f"),
        "a&amp;b&lt;c&gt;d&quot;e&#x27;f"
    );
}

#[test]
fn escape_leaves_plain_text_alone() {
    assert_eq!(escape("hello world"), "hello world");
    assert_eq!(escape(""), "");
}

#[test]
fn escape_output_has_no_specials_left() {
    let out = escape("<<>>\"\"''&&");
    assert!(!out.contains('<'));
    assert!(!out.contains('>'));
    assert!(!out.contains('"'));
    assert!(!out.contains('\''));
}

#[test]
fn escape_counts_one_reference_per_apostrophe() {
    let out = escape("it's a 'quoted' #tag");
    assert_eq!(out.matches("&#x27;").count(), 3);
    assert_eq!(out.matches('#').count(), 4);
}

#[test]
fn reescaping_only_expands_ampersands() {
    let once = escape("<&'");
    assert_eq!(once, "&lt;&amp;&#x27;");
    let twice = escape(&once);
    assert_eq!(twice, "&amp;lt;&amp;amp;&amp;#x27;");
}

#[test]
fn annotate_wraps_variable_span() {
    assert_eq!(
        annotate("say __name__ now"),
        "say <span class=\"variable\">__name__</span> now"
    );
}

#[test]
fn annotate_takes_shortest_span_leftmost_first() {
    assert_eq!(
        annotate("__a__b__"),
        "<span class=\"variable\">__a__</span>b__"
    );
    assert_eq!(annotate("____"), "<span class=\"variable\">____</span>");
    assert_eq!(annotate("___"), "___");
}

#[test]
fn annotate_wraps_disjoint_variable_spans() {
    assert_eq!(
        annotate("__a__ and __b__"),
        "<span class=\"variable\">__a__</span> and <span class=\"variable\">__b__</span>"
    );
}

#[test]
fn annotate_wraps_placeholders_keeping_case() {
    assert_eq!(
        annotate("run @TIME then @clipboard"),
        "run <span class=\"placeholder\">@TIME</span> then <span class=\"placeholder\">@clipboard</span>"
    );
    assert_eq!(
        annotate("@date @cursor"),
        "<span class=\"placeholder\">@date</span> <span class=\"placeholder\">@cursor</span>"
    );
    assert_eq!(
        annotate("@Date"),
        "<span class=\"placeholder\">@Date</span>"
    );
}

#[test]
fn annotate_needs_the_whole_keyword() {
    assert_eq!(annotate("@tim"), "@tim");
    assert_eq!(
        annotate("@timex"),
        "<span class=\"placeholder\">@time</span>x"
    );
}

#[test]
fn annotate_wraps_placeholder_inside_variable_span() {
    assert_eq!(
        annotate("__@date__"),
        "<span class=\"variable\">__<span class=\"placeholder\">@date</span>__</span>"
    );
}

#[test]
fn annotate_leaves_unmarked_text_alone() {
    assert_eq!(annotate("plain text"), "plain text");
    assert_eq!(annotate(""), "");
}

#[test]
fn tags_without_public_hide_the_snippet() {
    let (visible, badges) = format_tags(&vec![]);
    assert!(!visible);
    assert!(badges.is_empty());

    let (visible, badges) = format_tags(&vec![tag(3, "draft")]);
    assert!(!visible);
    assert_eq!(badges.len(), 1);
}

#[test]
fn public_makes_visible_and_gets_no_badge() {
    let (visible, badges) = format_tags(&vec![tag(1, "public"), tag(2, "rust")]);
    assert!(visible);
    assert_eq!(badges, vec!["<span class=\"tag tag-2\">rust</span>".to_string()]);
}

#[test]
fn public_match_is_case_sensitive_and_exact() {
    let (visible, _) = format_tags(&vec![tag(1, "Public"), tag(2, "publics")]);
    assert!(!visible);
}

#[test]
fn badge_class_carries_the_tag_id() {
    let (_, b1) = format_tags(&vec![tag(42, "rust")]);
    let (_, b2) = format_tags(&vec![tag(7, "rust")]);
    assert_ne!(b1, b2);
    assert!(b1[0].contains("tag-42"));
    assert!(b2[0].contains("tag-7"));
}

#[test]
fn badge_text_is_escaped() {
    let (_, badges) = format_tags(&vec![tag(9, "a<b")]);
    assert_eq!(badges, vec!["<span class=\"tag tag-9\">a&lt;b</span>".to_string()]);
}

#[test]
fn render_skips_snippets_without_public() {
    let s = snippet(2, "Secret", "x", "text");
    assert_eq!(render(&s, &vec![tag(3, "draft")]), None);
    assert_eq!(render(&s, &vec![]), None);
}

#[test]
fn render_produces_one_full_row() {
    let s = snippet(1, "Hello", "say __name__ now", "text");
    let row = render(&s, &vec![tag(1, "public")]).unwrap();
    assert_eq!(
        row,
        "<tr id=\"snippet-1\"><td><code>Hello</code></td><td class=\"snippet-body\">say <span class=\"variable\">__name__</span> now</td><td></td></tr>\n"
    );
}

#[test]
fn render_joins_badges_with_spaces() {
    let s = snippet(5, "T", "b", "text");
    let row = render(&s, &vec![tag(1, "public"), tag(2, "rust"), tag(3, "cli")]).unwrap();
    assert!(row.contains(
        "<td><span class=\"tag tag-2\">rust</span> <span class=\"tag tag-3\">cli</span></td>"
    ));
}

#[test]
fn render_escapes_title_and_body() {
    let s = snippet(8, "a<b", "x & y", "text");
    let row = render(&s, &vec![tag(1, "public")]).unwrap();
    assert!(row.contains("<code>a&lt;b</code>"));
    assert!(row.contains("x &amp; y"));
}

#[test]
fn end_to_end_report_holds_only_public_rows() {
    let entries = vec![
        Entry {
            snippet: snippet(1, "Hello", "say __name__ now", "text"),
            tags: vec![tag(1, "public")],
        },
        Entry {
            snippet: snippet(2, "Secret", "x", "text"),
            tags: vec![tag(2, "draft")],
        },
    ];
    let doc = assemble(&entries);
    let expected_row = "<tr id=\"snippet-1\"><td><code>Hello</code></td><td class=\"snippet-body\">say <span class=\"variable\">__name__</span> now</td><td></td></tr>\n";
    let mut expected = String::new();
    expected.push_str(header());
    expected.push_str(expected_row);
    expected.push_str(footer());
    assert_eq!(doc, expected);
    assert_eq!(doc.matches("<tr id=\"snippet-").count(), 1);
    assert!(!doc.contains("snippet-2"));
    assert!(!doc.contains("Secret"));
}

#[test]
fn empty_report_is_header_and_footer() {
    let doc = assemble(&vec![]);
    let mut expected = String::new();
    expected.push_str(header());
    expected.push_str(footer());
    assert_eq!(doc, expected);
    assert!(doc.starts_with(header()));
    assert!(doc.ends_with(footer()));
}

#[test]
fn every_report_is_framed_by_header_and_footer() {
    let entries = vec![
        Entry {
            snippet: snippet(10, "A", "b", "text"),
            tags: vec![tag(1, "public"), tag(4, "notes")],
        },
    ];
    let doc = assemble(&entries);
    assert!(doc.starts_with(header()));
    assert!(doc.ends_with(footer()));
}

#[test]
fn rows_keep_data_source_order() {
    let entries = vec![
        Entry { snippet: snippet(3, "B", "x", "text"), tags: vec![tag(1, "public")] },
        Entry { snippet: snippet(1, "A", "y", "text"), tags: vec![tag(1, "public")] },
    ];
    let doc = assemble(&entries);
    let first = doc.find("snippet-3").unwrap();
    let second = doc.find("snippet-1").unwrap();
    assert!(first < second);
}

#[test]
fn large_and_zero_ids_render_in_decimal() {
    let s = snippet(0, "Zero", "b", "text");
    let row = render(&s, &vec![tag(18446744073709551615, "public"), tag(12345, "big")]).unwrap();
    assert!(row.contains("<tr id=\"snippet-0\">"));
    assert!(row.contains("tag-12345"));
}
