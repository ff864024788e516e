use rei::exec::load_page;
use rei::marks::Bookmarks;
use rei::{GemTextLine, History, PageBuf};

fn load(meta: &str, body: Option<&str>, url: &str, add: bool) -> (PageBuf, History, Vec<String>, Result<bool, &'static str>) {
    let mut buf = PageBuf::new();
    let mut hist = History::new();
    let mut out: Vec<String> = Vec::new();
    let r = load_page(meta, body, url, add, &mut buf, &mut hist, &mut out);
    (buf, hist, out, r)
}

#[test]
fn document_load_yields_typed_lines_in_order() {
    let body = "# Title\n=> gemini://x.example/ Link Text\n```language\ncode line\n```\nplain text";
    let (buf, _, _, r) = load("text/gemini", Some(body), "gemini://example.com/", true);
    assert!(r.is_ok());
    let target = url::Url::parse("gemini://x.example/").unwrap().as_str().to_string();
    assert_eq!(
        buf.lines,
        vec![
            GemTextLine::H1("# Title".to_string()),
            GemTextLine::Line("".to_string()),
            GemTextLine::Link(1, "Link Text".to_string(), target),
            GemTextLine::Line("code line".to_string()),
            GemTextLine::Line("plain text".to_string()),
        ]
    );
    assert_eq!(buf.curr_line, 0);
}

#[test]
fn load_reports_body_length_and_sets_url_and_history() {
    let body = "hello";
    let (buf, hist, out, r) = load("text/gemini", Some(body), "gemini://example.com/", true);
    assert!(r.is_ok());
    let canon = url::Url::parse("gemini://example.com/").unwrap().as_str().to_string();
    assert_eq!(buf.url, Some(canon.clone()));
    assert_eq!(hist.entry, vec![canon]);
    assert_eq!(hist.curr_entry, 0);
    assert_eq!(out, vec!["5".to_string()]);
}

#[test]
fn load_without_history_append() {
    let (_, hist, _, r) = load("text/gemini", Some("x"), "gemini://example.com/", false);
    assert!(r.is_ok());
    assert!(hist.entry.is_empty());
}

#[test]
fn non_gemini_content_is_refused_without_mutation() {
    let (buf, hist, out, r) = load("image/png", Some("bytes"), "gemini://example.com/i.png", true);
    assert_eq!(r, Err("Unable to load page!"));
    assert!(buf.lines.is_empty());
    assert_eq!(buf.url, None);
    assert!(hist.entry.is_empty());
    assert_eq!(
        out,
        vec!["NOT GEMINI: gemini://example.com/i.png".to_string(), "image/png".to_string()]
    );
}

#[test]
fn missing_body_changes_nothing() {
    let (buf, hist, out, r) = load("text/gemini", None, "gemini://example.com/", true);
    assert!(r.is_ok());
    assert!(buf.lines.is_empty());
    assert!(hist.entry.is_empty());
    assert!(out.is_empty());
}

#[test]
fn relative_link_resolves_against_the_base() {
    let body = "=> sub/x label";
    let (buf, _, _, _) = load("text/gemini", Some(body), "gemini://example.com/dir/page.gmi", false);
    let expected = url::Url::parse("gemini://example.com/dir/page.gmi")
        .unwrap()
        .join("sub/x")
        .unwrap()
        .as_str()
        .to_string();
    assert_eq!(buf.lines, vec![GemTextLine::Link(1, "label".to_string(), expected)]);
}

#[test]
fn link_without_label_uses_the_target_as_label() {
    let body = "=> gemini://x.example/";
    let (buf, _, _, _) = load("text/gemini", Some(body), "gemini://example.com/", false);
    let canon = url::Url::parse("gemini://x.example/").unwrap().as_str().to_string();
    assert_eq!(
        buf.lines,
        vec![GemTextLine::Link(1, "gemini://x.example/".to_string(), canon)]
    );
}

#[test]
fn other_absolute_schemes_are_kept_as_written() {
    let body = "=> https://example.org/page label";
    let (buf, _, _, _) = load("text/gemini", Some(body), "gemini://example.com/", false);
    let canon = url::Url::parse("https://example.org/page").unwrap().as_str().to_string();
    assert_eq!(buf.lines, vec![GemTextLine::Link(1, "label".to_string(), canon)]);
}

#[test]
fn link_ids_count_up_and_skipped_links_leave_a_diagnostic() {
    let body = "=> gemini://a.example/ one\n=> \n=> gemini://b.example/ two";
    let (buf, _, out, _) = load("text/gemini", Some(body), "gemini://example.com/", false);
    match (&buf.lines[0], &buf.lines[1]) {
        (GemTextLine::Link(id1, l1, _), GemTextLine::Link(id2, l2, _)) => {
            assert_eq!((*id1, l1.as_str()), (1, "one"));
            assert_eq!((*id2, l2.as_str()), (2, "two"));
        }
        other => panic!("unexpected lines: {:?}", other),
    }
    assert_eq!(out, vec!["Unable to parse link: => ".to_string(), body.len().to_string()]);
}

#[test]
fn headings_get_blank_separators_once_content_exists() {
    let body = "intro\n## Section";
    let (buf, _, _, _) = load("text/gemini", Some(body), "gemini://example.com/", false);
    assert_eq!(
        buf.lines,
        vec![
            GemTextLine::Line("intro".to_string()),
            GemTextLine::Line("".to_string()),
            GemTextLine::H2("## Section".to_string()),
            GemTextLine::Line("".to_string()),
        ]
    );
}

#[test]
fn too_many_hashes_degrade_to_plain_text() {
    let body = "#### deep";
    let (buf, _, _, _) = load("text/gemini", Some(body), "gemini://example.com/", false);
    assert_eq!(buf.lines, vec![GemTextLine::Line("#### deep".to_string())]);
}

#[test]
fn unclosed_literal_block_runs_to_the_end() {
    let body = "```\nraw one\nraw two";
    let (buf, _, _, _) = load("text/gemini", Some(body), "gemini://example.com/", false);
    assert_eq!(
        buf.lines,
        vec![
            GemTextLine::Line("raw one".to_string()),
            GemTextLine::Line("raw two".to_string()),
        ]
    );
}

#[test]
fn markup_inside_a_literal_block_is_not_interpreted() {
    let body = "```\n# not a heading\n=> not/a link\n```";
    let (buf, _, _, _) = load("text/gemini", Some(body), "gemini://example.com/", false);
    assert_eq!(
        buf.lines,
        vec![
            GemTextLine::Line("# not a heading".to_string()),
            GemTextLine::Line("=> not/a link".to_string()),
        ]
    );
}

#[test]
fn loading_from_a_back_position_truncates_the_branch() {
    let mut buf = PageBuf::new();
    let mut hist = History::new();
    let mut out: Vec<String> = Vec::new();
    for url in ["gemini://a/", "gemini://b/", "gemini://c/"] {
        let _ = load_page("text/gemini", Some("x"), url, true, &mut buf, &mut hist, &mut out);
    }
    hist.curr_entry = 0;
    let _ = load_page("text/gemini", Some("x"), "gemini://d/", true, &mut buf, &mut hist, &mut out);
    assert_eq!(hist.entry, vec!["gemini://a/".to_string(), "gemini://d/".to_string()]);
    assert_eq!(hist.curr_entry, 1);
}

#[test]
fn bookmark_survives_a_load() {
    // a loaded page can be bookmarked and the stored URL is the canonical one
    let mut buf = PageBuf::new();
    let mut hist = History::new();
    let mut out: Vec<String> = Vec::new();
    let _ = load_page(
        "text/gemini",
        Some("x"),
        "gemini://example.com/",
        true,
        &mut buf,
        &mut hist,
        &mut out,
    );
    let mut marks = Bookmarks::new();
    let r = rei::marks::add_bookmark('m', &mut buf, &mut marks);
    assert!(r.is_ok());
    let canon = url::Url::parse("gemini://example.com/").unwrap().as_str().to_string();
    assert_eq!(marks.get('m'), Some(canon));
}

#[test]
fn a_line_of_hashes_alone_is_a_heading() {
    let (buf, _, _, _) = load("text/gemini", Some("##"), "gemini://example.com/", false);
    assert_eq!(
        buf.lines,
        vec![GemTextLine::H2("##".to_string()), GemTextLine::Line("".to_string())]
    );
}

#[test]
fn link_marker_without_whitespace_is_skipped() {
    let (buf, _, out, _) = load("text/gemini", Some("=>x"), "gemini://example.com/", false);
    assert!(buf.lines.is_empty());
    assert_eq!(out[0], "Unable to parse link: =>x".to_string());
}

#[test]
fn a_trailing_line_break_yields_a_final_empty_line() {
    let (buf, _, _, _) = load("text/gemini", Some("a\n"), "gemini://example.com/", false);
    assert_eq!(
        buf.lines,
        vec![GemTextLine::Line("a".to_string()), GemTextLine::Line("".to_string())]
    );
}
