use rei::exec::{execute_command, ExecAction};
use rei::marks::Bookmarks;
use rei::{GemTextLine, History, PageBuf, ParseResponse};

fn buffer_with(lines: Vec<GemTextLine>, cursor: usize) -> PageBuf {
    let mut buf = PageBuf::new();
    buf.lines = lines;
    buf.curr_line = cursor;
    buf
}

fn plain(text: &str) -> GemTextLine {
    GemTextLine::Line(text.to_string())
}

fn run(cmd: ParseResponse, buf: &mut PageBuf, hist: &mut History) -> (Vec<String>, ExecAction) {
    let mut marks = Bookmarks::new();
    let mut out: Vec<String> = Vec::new();
    let act = execute_command(cmd, buf, hist, &mut marks, &mut out);
    (out, act)
}

#[test]
fn print_range_past_end_collapses_to_last_line() {
    let mut buf = buffer_with(vec![plain("a"), plain("b"), plain("c")], 0);
    let mut hist = History::new();
    let (out, act) = run(
        ParseResponse::Print { use_range: true, start: 10, stop: 20 },
        &mut buf,
        &mut hist,
    );
    assert_eq!(act, ExecAction::Continue);
    assert_eq!(out, vec!["c".to_string()]);
    assert_eq!(buf.curr_line, 2);
}

#[test]
fn print_range_clamps_stop() {
    let mut buf = buffer_with(vec![plain("a"), plain("b"), plain("c")], 0);
    let mut hist = History::new();
    let (out, _) = run(
        ParseResponse::Print { use_range: true, start: 1, stop: 9 },
        &mut buf,
        &mut hist,
    );
    assert_eq!(out, vec!["b".to_string(), "c".to_string()]);
    assert_eq!(buf.curr_line, 2);
}

#[test]
fn print_on_empty_buffer_is_a_no_op() {
    let mut buf = PageBuf::new();
    let mut hist = History::new();
    let (out, act) = run(
        ParseResponse::Print { use_range: true, start: 0, stop: 5 },
        &mut buf,
        &mut hist,
    );
    assert_eq!(act, ExecAction::Continue);
    assert!(out.is_empty());
    assert_eq!(buf.curr_line, 0);
}

#[test]
fn empty_command_prints_cursor_line_and_advances() {
    let mut buf = buffer_with(vec![plain("a"), plain("b"), plain("c")], 1);
    let mut hist = History::new();
    let (out, _) = run(ParseResponse::Empty, &mut buf, &mut hist);
    assert_eq!(out, vec!["b".to_string()]);
    assert_eq!(buf.curr_line, 2);
    let (out2, _) = run(ParseResponse::Empty, &mut buf, &mut hist);
    assert_eq!(out2, vec!["c".to_string()]);
    assert_eq!(buf.curr_line, 2);
}

#[test]
fn enumerate_prefixes_one_based_numbers() {
    let mut buf = buffer_with(vec![plain("a"), plain("b")], 0);
    let mut hist = History::new();
    let (out, _) = run(
        ParseResponse::Enumerate { use_range: true, start: 0, stop: 1 },
        &mut buf,
        &mut hist,
    );
    assert_eq!(out, vec!["1\ta".to_string(), "2\tb".to_string()]);
}

#[test]
fn page_prints_from_cursor() {
    let mut buf = buffer_with(vec![plain("a"), plain("b"), plain("c"), plain("d")], 1);
    let mut hist = History::new();
    let (out, _) = run(ParseResponse::Page(1), &mut buf, &mut hist);
    assert_eq!(out, vec!["b".to_string(), "c".to_string()]);
    assert_eq!(buf.curr_line, 2);
}

#[test]
fn jump_to_line_in_bounds() {
    let mut buf = buffer_with(vec![plain("a"), plain("b"), plain("c")], 0);
    let mut hist = History::new();
    let (out, _) = run(ParseResponse::JumpToLine(2), &mut buf, &mut hist);
    assert_eq!(out, vec!["c".to_string()]);
    assert_eq!(buf.curr_line, 2);
}

#[test]
fn jump_to_line_out_of_bounds_reports_marker() {
    let mut buf = buffer_with(vec![plain("a")], 0);
    let mut hist = History::new();
    let (out, _) = run(ParseResponse::JumpToLine(1), &mut buf, &mut hist);
    assert_eq!(out, vec!["?".to_string()]);
    assert_eq!(buf.curr_line, 0);
}

#[test]
fn link_lines_render_with_id_and_label() {
    let link = GemTextLine::Link(2, "label".to_string(), "gemini://x/".to_string());
    let mut buf = buffer_with(vec![link], 0);
    let mut hist = History::new();
    let (out, _) = run(ParseResponse::JumpToLine(0), &mut buf, &mut hist);
    assert_eq!(out, vec!["[2] => label".to_string()]);
}

#[test]
fn history_add_truncates_forward_branch() {
    let mut hist = History::new();
    hist.add("gemini://a/");
    hist.add("gemini://b/");
    hist.add("gemini://c/");
    hist.curr_entry = 0;
    hist.add("gemini://d/");
    assert_eq!(hist.entry, vec!["gemini://a/".to_string(), "gemini://d/".to_string()]);
    assert_eq!(hist.curr_entry, 1);
}

#[test]
fn go_back_at_start_is_a_no_op() {
    let mut buf = buffer_with(vec![plain("a")], 0);
    let mut hist = History::new();
    hist.add("gemini://a/");
    hist.add("gemini://b/");
    hist.curr_entry = 0;
    let (out, act) = run(ParseResponse::GoBack(5), &mut buf, &mut hist);
    assert_eq!(act, ExecAction::Continue);
    assert!(out.is_empty());
    assert_eq!(hist.curr_entry, 0);
    assert_eq!(hist.entry.len(), 2);
    assert_eq!(buf.lines.len(), 1);
    assert_eq!(buf.curr_line, 0);
}

#[test]
fn go_back_with_single_entry_is_a_no_op() {
    let mut buf = PageBuf::new();
    let mut hist = History::new();
    hist.add("gemini://a/");
    let (out, act) = run(ParseResponse::GoBack(1), &mut buf, &mut hist);
    assert_eq!(act, ExecAction::Continue);
    assert!(out.is_empty());
    assert_eq!(hist.curr_entry, 0);
}

#[test]
fn go_back_moves_and_fetches_without_appending() {
    let mut buf = PageBuf::new();
    let mut hist = History::new();
    hist.add("gemini://a/");
    hist.add("gemini://b/");
    hist.add("gemini://c/");
    let (_, act) = run(ParseResponse::GoBack(2), &mut buf, &mut hist);
    assert_eq!(hist.curr_entry, 0);
    assert_eq!(
        act,
        ExecAction::Fetch { url: "gemini://a/".to_string(), add_to_hist: false }
    );
}

#[test]
fn go_back_clamps_at_the_first_entry() {
    let mut buf = PageBuf::new();
    let mut hist = History::new();
    hist.add("gemini://a/");
    hist.add("gemini://b/");
    let (_, act) = run(ParseResponse::GoBack(9), &mut buf, &mut hist);
    assert_eq!(hist.curr_entry, 0);
    assert_eq!(
        act,
        ExecAction::Fetch { url: "gemini://a/".to_string(), add_to_hist: false }
    );
}

#[test]
fn go_forward_at_tail_is_a_no_op() {
    let mut buf = PageBuf::new();
    let mut hist = History::new();
    hist.add("gemini://a/");
    hist.add("gemini://b/");
    let (out, act) = run(ParseResponse::GoForward(1), &mut buf, &mut hist);
    assert_eq!(act, ExecAction::Continue);
    assert!(out.is_empty());
    assert_eq!(hist.curr_entry, 1);
}

#[test]
fn go_forward_moves_by_depth_clamped() {
    let mut buf = PageBuf::new();
    let mut hist = History::new();
    hist.add("gemini://a/");
    hist.add("gemini://b/");
    hist.add("gemini://c/");
    hist.curr_entry = 0;
    let (_, act) = run(ParseResponse::GoForward(9), &mut buf, &mut hist);
    assert_eq!(hist.curr_entry, 2);
    assert_eq!(
        act,
        ExecAction::Fetch { url: "gemini://c/".to_string(), add_to_hist: false }
    );
}

#[test]
fn follow_link_with_unknown_id_changes_nothing() {
    let link = GemTextLine::Link(1, "x".to_string(), "gemini://x/".to_string());
    let mut buf = buffer_with(vec![plain("a"), link, plain("b")], 2);
    let mut hist = History::new();
    hist.add("gemini://a/");
    let (out, act) = run(ParseResponse::FollowLink(9), &mut buf, &mut hist);
    assert_eq!(act, ExecAction::Continue);
    assert!(out.is_empty());
    assert_eq!(buf.curr_line, 2);
    assert_eq!(buf.lines.len(), 3);
    assert_eq!(hist.entry, vec!["gemini://a/".to_string()]);
    assert_eq!(hist.curr_entry, 0);
}

#[test]
fn follow_link_fetches_the_first_match() {
    let link1 = GemTextLine::Link(1, "x".to_string(), "gemini://x/".to_string());
    let link2 = GemTextLine::Link(2, "y".to_string(), "gemini://y/".to_string());
    let mut buf = buffer_with(vec![link1, link2], 0);
    let mut hist = History::new();
    let (_, act) = run(ParseResponse::FollowLink(2), &mut buf, &mut hist);
    assert_eq!(
        act,
        ExecAction::Fetch { url: "gemini://y/".to_string(), add_to_hist: true }
    );
}

#[test]
fn go_url_requests_a_fetch() {
    let mut buf = PageBuf::new();
    let mut hist = History::new();
    let (out, act) = run(
        ParseResponse::GoUrl("gemini://a/".to_string()),
        &mut buf,
        &mut hist,
    );
    assert!(out.is_empty());
    assert_eq!(
        act,
        ExecAction::Fetch { url: "gemini://a/".to_string(), add_to_hist: true }
    );
}

#[test]
fn history_listing_marks_current_position() {
    let mut buf = PageBuf::new();
    let mut hist = History::new();
    hist.add("gemini://a/");
    hist.add("gemini://b/");
    hist.curr_entry = 0;
    let (out, _) = run(ParseResponse::History(-1), &mut buf, &mut hist);
    assert_eq!(out, vec![">1\tgemini://a/".to_string(), "2\tgemini://b/".to_string()]);
}

#[test]
fn history_listing_with_positive_depth_shows_a_prefix() {
    let mut buf = PageBuf::new();
    let mut hist = History::new();
    hist.add("gemini://a/");
    hist.add("gemini://b/");
    hist.add("gemini://c/");
    let (out, _) = run(ParseResponse::History(2), &mut buf, &mut hist);
    assert_eq!(out, vec!["1\tgemini://a/".to_string(), "2\tgemini://b/".to_string()]);
}

#[test]
fn search_forwards_moves_cursor_to_first_match() {
    let mut buf = buffer_with(vec![plain("code"), plain("mode"), plain("core")], 1);
    let mut hist = History::new();
    let (out, _) = run(
        ParseResponse::SearchForwards("co.e".to_string()),
        &mut buf,
        &mut hist,
    );
    assert_eq!(out, vec!["core".to_string()]);
    assert_eq!(buf.curr_line, 2);
}

#[test]
fn search_forwards_without_match_keeps_cursor() {
    let mut buf = buffer_with(vec![plain("a"), plain("b")], 1);
    let mut hist = History::new();
    let (out, _) = run(
        ParseResponse::SearchForwards("zzz".to_string()),
        &mut buf,
        &mut hist,
    );
    assert_eq!(out, vec!["?".to_string()]);
    assert_eq!(buf.curr_line, 1);
}

#[test]
fn search_with_bad_pattern_reports_marker() {
    let mut buf = buffer_with(vec![plain("a")], 0);
    let mut hist = History::new();
    let (out, _) = run(
        ParseResponse::SearchForwards("(".to_string()),
        &mut buf,
        &mut hist,
    );
    assert_eq!(out, vec!["?".to_string()]);
    assert_eq!(buf.curr_line, 0);
}

#[test]
fn search_backwards_finds_nearest_earlier_match() {
    let mut buf = buffer_with(vec![plain("hit"), plain("miss"), plain("hit"), plain("end")], 3);
    let mut hist = History::new();
    let (out, _) = run(
        ParseResponse::SearchBackwards("hit".to_string()),
        &mut buf,
        &mut hist,
    );
    assert_eq!(out, vec!["hit".to_string()]);
    assert_eq!(buf.curr_line, 2);
}

#[test]
fn clear_emits_terminal_reset() {
    let mut buf = PageBuf::new();
    let mut hist = History::new();
    let (out, _) = run(ParseResponse::Clear, &mut buf, &mut hist);
    assert_eq!(out, vec!["\u{1b}c".to_string()]);
}

#[test]
fn invalid_reports_marker() {
    let mut buf = PageBuf::new();
    let mut hist = History::new();
    let (out, act) = run(ParseResponse::Invalid, &mut buf, &mut hist);
    assert_eq!(out, vec!["?".to_string()]);
    assert_eq!(act, ExecAction::Continue);
}

#[test]
fn quit_stops_the_session() {
    let mut buf = PageBuf::new();
    let mut hist = History::new();
    let (out, act) = run(ParseResponse::Quit, &mut buf, &mut hist);
    assert!(out.is_empty());
    assert_eq!(act, ExecAction::Quit);
}

#[test]
fn add_bookmark_stores_the_current_page() {
    let mut buf = PageBuf::new();
    buf.url = Some("gemini://here/".to_string());
    let mut hist = History::new();
    let mut marks = Bookmarks::new();
    let mut out: Vec<String> = Vec::new();
    let act = execute_command(
        ParseResponse::AddBookmark('a'),
        &mut buf,
        &mut hist,
        &mut marks,
        &mut out,
    );
    assert_eq!(act, ExecAction::Continue);
    assert!(out.is_empty());
    assert_eq!(marks.get('a'), Some("gemini://here/".to_string()));
}

#[test]
fn add_bookmark_without_page_fails() {
    let mut buf = PageBuf::new();
    let mut hist = History::new();
    let mut marks = Bookmarks::new();
    let mut out: Vec<String> = Vec::new();
    execute_command(
        ParseResponse::AddBookmark('a'),
        &mut buf,
        &mut hist,
        &mut marks,
        &mut out,
    );
    assert_eq!(out, vec!["FAILED TO ADD BOOKMARK".to_string()]);
    assert_eq!(marks.get('a'), None);
}

#[test]
fn go_bookmark_fetches_the_stored_url() {
    let mut buf = PageBuf::new();
    let mut hist = History::new();
    let mut marks = Bookmarks::new();
    marks.insert('a', "gemini://saved/".to_string());
    let mut out: Vec<String> = Vec::new();
    let act = execute_command(
        ParseResponse::GoBookmark('a'),
        &mut buf,
        &mut hist,
        &mut marks,
        &mut out,
    );
    let expected = url::Url::parse("gemini://saved/").unwrap();
    assert_eq!(
        act,
        ExecAction::Fetch { url: expected.as_str().to_string(), add_to_hist: true }
    );
    assert!(out.is_empty());
}

#[test]
fn go_bookmark_on_missing_key_reports_failure() {
    let mut buf = PageBuf::new();
    let mut hist = History::new();
    let mut marks = Bookmarks::new();
    let mut out: Vec<String> = Vec::new();
    let act = execute_command(
        ParseResponse::GoBookmark('z'),
        &mut buf,
        &mut hist,
        &mut marks,
        &mut out,
    );
    assert_eq!(act, ExecAction::Continue);
    assert_eq!(out, vec!["UNABLE TO GO TO BOOKMARK".to_string()]);
}
