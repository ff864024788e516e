//! Flows through parser and executor together, the way the session loop
//! drives them.
use rei::exec::{execute_command, ExecAction};
use rei::interface::parse_response;
use rei::marks::Bookmarks;
use rei::{GemTextLine, History, PageBuf};

fn plain(text: &str) -> GemTextLine {
    GemTextLine::Line(text.to_string())
}

fn run_line(line: &str, buf: &mut PageBuf, hist: &mut History) -> (Vec<String>, ExecAction) {
    let cmd = parse_response(line, buf).expect("line should parse");
    let mut marks = Bookmarks::new();
    let mut out: Vec<String> = Vec::new();
    let act = execute_command(cmd, buf, hist, &mut marks, &mut out);
    (out, act)
}

#[test]
fn whole_buffer_enumerate() {
    let mut buf = PageBuf::new();
    buf.lines = vec![plain("a"), plain("b")];
    let mut hist = History::new();
    let (out, _) = run_line("%n\n", &mut buf, &mut hist);
    assert_eq!(out, vec!["1\ta".to_string(), "2\tb".to_string()]);
    assert_eq!(buf.curr_line, 1);
}

#[test]
fn jump_then_print_range() {
    let mut buf = PageBuf::new();
    buf.lines = vec![plain("a"), plain("b"), plain("c"), plain("d")];
    let mut hist = History::new();
    let (out, _) = run_line("2\n", &mut buf, &mut hist);
    assert_eq!(out, vec!["b".to_string()]);
    assert_eq!(buf.curr_line, 1);
    let (out2, _) = run_line(".,+1p\n", &mut buf, &mut hist);
    assert_eq!(out2, vec!["b".to_string(), "c".to_string()]);
    assert_eq!(buf.curr_line, 2);
}

#[test]
fn page_of_zero_prints_the_cursor_line() {
    let mut buf = PageBuf::new();
    buf.lines = vec![plain("a"), plain("b")];
    buf.curr_line = 1;
    let mut hist = History::new();
    let (out, _) = run_line("z 0\n", &mut buf, &mut hist);
    assert_eq!(out, vec!["b".to_string()]);
}

#[test]
fn searches_include_the_cursor_line() {
    let mut buf = PageBuf::new();
    buf.lines = vec![plain("x"), plain("hit"), plain("y")];
    buf.curr_line = 1;
    let mut hist = History::new();
    let (out, _) = run_line("/hit/\n", &mut buf, &mut hist);
    assert_eq!(out, vec!["hit".to_string()]);
    assert_eq!(buf.curr_line, 1);
    let (out2, _) = run_line("?hit?\n", &mut buf, &mut hist);
    assert_eq!(out2, vec!["hit".to_string()]);
    assert_eq!(buf.curr_line, 1);
}

#[test]
fn quit_line_ends_the_session() {
    let mut buf = PageBuf::new();
    let mut hist = History::new();
    let (_, act) = run_line("q\n", &mut buf, &mut hist);
    assert_eq!(act, ExecAction::Quit);
}
