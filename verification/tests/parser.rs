use rei::interface::parse_response;
use rei::{GemTextLine, PageBuf, ParseResponse};

fn buffer_of(n: usize, cursor: usize) -> PageBuf {
    let mut buf = PageBuf::new();
    let mut i = 0;
    while i < n {
        buf.lines.push(GemTextLine::Line(format!("line {}", i + 1)));
        i += 1;
    }
    buf.curr_line = cursor;
    buf
}

#[test]
fn empty_line_is_empty_command() {
    let buf = buffer_of(10, 3);
    assert_eq!(parse_response("\n", &buf), Ok(ParseResponse::Empty));
    assert_eq!(parse_response("   \n", &buf), Ok(ParseResponse::Empty));
}

#[test]
fn bare_number_jumps() {
    let buf = buffer_of(10, 3);
    assert_eq!(parse_response("5\n", &buf), Ok(ParseResponse::JumpToLine(4)));
}

#[test]
fn bare_offsets_jump_relative_to_cursor() {
    let buf = buffer_of(10, 3);
    assert_eq!(parse_response("+2\n", &buf), Ok(ParseResponse::JumpToLine(5)));
    assert_eq!(parse_response("-2\n", &buf), Ok(ParseResponse::JumpToLine(1)));
    assert_eq!(parse_response("$\n", &buf), Ok(ParseResponse::JumpToLine(9)));
}

#[test]
fn number_and_letter_prints_one_line() {
    let buf = buffer_of(10, 3);
    assert_eq!(
        parse_response("5p\n", &buf),
        Ok(ParseResponse::Print { use_range: true, start: 4, stop: 4 })
    );
    assert_eq!(
        parse_response("+1n\n", &buf),
        Ok(ParseResponse::Enumerate { use_range: true, start: 4, stop: 4 })
    );
    assert_eq!(parse_response("5x\n", &buf), Ok(ParseResponse::Invalid));
}

#[test]
fn percent_means_whole_buffer() {
    let buf = buffer_of(10, 3);
    assert_eq!(
        parse_response("%p\n", &buf),
        Ok(ParseResponse::Print { use_range: true, start: 0, stop: 10 })
    );
    assert_eq!(
        parse_response("%n\n", &buf),
        Ok(ParseResponse::Enumerate { use_range: true, start: 0, stop: 10 })
    );
    assert_eq!(parse_response("%q\n", &buf), Ok(ParseResponse::Invalid));
}

#[test]
fn range_and_letter() {
    let buf = buffer_of(10, 3);
    assert_eq!(
        parse_response("1,3p\n", &buf),
        Ok(ParseResponse::Print { use_range: true, start: 0, stop: 2 })
    );
    assert_eq!(
        parse_response(".,$n\n", &buf),
        Ok(ParseResponse::Enumerate { use_range: true, start: 3, stop: 9 })
    );
}

#[test]
fn backwards_range_is_coerced_up() {
    let buf = buffer_of(10, 3);
    assert_eq!(
        parse_response("3,1p\n", &buf),
        Ok(ParseResponse::Print { use_range: true, start: 2, stop: 2 })
    );
}

#[test]
fn bare_letters() {
    let buf = buffer_of(10, 3);
    assert_eq!(
        parse_response("p\n", &buf),
        Ok(ParseResponse::Print { use_range: true, start: 3, stop: 3 })
    );
    assert_eq!(
        parse_response("n\n", &buf),
        Ok(ParseResponse::Enumerate { use_range: true, start: 3, stop: 3 })
    );
    assert_eq!(parse_response("z\n", &buf), Ok(ParseResponse::Page(24)));
    assert_eq!(parse_response("q\n", &buf), Ok(ParseResponse::Quit));
    assert_eq!(parse_response("b\n", &buf), Ok(ParseResponse::GoBack(1)));
    assert_eq!(parse_response("f\n", &buf), Ok(ParseResponse::GoForward(1)));
    assert_eq!(parse_response("h\n", &buf), Ok(ParseResponse::History(-1)));
    assert_eq!(parse_response("c\n", &buf), Ok(ParseResponse::Clear));
    assert_eq!(parse_response("xy\n", &buf), Ok(ParseResponse::Invalid));
}

#[test]
fn go_command_prefixes_scheme() {
    let buf = buffer_of(0, 0);
    let expected = url::Url::parse("gemini://example.com").unwrap();
    assert_eq!(
        parse_response("g example.com\n", &buf),
        Ok(ParseResponse::GoUrl(expected.as_str().to_string()))
    );
}

#[test]
fn go_command_keeps_scheme() {
    let buf = buffer_of(0, 0);
    let expected = url::Url::parse("gemini://example.com/a/b").unwrap();
    assert_eq!(
        parse_response("g gemini://example.com/a/b\n", &buf),
        Ok(ParseResponse::GoUrl(expected.as_str().to_string()))
    );
}

#[test]
fn go_command_rejects_unparseable_url() {
    let buf = buffer_of(0, 0);
    // the port is not a number, so the URL cannot be parsed
    assert_eq!(
        parse_response("g example.com:x9\n", &buf),
        Err("Unable to parse URL.")
    );
}

#[test]
fn link_command() {
    let buf = buffer_of(0, 0);
    assert_eq!(parse_response("l 3\n", &buf), Ok(ParseResponse::FollowLink(3)));
    assert_eq!(parse_response("l abc\n", &buf), Err("Invalid link id."));
}

#[test]
fn page_depth_and_history_arguments() {
    let buf = buffer_of(0, 0);
    assert_eq!(parse_response("z 10\n", &buf), Ok(ParseResponse::Page(10)));
    assert_eq!(parse_response("z xx\n", &buf), Ok(ParseResponse::Page(24)));
    assert_eq!(parse_response("b 2\n", &buf), Ok(ParseResponse::GoBack(2)));
    assert_eq!(parse_response("b xx\n", &buf), Ok(ParseResponse::GoBack(1)));
    assert_eq!(parse_response("f 3\n", &buf), Ok(ParseResponse::GoForward(3)));
    assert_eq!(parse_response("f -1\n", &buf), Ok(ParseResponse::GoForward(1)));
    assert_eq!(parse_response("h 2\n", &buf), Ok(ParseResponse::History(2)));
    assert_eq!(parse_response("h -4\n", &buf), Ok(ParseResponse::History(-4)));
    assert_eq!(parse_response("h xx\n", &buf), Ok(ParseResponse::History(-1)));
}

#[test]
fn search_commands() {
    let buf = buffer_of(0, 0);
    assert_eq!(
        parse_response("/abc/\n", &buf),
        Ok(ParseResponse::SearchForwards("abc".to_string()))
    );
    assert_eq!(
        parse_response("?abc?\n", &buf),
        Ok(ParseResponse::SearchBackwards("abc".to_string()))
    );
    assert_eq!(
        parse_response("/x?\n", &buf),
        Ok(ParseResponse::SearchForwards("x".to_string()))
    );
}

#[test]
fn unrecognized_input_is_invalid() {
    let buf = buffer_of(0, 0);
    assert_eq!(parse_response("!!\n", &buf), Ok(ParseResponse::Invalid));
    assert_eq!(parse_response("1 2 3\n", &buf), Ok(ParseResponse::Invalid));
}
