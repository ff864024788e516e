//! The command executor: for each command, the pure buffer operations it
//! performs, the lines it emits, and — for the navigating commands — the
//! URL the session loop must fetch next. The loop around it does the
//! fetching and hands the response back to `load_page`.
use crate::patterns::{pattern_matches, pattern_ok, regex_is_match};
use crate::text::{
    chars_vec, dec_str, has_prefix, is_lower, is_lower_char, skip_spaces, skip_spaces_from,
    spec_has_prefix, spec_split, split_chars, string_from_chars, subrange_chars, token_end,
    token_end_from, usize_to_string,
};
use crate::marks::{add_bookmark, go_to_bookmark, Bookmarks};
use crate::urls::{join_url, parse_url, url_canon, url_join_ok, url_joined, url_ok};
use crate::{GemTextLine, History, PageBuf, ParseResponse, SpecLine, StrResult};
use vstd::prelude::*;
use vstd::string::*;

verus! {

/// What the session loop must do after a command has executed: read the
/// next command, stop, or fetch a URL and hand the response to
/// `load_page`.
#[derive(Debug, PartialEq)]
pub enum ExecAction {
    Continue,
    Quit,
    Fetch { url: String, add_to_hist: bool },
}

/// Renders one line for printing.
pub fn render_gemtext_line(line: &GemTextLine) -> (r: String)
    ensures
        r@ == line@.rendered(),
{
    match line {
        GemTextLine::H1(s) => s.clone(),
        GemTextLine::H2(s) => s.clone(),
        GemTextLine::H3(s) => s.clone(),
        GemTextLine::Link(id, label, _) => {
            let mut r = String::from_str("[");
            let num = usize_to_string(*id);
            r.append(num.as_str());
            r.append("] => ");
            r.append(label.as_str());
            proof {
                reveal_strlit("[");
                reveal_strlit("] => ");
                assert(r@ =~= line@.rendered());
            }
            r
        },
        GemTextLine::Line(s) => s.clone(),
    }
}

/// The text printed for line `idx`: the enumerating commands prefix the
/// 1-based line number and a tab.
pub open spec fn spec_print_line(en: bool, idx: int, l: SpecLine) -> Seq<char> {
    if en {
        dec_str((idx + 1) as nat) + seq!['\t'] + l.rendered()
    } else {
        l.rendered()
    }
}

/// The lines printed for the inclusive range `s..=e`; empty when `s > e`.
pub open spec fn spec_print_range(en: bool, lines: Seq<SpecLine>, s: int, e: int) -> Seq<Seq<char>>
    decreases e - s + 1,
{
    if s > e {
        Seq::empty()
    } else {
        spec_print_range(en, lines, s, e - 1).push(spec_print_line(en, e, lines[e]))
    }
}

/// The effective inclusive range of a ranged print over a buffer of `len`
/// lines: clamped into the buffer, and an out-of-bounds start collapsing
/// the range to the last line alone.
pub open spec fn spec_clamp_range(len: int, start: int, stop: int) -> (int, int) {
    if start >= len {
        (len - 1, len - 1)
    } else {
        (start, if stop >= len { len - 1 } else { stop })
    }
}

/// The executed print never reaches outside the buffer: both ends of the
/// effective range lie on existing lines.
pub proof fn lemma_print_range_in_bounds(len: int, start: int, stop: int)
    requires
        len >= 1,
        0 <= start,
        0 <= stop,
    ensures
        0 <= spec_clamp_range(len, start, stop).0 < len,
        0 <= spec_clamp_range(len, start, stop).1 < len,
{
}

/// A requested range whose start lies past the buffer collapses to the
/// last line alone, whatever the stop.
pub proof fn lemma_out_of_bounds_start_collapses(len: int, start: int, stop: int)
    requires
        len >= 1,
        start >= len,
    ensures
        spec_clamp_range(len, start, stop) == (len - 1, len - 1),
{
}

/// The print parameters a command carries: enumerating or not, whether a
/// range was requested, and its endpoints.
pub open spec fn print_cmd_parts(cmd: ParseResponse) -> (bool, bool, int, int) {
    match cmd {
        ParseResponse::Print { use_range, start, stop } => (false, use_range, start as int, stop as int),
        ParseResponse::Enumerate { use_range, start, stop } => (true, use_range, start as int, stop as int),
        _ => (false, false, 0, 0),
    }
}

fn print_line_text(en: bool, idx: usize, line: &GemTextLine) -> (r: String)
    requires
        idx < usize::MAX,
    ensures
        r@ == spec_print_line(en, idx as int, line@),
{
    let rendered = render_gemtext_line(line);
    if en {
        let mut t = usize_to_string(idx + 1);
        t.append("\t");
        t.append(rendered.as_str());
        proof {
            reveal_strlit("\t");
            assert(t@ =~= spec_print_line(en, idx as int, line@));
        }
        t
    } else {
        rendered
    }
}

/// Prints one line or a range of lines. Without a range: emits the line
/// at the cursor and advances the cursor by one, clamped to the last
/// line; a no-op on an empty buffer. With a range: clamps it into the
/// buffer, emits each line in it, and leaves the cursor on the range's
/// end. Never reads outside the buffer.
pub fn print_with_args(cmd: &ParseResponse, buf: &mut PageBuf, out: &mut Vec<String>)
    requires
        old(buf).wf(),
        *cmd matches ParseResponse::Print { .. } || *cmd matches ParseResponse::Enumerate { .. },
    ensures
        final(buf).wf(),
        final(buf).lines == old(buf).lines,
        final(buf).url == old(buf).url,
        ({
            let parts = print_cmd_parts(*cmd);
            let en = parts.0;
            let use_range = parts.1;
            let lines = old(buf).lines.deep_view();
            let len = lines.len() as int;
            let cur = old(buf).curr_line as int;
            if len == 0 {
                final(buf).curr_line == old(buf).curr_line && final(out)@ == old(out)@
            } else if !use_range {
                final(out).deep_view() == old(out).deep_view().push(
                    spec_print_line(en, cur, lines[cur]),
                ) && final(buf).curr_line == (if cur + 1 < len {
                    cur + 1
                } else {
                    len - 1
                })
            } else {
                let se = spec_clamp_range(len, parts.2, parts.3);
                final(out).deep_view() == old(out).deep_view() + spec_print_range(
                    en,
                    lines,
                    se.0,
                    se.1,
                ) && final(buf).curr_line == se.1
            }
        }),
{
    let ghost lines = buf.lines.deep_view();
    let en = match cmd {
        ParseResponse::Enumerate { .. } => true,
        _ => false,
    };
    let (use_range, start, stop) = match cmd {
        ParseResponse::Print { use_range, start, stop } => (*use_range, *start, *stop),
        ParseResponse::Enumerate { use_range, start, stop } => (*use_range, *start, *stop),
        _ => (false, 0, 0),
    };
    let len = buf.lines.len();
    if len == 0 {
        return ;
    }
    if !use_range {
        let cur = buf.curr_line;
        let text = print_line_text(en, cur, &buf.lines[cur]);
        out.push(text);
        proof {
            assert(out.deep_view() =~~= old(out).deep_view().push(
                spec_print_line(en, cur as int, lines[cur as int]),
            ));
        }
        if cur + 1 < len {
            buf.curr_line = cur + 1;
        } else {
            buf.curr_line = len - 1;
        }
    } else {
        let (s, stop2) = if start >= len {
            (len - 1, len)
        } else {
            (start, stop)
        };
        let e = if stop2 >= len {
            len - 1
        } else {
            stop2
        };
        let ghost out0 = old(out).deep_view();
        if s <= e {
            let mut i: usize = s;
            proof {
                assert(out.deep_view() =~~= out0 + spec_print_range(en, lines, s as int, i - 1));
            }
            while i <= e
                invariant
                    s <= i <= e + 1,
                    e < len == lines.len(),
                    len == buf.lines@.len(),
                    lines == buf.lines.deep_view(),
                    out.deep_view() == out0 + spec_print_range(en, lines, s as int, i - 1),
                decreases e + 1 - i,
            {
                let text = print_line_text(en, i, &buf.lines[i]);
                let ghost prev = out.deep_view();
                let ghost tv = text@;
                out.push(text);
                proof {
                    assert(lines[i as int] == buf.lines@[i as int]@);
                    assert(tv == spec_print_line(en, i as int, lines[i as int]));
                    assert(out.deep_view() =~~= prev.push(tv));
                    assert(spec_print_range(en, lines, s as int, i as int) == spec_print_range(
                        en,
                        lines,
                        s as int,
                        i - 1,
                    ).push(spec_print_line(en, i as int, lines[i as int])));
                    assert(out.deep_view() =~~= out0 + spec_print_range(
                        en,
                        lines,
                        s as int,
                        i as int,
                    ));
                }
                i += 1;
            }
        } else {
            proof {
                assert(out.deep_view() =~~= out0 + spec_print_range(en, lines, s as int, e as int));
            }
        }
        buf.curr_line = e;
    }
}

/// The first index at or after `i` whose line's visible text the pattern
/// matches, or the line count when none does.
pub open spec fn first_match_from(pat: Seq<char>, lines: Seq<SpecLine>, i: int) -> int
    decreases lines.len() - i,
{
    if !(0 <= i < lines.len()) {
        lines.len() as int
    } else if pattern_matches(pat, lines[i].visible_text()) {
        i
    } else {
        first_match_from(pat, lines, i + 1)
    }
}

/// The last index at or before `i` whose line's visible text the pattern
/// matches, or `-1` when none does.
pub open spec fn first_match_down(pat: Seq<char>, lines: Seq<SpecLine>, i: int) -> int
    decreases i + 1,
{
    if !(0 <= i < lines.len()) {
        -1
    } else if pattern_matches(pat, lines[i].visible_text()) {
        i
    } else {
        first_match_down(pat, lines, i - 1)
    }
}

fn visible_text_of(line: &GemTextLine) -> (r: &String)
    ensures
        r@ == line@.visible_text(),
{
    match line {
        GemTextLine::H1(s) => s,
        GemTextLine::H2(s) => s,
        GemTextLine::H3(s) => s,
        GemTextLine::Link(_, label, _) => label,
        GemTextLine::Line(s) => s,
    }
}

/// Searches forward from the cursor, the cursor's own line included. On
/// the first line whose visible text the pattern matches, the cursor
/// moves there and the line is emitted; with no match, a pattern that
/// does not compile, or an empty buffer, the cursor stays and the error
/// marker is emitted.
pub fn search_forwards(pat: &str, buf: &mut PageBuf, out: &mut Vec<String>)
    requires
        old(buf).wf(),
    ensures
        final(buf).wf(),
        final(buf).lines == old(buf).lines,
        final(buf).url == old(buf).url,
        ({
            let lines = old(buf).lines.deep_view();
            let cur = old(buf).curr_line as int;
            let m = first_match_from(pat@, lines, cur);
            if pattern_ok(pat@) && m < lines.len() {
                final(buf).curr_line == m && final(out).deep_view() == old(
                    out,
                ).deep_view().push(lines[m].rendered())
            } else {
                final(buf).curr_line == old(buf).curr_line && final(out).deep_view() == old(
                    out,
                ).deep_view().push("?"@)
            }
        }),
{
    let ghost lines = buf.lines.deep_view();
    let len = buf.lines.len();
    let cur = buf.curr_line;
    let mut i: usize = cur;
    while i < len
        invariant
            cur == old(buf).curr_line,
            lines == old(buf).lines.deep_view(),
            cur <= i <= len,
            len == buf.lines@.len(),
            lines == buf.lines.deep_view(),
            *buf == *old(buf),
            out@ == old(out)@,
            first_match_from(pat@, lines, cur as int) == first_match_from(pat@, lines, i as int),
        ensures
            cur == old(buf).curr_line,
            lines == old(buf).lines.deep_view(),
            *buf == *old(buf),
            out@ == old(out)@,
            !(pattern_ok(pat@) && first_match_from(pat@, lines, cur as int) < lines.len()),
        decreases len - i,
    {
        let text = visible_text_of(&buf.lines[i]);
        match regex_is_match(pat, text.as_str()) {
            Some(true) => {
                proof {
                    assert(lines[i as int] == buf.lines@[i as int]@);
                    assert(first_match_from(pat@, lines, i as int) == i);
                }
                buf.curr_line = i;
                let line = render_gemtext_line(&buf.lines[i]);
                let ghost prev = out.deep_view();
                let ghost tv = line@;
                out.push(line);
                proof {
                    assert(out.deep_view() =~~= prev.push(tv));
                    assert(out.deep_view() =~~= old(out).deep_view().push(
                        lines[i as int].rendered(),
                    ));
                }
                return ;
            },
            Some(false) => {
                proof {
                    assert(lines[i as int] == buf.lines@[i as int]@);
                }
            },
            None => {
                break ;
            },
        }
        i += 1;
    }
    let marker = String::from_str("?");
    let ghost prev = out.deep_view();
    let ghost tv = marker@;
    out.push(marker);
    proof {
        assert(out.deep_view() =~~= prev.push(tv));
        assert(out.deep_view() =~~= old(out).deep_view().push("?"@));
    }
}

/// Searches backward from the cursor, the cursor's own line included,
/// down to the first line. The same outcomes as `search_forwards`.
pub fn search_backwards(pat: &str, buf: &mut PageBuf, out: &mut Vec<String>)
    requires
        old(buf).wf(),
    ensures
        final(buf).wf(),
        final(buf).lines == old(buf).lines,
        final(buf).url == old(buf).url,
        ({
            let lines = old(buf).lines.deep_view();
            let cur = old(buf).curr_line as int;
            let m = first_match_down(pat@, lines, cur);
            if pattern_ok(pat@) && m >= 0 {
                final(buf).curr_line == m && final(out).deep_view() == old(
                    out,
                ).deep_view().push(lines[m].rendered())
            } else {
                final(buf).curr_line == old(buf).curr_line && final(out).deep_view() == old(
                    out,
                ).deep_view().push("?"@)
            }
        }),
{
    let ghost lines = buf.lines.deep_view();
    let len = buf.lines.len();
    let cur = buf.curr_line;
    if len > 0 {
        let mut i: usize = cur;
        loop
            invariant
                cur == old(buf).curr_line,
                lines == old(buf).lines.deep_view(),
                i <= cur < len,
                len == buf.lines@.len(),
                lines == buf.lines.deep_view(),
                *buf == *old(buf),
                out@ == old(out)@,
                first_match_down(pat@, lines, cur as int) == first_match_down(
                    pat@,
                    lines,
                    i as int,
                ),
            ensures
                cur == old(buf).curr_line,
                lines == old(buf).lines.deep_view(),
                *buf == *old(buf),
                out@ == old(out)@,
                !(pattern_ok(pat@) && first_match_down(pat@, lines, cur as int) >= 0),
            decreases i,
        {
            let text = visible_text_of(&buf.lines[i]);
            match regex_is_match(pat, text.as_str()) {
                Some(true) => {
                    proof {
                        assert(lines[i as int] == buf.lines@[i as int]@);
                        assert(first_match_down(pat@, lines, i as int) == i);
                    }
                    buf.curr_line = i;
                    let line = render_gemtext_line(&buf.lines[i]);
                    let ghost prev = out.deep_view();
                    let ghost tv = line@;
                    out.push(line);
                    proof {
                        assert(out.deep_view() =~~= prev.push(tv));
                        assert(out.deep_view() =~~= old(out).deep_view().push(
                            lines[i as int].rendered(),
                        ));
                    }
                    return ;
                },
                Some(false) => {
                    proof {
                        assert(lines[i as int] == buf.lines@[i as int]@);
                    }
                    if i == 0 {
                        proof {
                            assert(first_match_down(pat@, lines, 0) == first_match_down(
                                pat@,
                                lines,
                                -1,
                            ));
                            assert(first_match_down(pat@, lines, -1) == -1);
                        }
                        break ;
                    }
                    i -= 1;
                },
                None => {
                    break ;
                },
            }
        }
    }
    let marker = String::from_str("?");
    let ghost prev = out.deep_view();
    let ghost tv = marker@;
    out.push(marker);
    proof {
        assert(out.deep_view() =~~= prev.push(tv));
        assert(out.deep_view() =~~= old(out).deep_view().push("?"@));
    }
}

/// One history listing line: 1-based index, a tab, the URL; the current
/// position is flagged with a leading `>`.
pub open spec fn spec_history_line(urls: Seq<Seq<char>>, pos: int, i: int) -> Seq<char> {
    (if i == pos {
        seq!['>']
    } else {
        Seq::empty()
    }) + dec_str((i + 1) as nat) + seq!['\t'] + urls[i]
}

/// The history listing of the first `n` entries.
pub open spec fn spec_history_lines(urls: Seq<Seq<char>>, pos: int, n: int) -> Seq<Seq<char>>
    decreases n,
{
    if n <= 0 {
        Seq::empty()
    } else {
        spec_history_lines(urls, pos, n - 1).push(spec_history_line(urls, pos, n - 1))
    }
}

/// Lists history entries: all of them when `depth` is zero or less, else
/// the first `depth`.
pub fn list_history(hist: &History, depth: isize, out: &mut Vec<String>)
    ensures
        ({
            let len = hist.urls().len() as int;
            let n = if depth <= 0 {
                len
            } else if depth as int <= len {
                depth as int
            } else {
                len
            };
            final(out).deep_view() == old(out).deep_view() + spec_history_lines(
                hist.urls(),
                hist.curr_entry as int,
                n,
            )
        }),
{
    let len = hist.entry.len();
    let n: usize = if depth <= 0 {
        len
    } else {
        let d = depth as usize;
        if d <= len {
            d
        } else {
            len
        }
    };
    let ghost out0 = old(out).deep_view();
    let mut i: usize = 0;
    proof {
        assert(out.deep_view() =~~= out0 + spec_history_lines(
            hist.urls(),
            hist.curr_entry as int,
            0,
        ));
    }
    while i < n
        invariant
            i <= n <= hist.entry@.len(),
            out.deep_view() == out0 + spec_history_lines(hist.urls(), hist.curr_entry as int, i as int),
        decreases n - i,
    {
        let num = usize_to_string(i + 1);
        let mut t = if i == hist.curr_entry {
            let mut m = String::from_str(">");
            m.append(num.as_str());
            m
        } else {
            num
        };
        t.append("\t");
        t.append(hist.entry[i].as_str());
        proof {
            reveal_strlit(">");
            reveal_strlit("\t");
            assert(hist.entry@[i as int]@ == hist.urls()[i as int]);
            assert(t@ =~= spec_history_line(hist.urls(), hist.curr_entry as int, i as int));
        }
        let ghost prev = out.deep_view();
        let ghost tv = t@;
        out.push(t);
        proof {
            assert(out.deep_view() =~~= prev.push(tv));
            assert(spec_history_lines(hist.urls(), hist.curr_entry as int, i + 1)
                == spec_history_lines(hist.urls(), hist.curr_entry as int, i as int).push(
                spec_history_line(hist.urls(), hist.curr_entry as int, i as int),
            ));
            assert(out.deep_view() =~~= out0 + spec_history_lines(
                hist.urls(),
                hist.curr_entry as int,
                i + 1,
            ));
        }
        i += 1;
    }
}


/// The number of leading `#` characters.
pub open spec fn hash_run(l: Seq<char>) -> int
    decreases l.len(),
{
    if l.len() == 0 || l[0] != '#' {
        0
    } else {
        1 + hash_run(l.drop_first())
    }
}

proof fn lemma_hash_run_at(l: Seq<char>, k: int)
    requires
        0 <= k <= l.len(),
        forall|j: int| 0 <= j < k ==> l[j] == '#',
        k < l.len() ==> l[k] != '#',
    ensures
        hash_run(l) == k,
    decreases k,
{
    if k == 0 {
    } else {
        lemma_hash_run_at(l.drop_first(), k - 1);
    }
}

/// The heading a `#`-line denotes: a heading of the depth the leading
/// `#` run gives, or a plain line when the run is longer than three.
pub open spec fn spec_header_line(l: Seq<char>) -> SpecLine {
    let h = hash_run(l);
    if h == 1 {
        SpecLine::H1(l)
    } else if h == 2 {
        SpecLine::H2(l)
    } else if h == 3 {
        SpecLine::H3(l)
    } else {
        SpecLine::Line(l)
    }
}

/// Classifies a heading line by its leading `#` run; more than three
/// degrade the line to plain text. The line keeps its full text.
pub fn parse_gemtext_header(line: &Vec<char>) -> (r: GemTextLine)
    ensures
        r@ == spec_header_line(line@),
{
    let n = line.len();
    let mut k: usize = 0;
    while k < n && line[k] == '#'
        invariant
            k <= n,
            n == line@.len(),
            forall|j: int| 0 <= j < k ==> line@[j] == '#',
        decreases n - k,
    {
        k += 1;
    }
    proof {
        lemma_hash_run_at(line@, k as int);
    }
    let text = string_from_chars(line);
    if k == 1 {
        GemTextLine::H1(text)
    } else if k == 2 {
        GemTextLine::H2(text)
    } else if k == 3 {
        GemTextLine::H3(text)
    } else {
        GemTextLine::Line(text)
    }
}

/// The length of the leading run of lowercase letters.
pub open spec fn lower_end(t: Seq<char>) -> int
    decreases t.len(),
{
    if t.len() == 0 || !is_lower_char(t[0]) {
        0
    } else {
        1 + lower_end(t.drop_first())
    }
}

proof fn lemma_lower_end_at(t: Seq<char>, k: int)
    requires
        0 <= k <= t.len(),
        forall|j: int| 0 <= j < k ==> is_lower_char(#[trigger] t[j]),
        k < t.len() ==> !is_lower_char(t[k]),
    ensures
        lower_end(t) == k,
    decreases k,
{
    if k == 0 {
    } else {
        lemma_lower_end_at(t.drop_first(), k - 1);
    }
}

/// The token opens with a scheme: one or more lowercase letters, then
/// `://`.
pub open spec fn spec_has_scheme(t: Seq<char>) -> bool {
    let k = lower_end(t);
    k >= 1 && t.len() >= k + 3 && t[k] == ':' && t[k + 1] == '/' && t[k + 2] == '/'
}

fn has_scheme(t: &Vec<char>) -> (r: bool)
    ensures
        r == spec_has_scheme(t@),
{
    let n = t.len();
    let mut k: usize = 0;
    while k < n && is_lower(t[k])
        invariant
            k <= n,
            n == t@.len(),
            forall|j: int| 0 <= j < k ==> is_lower_char(#[trigger] t@[j]),
        decreases n - k,
    {
        k += 1;
    }
    proof {
        lemma_lower_end_at(t@, k as int);
    }
    k >= 1 && n >= 3 && k <= n - 3 && t[k] == ':' && t[k + 1] == '/' && t[k + 2] == '/'
}

/// A link target made absolute: a `gemini://` target or one with some
/// other scheme stands as written; a scheme-less one is resolved against
/// the base URL, an unresolvable one falling back to the bare scheme
/// prefix.
pub open spec fn spec_fix_url(base: Seq<char>, t: Seq<char>) -> Seq<char> {
    if spec_has_prefix(t, "gemini://"@) {
        t
    } else if !spec_has_scheme(t) {
        if url_join_ok(base, t) {
            url_joined(base, t)
        } else {
            "gemini://"@
        }
    } else {
        t
    }
}

fn fix_url(base: &str, target: &Vec<char>) -> (r: String)
    ensures
        r@ == spec_fix_url(base@, target@),
{
    if has_prefix(target, "gemini://") {
        string_from_chars(target)
    } else if !has_scheme(target) {
        let t = string_from_chars(target);
        match join_url(base, t.as_str()) {
            Some(u) => u,
            None => String::from_str("gemini://"),
        }
    } else {
        string_from_chars(target)
    }
}

/// The target token and optional label of a link line: the `=>` marker,
/// whitespace, the target token, then optionally whitespace and a label.
pub open spec fn spec_link_parts(l: Seq<char>) -> Option<(Seq<char>, Option<Seq<char>>)> {
    if !spec_has_prefix(l, "=>"@) {
        None
    } else {
        let a = skip_spaces_from(l, 2);
        if a == 2 || a >= l.len() {
            None
        } else {
            let b = token_end_from(l, a);
            let c = skip_spaces_from(l, b);
            if c < l.len() {
                Some((l.subrange(a, b), Some(l.subrange(c, l.len() as int))))
            } else {
                Some((l.subrange(a, b), None))
            }
        }
    }
}

/// The link a link line yields under link counter `id`: the id, the label
/// (the resolved target when none is given), and the canonical target; or
/// nothing, when the line has no target or the target does not resolve.
pub open spec fn spec_link_line(base: Seq<char>, l: Seq<char>, id: int) -> Option<
    (int, Seq<char>, Seq<char>),
> {
    match spec_link_parts(l) {
        None => None,
        Some(parts) => {
            let fixed = spec_fix_url(base, parts.0);
            if url_ok(fixed) {
                Some(
                    (
                        id,
                        match parts.1 {
                            Some(lab) => lab,
                            None => fixed,
                        },
                        url_canon(fixed),
                    ),
                )
            } else {
                None
            }
        },
    }
}

/// Parses a link line, resolving its target against `base`; on success
/// the link counter advances and the new count is the link's id.
pub fn parse_gemtext_link(line: &Vec<char>, id: &mut usize, base: &str) -> (r: StrResult<
    GemTextLine,
>)
    requires
        *old(id) < usize::MAX,
    ensures
        match spec_link_line(base@, line@, *old(id) + 1) {
            Some(t) => r matches Ok(gl) && gl@ == SpecLine::Link(t.0, t.1, t.2) && *final(id)
                == *old(id) + 1,
            None => r is Err && *final(id) == *old(id),
        },
{
    if !has_prefix(line, "=>") {
        return Err("Unable to parse link.");
    }
    proof {
        reveal_strlit("=>");
    }
    let a = skip_spaces(line, 2);
    if a == 2 || a >= line.len() {
        return Err("Unable to parse link.");
    }
    let b = token_end(line, a);
    let c = skip_spaces(line, b);
    let target = subrange_chars(line, a, b);
    let fixed = fix_url(base, &target);
    match parse_url(fixed.as_str()) {
        Some(canon) => {
            *id += 1;
            let label = if c < line.len() {
                string_from_chars(&subrange_chars(line, c, line.len()))
            } else {
                fixed
            };
            Ok(GemTextLine::Link(*id, label, canon))
        },
        None => Err("Unable to parse link."),
    }
}

/// The first line at or after `i` opening or closing a literal block,
/// that is, starting with three backticks; or the line count.
pub open spec fn pre_end(lines: Seq<Seq<char>>, i: int) -> int
    decreases lines.len() - i,
{
    if !(0 <= i < lines.len()) {
        lines.len() as int
    } else if spec_has_prefix(lines[i], "```"@) {
        i
    } else {
        pre_end(lines, i + 1)
    }
}

proof fn lemma_pre_end_bounds(lines: Seq<Seq<char>>, i: int)
    requires
        0 <= i <= lines.len(),
    ensures
        i <= pre_end(lines, i) <= lines.len(),
    decreases lines.len() - i,
{
    if i < lines.len() && !spec_has_prefix(lines[i], "```"@) {
        lemma_pre_end_bounds(lines, i + 1);
    }
}

/// The document a body's lines denote from line `i` on, with `cnt` links
/// already assigned and `started` saying whether anything stands in the
/// buffer yet; paired with the diagnostics the scan emits. A heading is
/// set off with blank lines, a separator before it only once the buffer
/// has content; a link line that does not resolve is skipped with a
/// diagnostic; a literal block keeps its lines verbatim.
pub open spec fn spec_load_doc(
    base: Seq<char>,
    lines: Seq<Seq<char>>,
    i: int,
    cnt: int,
    started: bool,
) -> (Seq<SpecLine>, Seq<Seq<char>>)
    decreases lines.len() - i,
    via spec_load_doc_decreases
{
    if !(0 <= i < lines.len()) {
        (Seq::empty(), Seq::empty())
    } else {
        let l = lines[i];
        if hash_run(l) >= 1 {
            let h = spec_header_line(l);
            let here = if hash_run(l) <= 3 {
                (if started {
                    seq![SpecLine::Line(Seq::<char>::empty())]
                } else {
                    Seq::<SpecLine>::empty()
                }) + seq![h, SpecLine::Line(Seq::<char>::empty())]
            } else {
                seq![h]
            };
            let rest = spec_load_doc(base, lines, i + 1, cnt, true);
            (here + rest.0, rest.1)
        } else if spec_has_prefix(l, "=>"@) {
            match spec_link_line(base, l, cnt + 1) {
                Some(t) => {
                    let rest = spec_load_doc(base, lines, i + 1, cnt + 1, true);
                    (seq![SpecLine::Link(t.0, t.1, t.2)] + rest.0, rest.1)
                },
                None => {
                    let rest = spec_load_doc(base, lines, i + 1, cnt, started);
                    (rest.0, seq!["Unable to parse link: "@ + l] + rest.1)
                },
            }
        } else if spec_has_prefix(l, "```"@) {
            let j = pre_end(lines, i + 1);
            let here = Seq::new((j - (i + 1)) as nat, |k: int| SpecLine::Line(lines[i + 1 + k]));
            let next = if j + 1 <= lines.len() {
                j + 1
            } else {
                lines.len() as int
            };
            let rest = spec_load_doc(base, lines, next, cnt, started || j > i + 1);
            (here + rest.0, rest.1)
        } else {
            let rest = spec_load_doc(base, lines, i + 1, cnt, true);
            (seq![SpecLine::Line(l)] + rest.0, rest.1)
        }
    }
}

#[via_fn]
proof fn spec_load_doc_decreases(
    base: Seq<char>,
    lines: Seq<Seq<char>>,
    i: int,
    cnt: int,
    started: bool,
) {
    if 0 <= i < lines.len() {
        lemma_pre_end_bounds(lines, i + 1);
    }
}


proof fn lemma_hash_run_nonneg(l: Seq<char>)
    ensures
        0 <= hash_run(l) <= l.len(),
    decreases l.len(),
{
    if l.len() > 0 && l[0] == '#' {
        lemma_hash_run_nonneg(l.drop_first());
    }
}

proof fn lemma_pre_end_at(lines: Seq<Seq<char>>, i: int, k: int)
    requires
        0 <= i <= k <= lines.len(),
        forall|j: int| i <= j < k ==> !spec_has_prefix(#[trigger] lines[j], "```"@),
        k < lines.len() ==> spec_has_prefix(lines[k], "```"@),
    ensures
        pre_end(lines, i) == k,
    decreases k - i,
{
    if i < k {
        lemma_pre_end_at(lines, i + 1, k);
    }
}

/// Turns a body's lines into document lines, resolving link targets
/// against `base` and reporting skipped links in `diags`.
fn load_doc(base: &str, lines: &Vec<Vec<char>>, diags: &mut Vec<String>) -> (r: Vec<GemTextLine>)
    ensures
        ({
            let doc = spec_load_doc(base@, lines.deep_view(), 0, 0, false);
            r.deep_view() == doc.0 && final(diags).deep_view() == old(diags).deep_view() + doc.1
        }),
{
    let ghost lv = lines.deep_view();
    let ghost full = spec_load_doc(base@, lv, 0, 0, false);
    let ghost dd0 = diags.deep_view();
    let n = lines.len();
    let mut result: Vec<GemTextLine> = Vec::new();
    let mut cnt: usize = 0;
    let mut i: usize = 0;
    proof {
        assert(full.0 =~~= result.deep_view() + spec_load_doc(base@, lv, 0, 0, false).0);
        assert(dd0 + full.1 =~~= diags.deep_view() + spec_load_doc(base@, lv, 0, 0, false).1);
    }
    while i < n
        invariant
            lv == lines.deep_view(),
            n == lines@.len(),
            i <= n,
            cnt <= i,
            full == spec_load_doc(base@, lv, 0, 0, false),
            full.0 == result.deep_view() + spec_load_doc(
                base@,
                lv,
                i as int,
                cnt as int,
                result@.len() > 0,
            ).0,
            dd0 + full.1 == diags.deep_view() + spec_load_doc(
                base@,
                lv,
                i as int,
                cnt as int,
                result@.len() > 0,
            ).1,
        decreases n - i,
    {
        let ghost st = result@.len() > 0;
        let ghost rdv = result.deep_view();
        let ghost ddv = diags.deep_view();
        let line = &lines[i];
        proof {
            assert(line@ == lv[i as int]);
        }
        if line.len() > 0 && line[0] == '#' {
            proof {
                lemma_hash_run_nonneg(line@.drop_first());
                assert(hash_run(line@) >= 1);
            }
            let parsed = parse_gemtext_header(line);
            match parsed {
                GemTextLine::Line(_) => {
                    result.push(parsed);
                    proof {
                        assert(result.deep_view() =~~= rdv + seq![spec_header_line(lv[i as int])]);
                    }
                },
                _ => {
                    if result.len() > 0 {
                        result.push(GemTextLine::Line(String::new()));
                    }
                    result.push(parsed);
                    result.push(GemTextLine::Line(String::new()));
                    proof {
                        let sep = SpecLine::Line(Seq::<char>::empty());
                        if st {
                            assert(result.deep_view() =~~= rdv + seq![
                                sep,
                                spec_header_line(lv[i as int]),
                                sep,
                            ]);
                        } else {
                            assert(result.deep_view() =~~= rdv + seq![
                                spec_header_line(lv[i as int]),
                                sep,
                            ]);
                        }
                    }
                },
            }
            proof {
                assert(full.0 =~~= result.deep_view() + spec_load_doc(
                    base@,
                    lv,
                    i + 1,
                    cnt as int,
                    true,
                ).0);
                assert(result@.len() > 0);
                assert(dd0 + full.1 =~~= diags.deep_view() + spec_load_doc(
                    base@,
                    lv,
                    i + 1,
                    cnt as int,
                    true,
                ).1);
            }
            i += 1;
        } else if has_prefix(line, "=>") {
            proof {
                assert(hash_run(lv[i as int]) == 0);
            }
            match parse_gemtext_link(line, &mut cnt, base) {
                Ok(gl) => {
                    result.push(gl);
                    proof {
                        let t = spec_link_line(base@, lv[i as int], cnt as int).unwrap();
                        assert(result.deep_view() =~~= rdv + seq![
                            SpecLine::Link(t.0, t.1, t.2),
                        ]);
                        assert(full.0 =~~= result.deep_view() + spec_load_doc(
                            base@,
                            lv,
                            i + 1,
                            cnt as int,
                            true,
                        ).0);
                        assert(result@.len() > 0);
                        assert(dd0 + full.1 =~~= diags.deep_view() + spec_load_doc(
                            base@,
                            lv,
                            i + 1,
                            cnt as int,
                            true,
                        ).1);
                    }
                },
                Err(_) => {
                    let mut d = String::from_str("Unable to parse link: ");
                    let lt = string_from_chars(line);
                    d.append(lt.as_str());
                    diags.push(d);
                    proof {
                        assert(diags.deep_view() =~~= ddv + seq![
                            "Unable to parse link: "@ + lv[i as int],
                        ]);
                        assert(full.0 =~~= result.deep_view() + spec_load_doc(
                            base@,
                            lv,
                            i + 1,
                            cnt as int,
                            st,
                        ).0);
                        assert(dd0 + full.1 =~~= diags.deep_view() + spec_load_doc(
                            base@,
                            lv,
                            i + 1,
                            cnt as int,
                            st,
                        ).1);
                    }
                },
            }
            i += 1;
        } else if has_prefix(line, "```") {
            let ghost pe = pre_end(lv, i + 1);
            let mut j = i + 1;
            proof {
                assert(result.deep_view() =~~= rdv + Seq::new(0, |k: int| SpecLine::Line(
                    lv[i + 1 + k],
                )));
            }
            while j < n && !has_prefix(&lines[j], "```")
                invariant
                    i + 1 <= j <= n,
                    n == lines@.len(),
                    lv == lines.deep_view(),
                    forall|k: int|
                        i + 1 <= k < j ==> !spec_has_prefix(#[trigger] lv[k], "```"@),
                    result.deep_view() == rdv + Seq::new((j - (i + 1)) as nat, |k: int|
                        SpecLine::Line(lv[i + 1 + k])),
                decreases n - j,
            {
                let ghost before = result.deep_view();
                result.push(GemTextLine::Line(string_from_chars(&lines[j])));
                proof {
                    assert(lines@[j as int]@ == lv[j as int]);
                    assert(result.deep_view() =~~= before.push(SpecLine::Line(lv[j as int])));
                    assert(result.deep_view() =~~= rdv + Seq::new((j + 1 - (i + 1)) as nat, |k: int|
                        SpecLine::Line(lv[i + 1 + k])));
                }
                j += 1;
            }
            proof {
                lemma_pre_end_at(lv, i + 1, j as int);
                assert(pe == j as int);
            }
            let next = if j < n {
                j + 1
            } else {
                n
            };
            proof {
                assert(full.0 =~~= result.deep_view() + spec_load_doc(
                    base@,
                    lv,
                    next as int,
                    cnt as int,
                    st || j > i + 1,
                ).0);
                assert((result@.len() > 0) == (st || j > i + 1));
                assert(dd0 + full.1 =~~= diags.deep_view() + spec_load_doc(
                    base@,
                    lv,
                    next as int,
                    cnt as int,
                    st || j > i + 1,
                ).1);
            }
            i = next;
        } else {
            proof {
                assert(hash_run(lv[i as int]) == 0);
            }
            result.push(GemTextLine::Line(string_from_chars(line)));
            proof {
                assert(result.deep_view() =~~= rdv + seq![SpecLine::Line(lv[i as int])]);
                assert(full.0 =~~= result.deep_view() + spec_load_doc(
                    base@,
                    lv,
                    i + 1,
                    cnt as int,
                    true,
                ).0);
                assert(result@.len() > 0);
                assert(dd0 + full.1 =~~= diags.deep_view() + spec_load_doc(
                    base@,
                    lv,
                    i + 1,
                    cnt as int,
                    true,
                ).1);
            }
            i += 1;
        }
    }
    proof {
        assert(full.0 =~~= result.deep_view());
        assert(dd0 + full.1 =~~= diags.deep_view());
    }
    result
}

/// Loads a fetched response into the buffer. A response whose content
/// type is not the line-markup format is refused: the buffer and history
/// stay untouched and the content type is reported. Otherwise, when a
/// body is present, the buffer is rebuilt from it with the cursor at the
/// top, the body's byte length is emitted as feedback, the response URL
/// becomes the buffer's URL in canonical form, and, when requested, it is
/// appended to the history.
pub fn load_page(
    meta: &str,
    body: Option<&str>,
    url: &str,
    add_to_hist: bool,
    buf: &mut PageBuf,
    hist: &mut History,
    out: &mut Vec<String>,
) -> (r: StrResult<bool>)
    requires
        old(buf).wf(),
        old(hist).wf(),
    ensures
        final(buf).wf(),
        final(hist).wf(),
        ({
            let gem = spec_has_prefix(meta@, "text/gemini"@);
            match r {
                Ok(_) => gem,
                Err(m) => !gem && *final(buf) == *old(buf) && *final(hist) == *old(hist) && m@
                    == "Unable to load page!"@ && final(out).deep_view() == old(
                    out,
                ).deep_view() + seq!["NOT GEMINI: "@ + url@, meta@],
            }
        }),
        spec_has_prefix(meta@, "text/gemini"@) && (body is None) ==> *final(buf) == *old(buf)
            && *final(hist) == *old(hist) && final(out)@ == old(out)@,
        body matches Some(b) ==> spec_has_prefix(meta@, "text/gemini"@) ==> ({
            let doc = spec_load_doc(url@, spec_split(b@, '\n'), 0, 0, false);
            &&& final(buf).lines.deep_view() == doc.0
            &&& final(buf).curr_line == 0
            &&& final(out).deep_view() == old(out).deep_view() + doc.1 + seq![
                dec_str(b.spec_bytes().len() as usize as nat),
            ]
            &&& (url_ok(url@) ==> final(buf).url is Some && final(buf).url->0@ == url_canon(
                url@,
            ))
            &&& (!url_ok(url@) ==> final(buf).url == old(buf).url)
            &&& (url_ok(url@) && add_to_hist ==> final(hist).urls() == old(hist).urls().take(
                if old(hist).entry@.len() == 0 {
                    0
                } else {
                    old(hist).curr_entry + 1
                },
            ).push(url_canon(url@)) && final(hist).curr_entry == final(hist).entry@.len() - 1)
            &&& (!(url_ok(url@) && add_to_hist) ==> *final(hist) == *old(hist))
        }),
{
    let meta_chars = chars_vec(meta);
    if !has_prefix(&meta_chars, "text/gemini") {
        let mut m = String::from_str("NOT GEMINI: ");
        m.append(url);
        let ghost prev = out.deep_view();
        out.push(m);
        let metaline = String::from_str(meta);
        out.push(metaline);
        proof {
            assert(out.deep_view() =~~= prev + seq!["NOT GEMINI: "@ + url@, meta@]);
        }
        return Err("Unable to load page!");
    }
    match body {
        None => Ok(true),
        Some(b) => {
            let bc = chars_vec(b);
            let lines = split_chars(&bc, '\n');
            let ghost prev = out.deep_view();
            let doc = load_doc(url, &lines, out);
            buf.lines = doc;
            buf.curr_line = 0;
            let ghost mid = out.deep_view();
            let feedback = usize_to_string(b.len());
            out.push(feedback);
            proof {
                let docspec = spec_load_doc(url@, spec_split(b@, '\n'), 0, 0, false);
                assert(out.deep_view() =~~= mid.push(
                    dec_str(b.spec_bytes().len() as usize as nat),
                ));
                assert(out.deep_view() =~~= prev + docspec.1 + seq![
                    dec_str(b.spec_bytes().len() as usize as nat),
                ]);
            }
            match parse_url(url) {
                Some(canon) => {
                    if add_to_hist {
                        hist.add(canon.as_str());
                    }
                    buf.url = Some(canon);
                },
                None => {},
            }
            Ok(true)
        },
    }
}


/// Whether the line is a link carrying `id`.
pub open spec fn is_link_with(l: SpecLine, id: int) -> bool {
    match l {
        SpecLine::Link(lid, _, _) => lid == id,
        _ => false,
    }
}

/// The link's target; meaningful only on a `Link` line.
pub open spec fn link_target(l: SpecLine) -> Seq<char> {
    match l {
        SpecLine::Link(_, _, target) => target,
        _ => Seq::empty(),
    }
}

/// The first index at or after `i` holding a link with `id`, or the line
/// count when none does.
pub open spec fn link_pos(lines: Seq<SpecLine>, id: int, i: int) -> int
    decreases lines.len() - i,
{
    if !(0 <= i < lines.len()) {
        lines.len() as int
    } else if is_link_with(lines[i], id) {
        i
    } else {
        link_pos(lines, id, i + 1)
    }
}

/// The buffer, cursor and output after a print command: see
/// `print_with_args`.
pub open spec fn spec_print_post(
    cmd: ParseResponse,
    b0: PageBuf,
    b1: PageBuf,
    o0: Seq<Seq<char>>,
    o1: Seq<Seq<char>>,
) -> bool {
    let parts = print_cmd_parts(cmd);
    let en = parts.0;
    let use_range = parts.1;
    let lines = b0.lines.deep_view();
    let len = lines.len() as int;
    let cur = b0.curr_line as int;
    &&& b1.lines == b0.lines
    &&& b1.url == b0.url
    &&& if len == 0 {
        b1.curr_line == b0.curr_line && o1 == o0
    } else if !use_range {
        o1 == o0.push(spec_print_line(en, cur, lines[cur])) && b1.curr_line == (
        if cur + 1 < len {
            cur + 1
        } else {
            len - 1
        })
    } else {
        let se = spec_clamp_range(len, parts.2, parts.3);
        o1 == o0 + spec_print_range(en, lines, se.0, se.1) && b1.curr_line == se.1
    }
}

/// Executes one command against the three stores. Pure commands mutate
/// the buffer, history position and bookmarks directly and emit their
/// output; the navigating commands return the URL the session loop must
/// fetch, together with whether a successful load should be appended to
/// the history.
pub fn execute_command(
    cmd: ParseResponse,
    buf: &mut PageBuf,
    hist: &mut History,
    marks: &mut Bookmarks,
    out: &mut Vec<String>,
) -> (r: ExecAction)
    requires
        old(buf).wf(),
        old(hist).wf(),
    ensures
        final(buf).wf(),
        final(hist).wf(),
        cmd matches ParseResponse::JumpToLine(n) ==> ({
            let lines = old(buf).lines.deep_view();
            &&& *final(hist) == *old(hist)
            &&& *final(marks) == *old(marks)
            &&& final(buf).lines == old(buf).lines
            &&& final(buf).url == old(buf).url
            &&& r is Continue
            &&& if (n as int) < lines.len() {
                final(buf).curr_line == n && final(out).deep_view() == old(
                    out,
                ).deep_view().push(lines[n as int].rendered())
            } else {
                final(buf).curr_line == old(buf).curr_line && final(out).deep_view() == old(
                    out,
                ).deep_view().push("?"@)
            }
        }),
        cmd matches ParseResponse::GoUrl(u) ==> ({
            &&& *final(buf) == *old(buf)
            &&& *final(hist) == *old(hist)
            &&& *final(marks) == *old(marks)
            &&& final(out)@ == old(out)@
            &&& r matches ExecAction::Fetch { url, add_to_hist } && url == u && add_to_hist
        }),
        (cmd matches ParseResponse::Print { .. } || cmd matches ParseResponse::Enumerate {
            ..
        }) ==> ({
            &&& *final(hist) == *old(hist)
            &&& *final(marks) == *old(marks)
            &&& r is Continue
            &&& spec_print_post(cmd, *old(buf), *final(buf), old(out).deep_view(), final(out).deep_view())
        }),
        cmd matches ParseResponse::Page(size) ==> ({
            let stop = if old(buf).curr_line + size <= usize::MAX {
                (old(buf).curr_line + size) as usize
            } else {
                usize::MAX
            };
            &&& *final(hist) == *old(hist)
            &&& *final(marks) == *old(marks)
            &&& r is Continue
            &&& spec_print_post(
                ParseResponse::Print { use_range: true, start: old(buf).curr_line, stop },
                *old(buf),
                *final(buf),
                old(out).deep_view(),
                final(out).deep_view(),
            )
        }),
        cmd matches ParseResponse::FollowLink(id) ==> ({
            let lines = old(buf).lines.deep_view();
            let p = link_pos(lines, id as int, 0);
            &&& *final(buf) == *old(buf)
            &&& *final(hist) == *old(hist)
            &&& *final(marks) == *old(marks)
            &&& final(out)@ == old(out)@
            &&& if p < lines.len() {
                r matches ExecAction::Fetch { url, add_to_hist } && url@ == link_target(lines[p])
                    && add_to_hist
            } else {
                r is Continue
            }
        }),
        cmd matches ParseResponse::GoBack(d) ==> ({
            let dep = if d < 1 {
                1 as int
            } else {
                d as int
            };
            let len = old(hist).entry@.len() as int;
            let pos = old(hist).curr_entry as int;
            &&& *final(buf) == *old(buf)
            &&& *final(marks) == *old(marks)
            &&& final(out)@ == old(out)@
            &&& final(hist).entry == old(hist).entry
            &&& if len <= 1 || pos == 0 {
                *final(hist) == *old(hist) && r is Continue
            } else {
                let np = if dep > pos {
                    0 as int
                } else {
                    pos - dep
                };
                final(hist).curr_entry == np && (r matches ExecAction::Fetch { url, add_to_hist }
                    && url@ == old(hist).urls()[np] && !add_to_hist)
            }
        }),
        cmd matches ParseResponse::GoForward(d) ==> ({
            let dep = if d < 1 {
                1 as int
            } else {
                d as int
            };
            let len = old(hist).entry@.len() as int;
            let pos = old(hist).curr_entry as int;
            &&& *final(buf) == *old(buf)
            &&& *final(marks) == *old(marks)
            &&& final(out)@ == old(out)@
            &&& final(hist).entry == old(hist).entry
            &&& if len <= 1 || pos == len - 1 {
                *final(hist) == *old(hist) && r is Continue
            } else {
                let np = if pos + dep >= len - 1 {
                    len - 1
                } else {
                    pos + dep
                };
                final(hist).curr_entry == np && (r matches ExecAction::Fetch { url, add_to_hist }
                    && url@ == old(hist).urls()[np] && !add_to_hist)
            }
        }),
        cmd matches ParseResponse::History(depth) ==> ({
            let len = old(hist).urls().len() as int;
            let n = if depth <= 0 {
                len
            } else if depth as int <= len {
                depth as int
            } else {
                len
            };
            &&& *final(buf) == *old(buf)
            &&& *final(hist) == *old(hist)
            &&& *final(marks) == *old(marks)
            &&& r is Continue
            &&& final(out).deep_view() == old(out).deep_view() + spec_history_lines(
                old(hist).urls(),
                old(hist).curr_entry as int,
                n,
            )
        }),
        cmd matches ParseResponse::SearchForwards(p) ==> ({
            let lines = old(buf).lines.deep_view();
            let cur = old(buf).curr_line as int;
            let m = first_match_from(p@, lines, cur);
            &&& *final(hist) == *old(hist)
            &&& *final(marks) == *old(marks)
            &&& final(buf).lines == old(buf).lines
            &&& final(buf).url == old(buf).url
            &&& r is Continue
            &&& if pattern_ok(p@) && m < lines.len() {
                final(buf).curr_line == m && final(out).deep_view() == old(
                    out,
                ).deep_view().push(lines[m].rendered())
            } else {
                final(buf).curr_line == old(buf).curr_line && final(out).deep_view() == old(
                    out,
                ).deep_view().push("?"@)
            }
        }),
        cmd matches ParseResponse::SearchBackwards(p) ==> ({
            let lines = old(buf).lines.deep_view();
            let cur = old(buf).curr_line as int;
            let m = first_match_down(p@, lines, cur);
            &&& *final(hist) == *old(hist)
            &&& *final(marks) == *old(marks)
            &&& final(buf).lines == old(buf).lines
            &&& final(buf).url == old(buf).url
            &&& r is Continue
            &&& if pattern_ok(p@) && m >= 0 {
                final(buf).curr_line == m && final(out).deep_view() == old(
                    out,
                ).deep_view().push(lines[m].rendered())
            } else {
                final(buf).curr_line == old(buf).curr_line && final(out).deep_view() == old(
                    out,
                ).deep_view().push("?"@)
            }
        }),
        cmd is Clear ==> ({
            &&& *final(buf) == *old(buf)
            &&& *final(hist) == *old(hist)
            &&& *final(marks) == *old(marks)
            &&& r is Continue
            &&& final(out).deep_view() == old(out).deep_view().push("\u{1b}c"@)
        }),
        cmd matches ParseResponse::AddBookmark(c) ==> ({
            &&& *final(buf) == *old(buf)
            &&& *final(hist) == *old(hist)
            &&& r is Continue
            &&& if old(buf).url is Some {
                final(marks).spec_map() == old(marks).spec_map().insert(
                    c,
                    old(buf).url->0@,
                ) && final(out)@ == old(out)@
            } else {
                *final(marks) == *old(marks) && final(out).deep_view() == old(
                    out,
                ).deep_view().push("FAILED TO ADD BOOKMARK"@)
            }
        }),
        cmd matches ParseResponse::GoBookmark(c) ==> ({
            &&& *final(buf) == *old(buf)
            &&& *final(hist) == *old(hist)
            &&& *final(marks) == *old(marks)
            &&& if old(marks).spec_map().contains_key(c) && url_ok(old(marks).spec_map()[c]) {
                (r matches ExecAction::Fetch { url, add_to_hist } && url@ == url_canon(
                    old(marks).spec_map()[c],
                ) && add_to_hist) && final(out)@ == old(out)@
            } else {
                r is Continue && final(out).deep_view() == old(out).deep_view().push(
                    "UNABLE TO GO TO BOOKMARK"@,
                )
            }
        }),
        cmd is Quit ==> ({
            &&& *final(buf) == *old(buf)
            &&& *final(hist) == *old(hist)
            &&& *final(marks) == *old(marks)
            &&& final(out)@ == old(out)@
            &&& r is Quit
        }),
        cmd is Empty ==> ({
            &&& *final(hist) == *old(hist)
            &&& *final(marks) == *old(marks)
            &&& r is Continue
            &&& spec_print_post(
                ParseResponse::Print { use_range: false, start: 0, stop: 0 },
                *old(buf),
                *final(buf),
                old(out).deep_view(),
                final(out).deep_view(),
            )
        }),
        cmd is Invalid ==> ({
            &&& *final(buf) == *old(buf)
            &&& *final(hist) == *old(hist)
            &&& *final(marks) == *old(marks)
            &&& r is Continue
            &&& final(out).deep_view() == old(out).deep_view().push("?"@)
        }),
{
    match cmd {
        ParseResponse::JumpToLine(n) => {
            let ghost lines = buf.lines.deep_view();
            if n < buf.lines.len() {
                buf.curr_line = n;
                let line = render_gemtext_line(&buf.lines[n]);
                let ghost prev = out.deep_view();
                let ghost tv = line@;
                out.push(line);
                proof {
                    assert(lines[n as int] == buf.lines@[n as int]@);
                    assert(out.deep_view() =~~= prev.push(tv));
                    assert(out.deep_view() =~~= old(out).deep_view().push(
                        lines[n as int].rendered(),
                    ));
                }
            } else {
                let marker = String::from_str("?");
                let ghost prev = out.deep_view();
                let ghost tv = marker@;
                out.push(marker);
                proof {
                    assert(out.deep_view() =~~= prev.push(tv));
                    assert(out.deep_view() =~~= old(out).deep_view().push("?"@));
                }
            }
            ExecAction::Continue
        },
        ParseResponse::GoUrl(u) => ExecAction::Fetch { url: u, add_to_hist: true },
        ParseResponse::Print { .. } => {
            print_with_args(&cmd, buf, out);
            ExecAction::Continue
        },
        ParseResponse::Enumerate { .. } => {
            print_with_args(&cmd, buf, out);
            ExecAction::Continue
        },
        ParseResponse::Page(size) => {
            let start = buf.curr_line;
            let stop = start.saturating_add(size);
            let page_cmd = ParseResponse::Print { use_range: true, start, stop };
            print_with_args(&page_cmd, buf, out);
            ExecAction::Continue
        },
        ParseResponse::FollowLink(id) => {
            let ghost lines = buf.lines.deep_view();
            let len = buf.lines.len();
            let mut i: usize = 0;
            while i < len
                invariant
                    i <= len,
                    len == buf.lines@.len(),
                    lines == buf.lines.deep_view(),
                    *buf == *old(buf),
                    *hist == *old(hist),
                    *marks == *old(marks),
                    out@ == old(out)@,
                    old(buf).wf(),
                    old(hist).wf(),
                    cmd == ParseResponse::FollowLink(id),
                    link_pos(lines, id as int, 0) == link_pos(lines, id as int, i as int),
                decreases len - i,
            {
                proof {
                    assert(lines[i as int] == buf.lines@[i as int]@);
                }
                match &buf.lines[i] {
                    GemTextLine::Link(lid, _, target) => {
                        if *lid == id {
                            proof {
                                assert(link_pos(lines, id as int, i as int) == i);
                            }
                            return ExecAction::Fetch { url: target.clone(), add_to_hist: true };
                        }
                    },
                    _ => {},
                }
                i += 1;
            }
            ExecAction::Continue
        },
        ParseResponse::GoBack(d) => {
            let depth: usize = if d < 1 {
                1
            } else {
                d
            };
            if hist.entry.len() <= 1 || hist.curr_entry == 0 {
                return ExecAction::Continue;
            }
            let np: usize = if depth > hist.curr_entry {
                0
            } else {
                hist.curr_entry - depth
            };
            hist.curr_entry = np;
            let url = hist.entry[np].clone();
            proof {
                assert(url@ == old(hist).urls()[np as int]);
            }
            ExecAction::Fetch { url, add_to_hist: false }
        },
        ParseResponse::GoForward(d) => {
            let depth: usize = if d < 1 {
                1
            } else {
                d
            };
            let len = hist.entry.len();
            if len <= 1 || hist.curr_entry == len - 1 {
                return ExecAction::Continue;
            }
            let np: usize = if depth >= len - 1 - hist.curr_entry {
                len - 1
            } else {
                hist.curr_entry + depth
            };
            hist.curr_entry = np;
            let url = hist.entry[np].clone();
            proof {
                assert(url@ == old(hist).urls()[np as int]);
            }
            ExecAction::Fetch { url, add_to_hist: false }
        },
        ParseResponse::History(depth) => {
            list_history(hist, depth, out);
            ExecAction::Continue
        },
        ParseResponse::SearchForwards(p) => {
            search_forwards(p.as_str(), buf, out);
            ExecAction::Continue
        },
        ParseResponse::SearchBackwards(p) => {
            search_backwards(p.as_str(), buf, out);
            ExecAction::Continue
        },
        ParseResponse::Clear => {
            let esc = String::from_str("\u{1b}c");
            let ghost prev = out.deep_view();
            let ghost tv = esc@;
            out.push(esc);
            proof {
                assert(out.deep_view() =~~= prev.push(tv));
                assert(out.deep_view() =~~= old(out).deep_view().push("\u{1b}c"@));
            }
            ExecAction::Continue
        },
        ParseResponse::AddBookmark(c) => {
            if add_bookmark(c, buf, marks).is_err() {
                let msg = String::from_str("FAILED TO ADD BOOKMARK");
                let ghost prev = out.deep_view();
                let ghost tv = msg@;
                out.push(msg);
                proof {
                    assert(out.deep_view() =~~= prev.push(tv));
                    assert(out.deep_view() =~~= old(out).deep_view().push(
                        "FAILED TO ADD BOOKMARK"@,
                    ));
                }
            }
            ExecAction::Continue
        },
        ParseResponse::GoBookmark(c) => {
            match go_to_bookmark(c, marks) {
                Ok(url) => ExecAction::Fetch { url, add_to_hist: true },
                Err(_) => {
                    let msg = String::from_str("UNABLE TO GO TO BOOKMARK");
                    let ghost prev = out.deep_view();
                    let ghost tv = msg@;
                    out.push(msg);
                    proof {
                        assert(out.deep_view() =~~= prev.push(tv));
                        assert(out.deep_view() =~~= old(out).deep_view().push(
                            "UNABLE TO GO TO BOOKMARK"@,
                        ));
                    }
                    ExecAction::Continue
                },
            }
        },
        ParseResponse::Quit => ExecAction::Quit,
        ParseResponse::Empty => {
            let empty_cmd = ParseResponse::Print { use_range: false, start: 0, stop: 0 };
            print_with_args(&empty_cmd, buf, out);
            ExecAction::Continue
        },
        ParseResponse::Invalid => {
            let marker = String::from_str("?");
            let ghost prev = out.deep_view();
            let ghost tv = marker@;
            out.push(marker);
            proof {
                assert(out.deep_view() =~~= prev.push(tv));
                assert(out.deep_view() =~~= old(out).deep_view().push("?"@));
            }
            ExecAction::Continue
        },
    }
}

} // verus!
