//! The command grammar: one line of user input resolves to exactly one
//! command. The rules are tried in priority order against the whole
//! trimmed input: the empty line, a bare address, an address and a
//! command letter, an address range and a command letter, bare letters, a
//! letter with an argument, a delimited search pattern; anything else is
//! the invalid command.
use crate::text::{
    lemma_singleton,
    all_digits, chars_vec, dec_val, first_idx, is_digit, is_digit_char, is_lower,
    is_lower_char, is_space, is_space_char, parse_usize, parses_usize, skip_spaces,
    skip_spaces_from, spec_has_prefix, spec_trim, string_from_chars, subrange_chars, token_end,
    token_end_from, trim_chars,
};
use crate::urls::{parse_url, url_canon, url_ok};
use crate::{PageBuf, ParseResponse, StrResult};
use vstd::prelude::*;
use vstd::string::*;

verus! {

/// An address token resolved to a 0-based line index: `$` the last line,
/// `.` the cursor, `+N`/`-N` relative to the cursor clamped at the
/// buffer's edges, plain 1-based `N` to `N - 1`; a token that does not
/// read as a number falls back to the cursor. The buffer length counts as
/// at least one.
pub open spec fn spec_resolve(t: Seq<char>, page_length: int, curr_line: int) -> int {
    let l = if page_length < 1 {
        1
    } else {
        page_length
    };
    if t == seq!['$'] {
        l - 1
    } else if t == seq!['.'] {
        curr_line
    } else if t.len() >= 1 && t[0] == '+' {
        if parses_usize(t.skip(1)) {
            if curr_line + dec_val(t.skip(1)) <= l - 1 {
                curr_line + dec_val(t.skip(1))
            } else {
                l - 1
            }
        } else {
            curr_line
        }
    } else if t.len() >= 1 && t[0] == '-' {
        if parses_usize(t.skip(1)) {
            if curr_line - dec_val(t.skip(1)) >= 0 {
                curr_line - dec_val(t.skip(1))
            } else {
                0
            }
        } else {
            curr_line
        }
    } else if parses_usize(t) {
        if dec_val(t) >= 1 {
            dec_val(t) - 1
        } else {
            0
        }
    } else {
        curr_line
    }
}

fn resolve_chars(t: &Vec<char>, page_length: usize, curr_line: usize) -> (r: usize)
    ensures
        r as int == spec_resolve(t@, page_length as int, curr_line as int),
{
    let l: usize = if page_length < 1 {
        1
    } else {
        page_length
    };
    let n = t.len();
    if n == 1 && t[0] == '$' {
        proof {
            assert(t@ =~= seq!['$']);
        }
        return l - 1;
    }
    if n == 1 && t[0] == '.' {
        proof {
            assert(t@ =~= seq!['.']);
        }
        return curr_line;
    }
    if n >= 1 && t[0] == '+' {
        proof {
            assert(t@.subrange(1, n as int) =~= t@.skip(1));
        }
        return match parse_usize(t, 1, n) {
            Some(off) => {
                if curr_line < l && off <= l - 1 - curr_line {
                    curr_line + off
                } else {
                    l - 1
                }
            },
            None => curr_line,
        };
    }
    if n >= 1 && t[0] == '-' {
        proof {
            assert(t@.subrange(1, n as int) =~= t@.skip(1));
        }
        return match parse_usize(t, 1, n) {
            Some(off) => {
                if curr_line >= off {
                    curr_line - off
                } else {
                    0
                }
            },
            None => curr_line,
        };
    }
    proof {
        assert(t@.subrange(0, n as int) =~= t@);
    }
    match parse_usize(t, 0, n) {
        Some(v) => {
            if v >= 1 {
                v - 1
            } else {
                0
            }
        },
        None => curr_line,
    }
}

/// Resolves one address token against a buffer of `page_length` lines
/// with the cursor on `curr_line`.
pub fn parse_num(num: &str, page_length: usize, curr_line: usize) -> (r: usize)
    ensures
        r as int == spec_resolve(num@, page_length as int, curr_line as int),
{
    let t = chars_vec(num);
    resolve_chars(&t, page_length, curr_line)
}

pub open spec fn is_sign_char(c: char) -> bool {
    c == '+' || c == '-'
}

/// A plain decimal address token.
pub open spec fn is_plain_num(t: Seq<char>) -> bool {
    t.len() >= 1 && all_digits(t)
}

/// A sign followed by digits.
pub open spec fn is_signed_num(t: Seq<char>) -> bool {
    t.len() >= 2 && is_sign_char(t[0]) && all_digits(t.skip(1))
}

/// A bare address: a number, a signed offset, or `$`.
pub open spec fn is_addr_token(t: Seq<char>) -> bool {
    is_plain_num(t) || is_signed_num(t) || t == seq!['$']
}

/// The index of the first lowercase letter, or `t.len()`.
pub open spec fn first_lower(t: Seq<char>) -> int
    decreases t.len(),
{
    if t.len() == 0 {
        0
    } else if is_lower_char(t[0]) {
        0
    } else {
        1 + first_lower(t.drop_first())
    }
}

proof fn lemma_first_lower_at(t: Seq<char>, k: int)
    requires
        0 <= k <= t.len(),
        forall|j: int| 0 <= j < k ==> !is_lower_char(#[trigger] t[j]),
        k < t.len() ==> is_lower_char(t[k]),
    ensures
        first_lower(t) == k,
    decreases k,
{
    if k > 0 {
        lemma_first_lower_at(t.drop_first(), k - 1);
    }
}

fn first_lower_idx(t: &Vec<char>) -> (r: usize)
    ensures
        r <= t@.len(),
        r == first_lower(t@),
{
    let n = t.len();
    let mut i: usize = 0;
    while i < n && !is_lower(t[i])
        invariant
            i <= n,
            n == t@.len(),
            forall|j: int| 0 <= j < i ==> !is_lower_char(#[trigger] t@[j]),
        decreases n - i,
    {
        i += 1;
    }
    proof {
        lemma_first_lower_at(t@, i as int);
    }
    i
}

fn digits_only(t: &Vec<char>, from: usize, to: usize) -> (r: bool)
    requires
        from <= to <= t@.len(),
    ensures
        r == (from < to && all_digits(t@.subrange(from as int, to as int))),
{
    if from >= to {
        return false;
    }
    let mut i: usize = from;
    while i < to
        invariant
            from <= i <= to <= t@.len(),
            forall|j: int| from <= j < i ==> is_digit_char(#[trigger] t@[j]),
        decreases to - i,
    {
        if !is_digit(t[i]) {
            proof {
                assert(t@.subrange(from as int, to as int)[i - from] == t@[i as int]);
            }
            return false;
        }
        i += 1;
    }
    proof {
        assert forall|j: int| 0 <= j < to - from implies is_digit_char(
            #[trigger] t@.subrange(from as int, to as int)[j],
        ) by {
            assert(t@.subrange(from as int, to as int)[j] == t@[from + j]);
        }
    }
    true
}

fn lowers_from(t: &Vec<char>, from: usize) -> (r: bool)
    requires
        from <= t@.len(),
    ensures
        r == (forall|i: int| from <= i < t@.len() ==> is_lower_char(#[trigger] t@[i])),
{
    let n = t.len();
    let mut i: usize = from;
    while i < n
        invariant
            from <= i <= n,
            n == t@.len(),
            forall|j: int| from <= j < i ==> is_lower_char(#[trigger] t@[j]),
        decreases n - i,
    {
        if !is_lower(t[i]) {
            return false;
        }
        i += 1;
    }
    true
}

/// An address (or the whole-buffer `%`) followed by command letters.
pub open spec fn is_num_letter(t: Seq<char>) -> bool {
    let k = first_lower(t);
    &&& 0 < k < t.len()
    &&& (forall|i: int| k <= i < t.len() ==> is_lower_char(#[trigger] t[i]))
    &&& (t.take(k) == seq!['%'] || is_plain_num(t.take(k)) || is_signed_num(t.take(k)))
}

fn num_letter_matches(t: &Vec<char>) -> (r: bool)
    ensures
        r == is_num_letter(t@),
{
    let n = t.len();
    let k = first_lower_idx(t);
    if !(0 < k && k < n) {
        return false;
    }
    if !lowers_from(t, k) {
        return false;
    }
    proof {
        assert(t@.take(k as int).skip(1) =~= t@.subrange(1, k as int));
        assert(t@.take(k as int) =~= t@.subrange(0, k as int));
        lemma_singleton(t@.take(k as int), '%');
    }
    let pct = k == 1 && t[0] == '%';
    let plain = digits_only(t, 0, k);
    let signed = k >= 2 && (t[0] == '+' || t[0] == '-') && digits_only(t, 1, k);
    pct || plain || signed
}

/// Two address tokens joined by a comma, followed by command letters.
pub open spec fn is_range_letter(t: Seq<char>) -> bool {
    let k = first_idx(t, ',');
    &&& k < t.len()
    &&& (is_plain_num(t.take(k)) || is_signed_num(t.take(k)) || t.take(k) == seq!['.'])
    &&& ({
        let rest = t.skip(k + 1);
        let m = first_lower(rest);
        &&& 0 < m < rest.len()
        &&& (forall|i: int| m <= i < rest.len() ==> is_lower_char(#[trigger] rest[i]))
        &&& (is_plain_num(rest.take(m)) || is_signed_num(rest.take(m)) || rest.take(m)
            == seq!['$'] || rest.take(m) == seq!['.'])
    })
}

fn comma_idx(t: &Vec<char>) -> (r: usize)
    ensures
        r <= t@.len(),
        r == first_idx(t@, ','),
{
    let n = t.len();
    let mut i: usize = 0;
    while i < n && t[i] != ','
        invariant
            i <= n,
            n == t@.len(),
            forall|j: int| 0 <= j < i ==> t@[j] != ',',
        decreases n - i,
    {
        i += 1;
    }
    proof {
        crate::text::lemma_first_idx_at(t@, ',', i as int);
    }
    i
}

/// One or more characters, each a lowercase letter or `$`.
pub open spec fn is_letter_only(t: Seq<char>) -> bool {
    t.len() >= 1 && forall|i: int|
        0 <= i < t.len() ==> is_lower_char(#[trigger] t[i]) || t[i] == '$'
}

fn letter_only_matches(t: &Vec<char>) -> (r: bool)
    ensures
        r == is_letter_only(t@),
{
    let n = t.len();
    if n == 0 {
        return false;
    }
    let mut i: usize = 0;
    while i < n
        invariant
            i <= n,
            n == t@.len(),
            forall|j: int| 0 <= j < i ==> is_lower_char(#[trigger] t@[j]) || t@[j] == '$',
        decreases n - i,
    {
        if !is_lower(t[i]) && t[i] != '$' {
            return false;
        }
        i += 1;
    }
    true
}

/// A single letter, whitespace, then one whitespace-free argument token.
pub open spec fn is_letter_arg(t: Seq<char>) -> bool {
    &&& t.len() >= 3
    &&& is_lower_char(t[0])
    &&& is_space_char(t[1])
    &&& ({
        let j = skip_spaces_from(t, 1);
        j < t.len() && token_end_from(t, j) == t.len()
    })
}

fn letter_arg_matches(t: &Vec<char>) -> (r: bool)
    ensures
        r == is_letter_arg(t@),
{
    let n = t.len();
    if n < 3 {
        return false;
    }
    if !is_lower(t[0]) || !is_space(t[1]) {
        return false;
    }
    let j = skip_spaces(t, 1);
    j < n && token_end(t, j) == n
}

/// A pattern delimited by `/` or `?` on both sides.
pub open spec fn is_search(t: Seq<char>) -> bool {
    t.len() >= 2 && (t[0] == '/' || t[0] == '?') && (t.last() == '/' || t.last() == '?')
}

/// Which grammar rule, if any, the trimmed input falls under; the rules
/// are tried in priority order.
pub enum GrammarRule {
    Empty,
    Num,
    NumLetter,
    Range,
    Letter,
    LetterArg,
    Search,
    NoMatch,
}

pub open spec fn grammar_rule(t: Seq<char>) -> GrammarRule {
    if t.len() == 0 {
        GrammarRule::Empty
    } else if is_addr_token(t) {
        GrammarRule::Num
    } else if is_num_letter(t) {
        GrammarRule::NumLetter
    } else if is_range_letter(t) {
        GrammarRule::Range
    } else if is_letter_only(t) {
        GrammarRule::Letter
    } else if is_letter_arg(t) {
        GrammarRule::LetterArg
    } else if is_search(t) {
        GrammarRule::Search
    } else {
        GrammarRule::NoMatch
    }
}

/// The parse produced exactly this command.
pub open spec fn cmd_ok(r: StrResult<ParseResponse>, c: ParseResponse) -> bool {
    r == Ok::<ParseResponse, &'static str>(c)
}

/// The print command an address-plus-letter input denotes.
pub open spec fn num_letter_result(
    t: Seq<char>,
    len: int,
    cur: int,
    r: StrResult<ParseResponse>,
) -> bool {
    let k = first_lower(t);
    let word = t.skip(k);
    if t.take(k) == seq!['%'] {
        if word == seq!['p'] {
            cmd_ok(
                r,
                ParseResponse::Print { use_range: true, start: 0 as usize, stop: len as usize },
            )
        } else if word == seq!['n'] {
            cmd_ok(
                r,
                ParseResponse::Enumerate { use_range: true, start: 0 as usize, stop: len as usize },
            )
        } else {
            cmd_ok(r, ParseResponse::Invalid)
        }
    } else {
        let a = spec_resolve(t.take(k), len, cur);
        if word == seq!['p'] {
            cmd_ok(
                r,
                ParseResponse::Print { use_range: true, start: a as usize, stop: a as usize },
            )
        } else if word == seq!['n'] {
            cmd_ok(
                r,
                ParseResponse::Enumerate { use_range: true, start: a as usize, stop: a as usize },
            )
        } else {
            cmd_ok(r, ParseResponse::Invalid)
        }
    }
}

/// The print command a range-plus-letter input denotes; a stop below the
/// start is coerced up to the start.
pub open spec fn range_result(
    t: Seq<char>,
    len: int,
    cur: int,
    r: StrResult<ParseResponse>,
) -> bool {
    let k = first_idx(t, ',');
    let rest = t.skip(k + 1);
    let m = first_lower(rest);
    let word = rest.skip(m);
    let s = spec_resolve(t.take(k), len, cur);
    let e0 = spec_resolve(rest.take(m), len, cur);
    let e = if e0 < s {
        s
    } else {
        e0
    };
    if word == seq!['p'] {
        cmd_ok(r, ParseResponse::Print { use_range: true, start: s as usize, stop: e as usize })
    } else if word == seq!['n'] {
        cmd_ok(r, ParseResponse::Enumerate { use_range: true, start: s as usize, stop: e as usize })
    } else {
        cmd_ok(r, ParseResponse::Invalid)
    }
}

/// The command a bare letter word denotes.
pub open spec fn letter_result(
    t: Seq<char>,
    len: int,
    cur: int,
    r: StrResult<ParseResponse>,
) -> bool {
    if t == seq!['p'] {
        cmd_ok(
            r,
            ParseResponse::Print { use_range: true, start: cur as usize, stop: cur as usize },
        )
    } else if t == seq!['n'] {
        cmd_ok(
            r,
            ParseResponse::Enumerate { use_range: true, start: cur as usize, stop: cur as usize },
        )
    } else if t == seq!['z'] {
        cmd_ok(r, ParseResponse::Page(24))
    } else if t == seq!['q'] {
        cmd_ok(r, ParseResponse::Quit)
    } else if t == seq!['$'] {
        cmd_ok(r, ParseResponse::JumpToLine(len as usize))
    } else if t == seq!['b'] {
        cmd_ok(r, ParseResponse::GoBack(1))
    } else if t == seq!['f'] {
        cmd_ok(r, ParseResponse::GoForward(1))
    } else if t == seq!['h'] {
        cmd_ok(r, ParseResponse::History((-1) as isize))
    } else if t == seq!['c'] {
        cmd_ok(r, ParseResponse::Clear)
    } else {
        cmd_ok(r, ParseResponse::Invalid)
    }
}

/// The go command's outcome: the argument, prefixed with the scheme when
/// it does not already carry it, must parse as a URL.
pub open spec fn go_result(arg: Seq<char>, r: StrResult<ParseResponse>) -> bool {
    let full = if spec_has_prefix(arg, "gemini://"@) {
        arg
    } else {
        "gemini://"@ + arg
    };
    if url_ok(full) {
        r matches Ok(c) && c matches ParseResponse::GoUrl(u) && u@ == url_canon(full)
    } else {
        r matches Err(m) && m@ == "Unable to parse URL."@
    }
}

/// The history depth an argument denotes: an optionally signed number,
/// anything else meaning show-all.
pub open spec fn spec_hist_depth(a: Seq<char>) -> int {
    if a.len() >= 1 && a[0] == '-' && parses_usize(a.skip(1)) && dec_val(a.skip(1)) <= isize::MAX {
        -(dec_val(a.skip(1)) as int)
    } else if a.len() >= 1 && a[0] == '+' && parses_usize(a.skip(1)) && dec_val(a.skip(1))
        <= isize::MAX {
        dec_val(a.skip(1)) as int
    } else if parses_usize(a) && dec_val(a) <= isize::MAX {
        dec_val(a) as int
    } else {
        -1
    }
}

/// The command a letter-plus-argument input denotes.
pub open spec fn letter_arg_result(t: Seq<char>, r: StrResult<ParseResponse>) -> bool {
    let c = t[0];
    let j = skip_spaces_from(t, 1);
    let arg = t.subrange(j, t.len() as int);
    if c == 'g' {
        go_result(arg, r)
    } else if c == 'l' {
        if parses_usize(arg) {
            cmd_ok(r, ParseResponse::FollowLink(dec_val(arg) as usize))
        } else {
            r matches Err(m) && m@ == "Invalid link id."@
        }
    } else if c == 'z' {
        if parses_usize(arg) {
            cmd_ok(r, ParseResponse::Page(dec_val(arg) as usize))
        } else {
            cmd_ok(r, ParseResponse::Page(24))
        }
    } else if c == 'b' {
        if parses_usize(arg) {
            cmd_ok(r, ParseResponse::GoBack(dec_val(arg) as usize))
        } else {
            cmd_ok(r, ParseResponse::GoBack(1))
        }
    } else if c == 'f' {
        if parses_usize(arg) {
            cmd_ok(r, ParseResponse::GoForward(dec_val(arg) as usize))
        } else {
            cmd_ok(r, ParseResponse::GoForward(1))
        }
    } else if c == 'h' {
        cmd_ok(r, ParseResponse::History(spec_hist_depth(arg) as isize))
    } else {
        cmd_ok(r, ParseResponse::Invalid)
    }
}

/// The search command a delimited pattern denotes: a leading `/` searches
/// forward, a leading `?` backward.
pub open spec fn search_result(t: Seq<char>, r: StrResult<ParseResponse>) -> bool {
    let pat = t.subrange(1, t.len() - 1);
    if t[0] == '/' {
        r matches Ok(c) && c matches ParseResponse::SearchForwards(p) && p@ == pat
    } else {
        r matches Ok(c) && c matches ParseResponse::SearchBackwards(p) && p@ == pat
    }
}

/// Reads a go-to-URL argument: `gemini://` is prefixed when missing, and
/// the result must parse as a URL.
pub fn parse_go_command(url: &str) -> (r: StrResult<ParseResponse>)
    ensures
        go_result(url@, r),
{
    let arg = chars_vec(url);
    let full = if crate::text::has_prefix(&arg, "gemini://") {
        string_from_chars(&arg)
    } else {
        let mut s = String::from_str("gemini://");
        let a = string_from_chars(&arg);
        s.append(a.as_str());
        s
    };
    match parse_url(full.as_str()) {
        Some(u) => Ok(ParseResponse::GoUrl(u)),
        None => Err("Unable to parse URL."),
    }
}

/// Reads a follow-link argument: a link id number.
pub fn parse_link_command(id: &str) -> (r: StrResult<ParseResponse>)
    ensures
        if parses_usize(id@) {
            cmd_ok(r, ParseResponse::FollowLink(dec_val(id@) as usize))
        } else {
            r matches Err(m) && m@ == "Invalid link id."@
        },
{
    let v = chars_vec(id);
    proof {
        assert(v@.subrange(0, v@.len() as int) =~= v@);
    }
    match parse_usize(&v, 0, v.len()) {
        Some(n) => Ok(ParseResponse::FollowLink(n)),
        None => Err("Invalid link id."),
    }
}

fn hist_depth_of(a: &Vec<char>) -> (r: isize)
    ensures
        r as int == spec_hist_depth(a@),
{
    let n = a.len();
    if n >= 1 && (a[0] == '-' || a[0] == '+') {
        proof {
            assert(a@.subrange(1, n as int) =~= a@.skip(1));
        }
        let neg = a[0] == '-';
        match parse_usize(a, 1, n) {
            Some(v) => {
                if v <= isize::MAX as usize {
                    if neg {
                        -(v as isize)
                    } else {
                        v as isize
                    }
                } else {
                    -1
                }
            },
            None => -1,
        }
    } else {
        proof {
            assert(a@.subrange(0, n as int) =~= a@);
        }
        match parse_usize(a, 0, n) {
            Some(v) => {
                if v <= isize::MAX as usize {
                    v as isize
                } else {
                    -1
                }
            },
            None => -1,
        }
    }
}

/// Parses one raw input line into a command, consulting the buffer only
/// to resolve relative addresses. Malformed input yields the invalid
/// command; only an unusable URL or link id in a letter-argument command
/// yields an error message.
pub fn parse_response(resp: &str, buf: &PageBuf) -> (r: StrResult<ParseResponse>)
    ensures
        ({
            let t = spec_trim(resp@);
            let len = buf.lines@.len() as int;
            let cur = buf.curr_line as int;
            match grammar_rule(t) {
                GrammarRule::Empty => cmd_ok(r, ParseResponse::Empty),
                GrammarRule::Num => r matches Ok(c) && c matches ParseResponse::JumpToLine(x) && x
                    as int == spec_resolve(t, len, cur),
                GrammarRule::NumLetter => num_letter_result(t, len, cur, r),
                GrammarRule::Range => range_result(t, len, cur, r),
                GrammarRule::Letter => letter_result(t, len, cur, r),
                GrammarRule::LetterArg => letter_arg_result(t, r),
                GrammarRule::Search => search_result(t, r),
                GrammarRule::NoMatch => cmd_ok(r, ParseResponse::Invalid),
            }
        }),
{
    let rv = chars_vec(resp);
    let t = trim_chars(&rv);
    let n = t.len();
    let page_length = buf.lines.len();
    let curr_line = buf.curr_line;
    if n == 0 {
        return Ok(ParseResponse::Empty);
    }
    // A bare address.
    let plain = digits_only(&t, 0, n);
    let signed = n >= 2 && (t[0] == '+' || t[0] == '-') && digits_only(&t, 1, n);
    let dollar = n == 1 && t[0] == '$';
    proof {
        assert(t@.subrange(0, n as int) =~= t@);
        assert(t@.subrange(1, n as int) =~= t@.skip(1));
        lemma_singleton(t@, '$');
    }
    if plain || signed || dollar {
        let x = resolve_chars(&t, page_length, curr_line);
        return Ok(ParseResponse::JumpToLine(x));
    }
    // An address and a command letter.
    if num_letter_matches(&t) {
        let k = first_lower_idx(&t);
        let word = subrange_chars(&t, k, n);
        proof {
            assert(word@ =~= t@.skip(k as int));
            assert(t@.take(k as int) =~= t@.subrange(0, k as int));
            lemma_singleton(t@.take(k as int), '%');
            lemma_singleton(word@, 'p');
            lemma_singleton(word@, 'n');
        }
        let is_p = word.len() == 1 && word[0] == 'p';
        let is_n = word.len() == 1 && word[0] == 'n';
        if k == 1 && t[0] == '%' {
            if is_p {
                return Ok(
                    ParseResponse::Print { use_range: true, start: 0, stop: page_length },
                );
            }
            if is_n {
                return Ok(
                    ParseResponse::Enumerate { use_range: true, start: 0, stop: page_length },
                );
            }
            return Ok(ParseResponse::Invalid);
        }
        let head = subrange_chars(&t, 0, k);
        proof {
            assert(head@ =~= t@.take(k as int));
        }
        let a = resolve_chars(&head, page_length, curr_line);
        if is_p {
            return Ok(ParseResponse::Print { use_range: true, start: a, stop: a });
        }
        if is_n {
            return Ok(ParseResponse::Enumerate { use_range: true, start: a, stop: a });
        }
        return Ok(ParseResponse::Invalid);
    }
    // A range and a command letter.
    if range_letter_matches(&t) {
        let k = comma_idx(&t);
        let start_tok = subrange_chars(&t, 0, k);
        let rest = subrange_chars(&t, k + 1, n);
        let m = first_lower_idx(&rest);
        let stop_tok = subrange_chars(&rest, 0, m);
        let word = subrange_chars(&rest, m, rest.len());
        proof {
            assert(start_tok@ =~= t@.take(k as int));
            assert(rest@ =~= t@.skip(k + 1));
            assert(stop_tok@ =~= rest@.take(m as int));
            assert(word@ =~= rest@.skip(m as int));
            lemma_singleton(word@, 'p');
            lemma_singleton(word@, 'n');
        }
        let s = resolve_chars(&start_tok, page_length, curr_line);
        let e0 = resolve_chars(&stop_tok, page_length, curr_line);
        let e = if e0 < s {
            s
        } else {
            e0
        };
        let is_p = word.len() == 1 && word[0] == 'p';
        let is_n = word.len() == 1 && word[0] == 'n';
        if is_p {
            return Ok(ParseResponse::Print { use_range: true, start: s, stop: e });
        }
        if is_n {
            return Ok(ParseResponse::Enumerate { use_range: true, start: s, stop: e });
        }
        return Ok(ParseResponse::Invalid);
    }
    // Bare letters.
    if letter_only_matches(&t) {
        proof {
            lemma_singleton(t@, 'p');
            lemma_singleton(t@, 'n');
            lemma_singleton(t@, 'z');
            lemma_singleton(t@, 'q');
            lemma_singleton(t@, '$');
            lemma_singleton(t@, 'b');
            lemma_singleton(t@, 'f');
            lemma_singleton(t@, 'h');
            lemma_singleton(t@, 'c');
        }
        if n == 1 {
            let c = t[0];
            return Ok(
                match c {
                    'p' => ParseResponse::Print {
                        use_range: true,
                        start: curr_line,
                        stop: curr_line,
                    },
                    'n' => ParseResponse::Enumerate {
                        use_range: true,
                        start: curr_line,
                        stop: curr_line,
                    },
                    'z' => ParseResponse::Page(24),
                    'q' => ParseResponse::Quit,
                    '$' => ParseResponse::JumpToLine(page_length),
                    'b' => ParseResponse::GoBack(1),
                    'f' => ParseResponse::GoForward(1),
                    'h' => ParseResponse::History(-1),
                    'c' => ParseResponse::Clear,
                    _ => ParseResponse::Invalid,
                },
            );
        }
        return Ok(ParseResponse::Invalid);
    }
    // A letter and an argument.
    if letter_arg_matches(&t) {
        let c = t[0];
        let j = skip_spaces(&t, 1);
        let arg = subrange_chars(&t, j, n);
        proof {
            assert(arg@ =~= t@.subrange(skip_spaces_from(t@, 1), n as int));
        }
        if c == 'g' {
            let a = string_from_chars(&arg);
            return parse_go_command(a.as_str());
        }
        if c == 'l' {
            let a = string_from_chars(&arg);
            return parse_link_command(a.as_str());
        }
        if c == 'z' {
            proof {
                assert(arg@.subrange(0, arg@.len() as int) =~= arg@);
            }
            return match parse_usize(&arg, 0, arg.len()) {
                Some(v) => Ok(ParseResponse::Page(v)),
                None => Ok(ParseResponse::Page(24)),
            };
        }
        if c == 'b' {
            proof {
                assert(arg@.subrange(0, arg@.len() as int) =~= arg@);
            }
            return match parse_usize(&arg, 0, arg.len()) {
                Some(v) => Ok(ParseResponse::GoBack(v)),
                None => Ok(ParseResponse::GoBack(1)),
            };
        }
        if c == 'f' {
            proof {
                assert(arg@.subrange(0, arg@.len() as int) =~= arg@);
            }
            return match parse_usize(&arg, 0, arg.len()) {
                Some(v) => Ok(ParseResponse::GoForward(v)),
                None => Ok(ParseResponse::GoForward(1)),
            };
        }
        if c == 'h' {
            let d = hist_depth_of(&arg);
            return Ok(ParseResponse::History(d));
        }
        return Ok(ParseResponse::Invalid);
    }
    // A delimited search pattern.
    if n >= 2 && (t[0] == '/' || t[0] == '?') && (t[n - 1] == '/' || t[n - 1] == '?') {
        let pat = string_from_chars(&subrange_chars(&t, 1, n - 1));
        if t[0] == '/' {
            return Ok(ParseResponse::SearchForwards(pat));
        }
        return Ok(ParseResponse::SearchBackwards(pat));
    }
    Ok(ParseResponse::Invalid)
}

fn range_letter_matches(t: &Vec<char>) -> (r: bool)
    ensures
        r == is_range_letter(t@),
{
    let n = t.len();
    let k = comma_idx(t);
    if k >= n {
        return false;
    }
    proof {
        assert(t@.take(k as int) =~= t@.subrange(0, k as int));
        if k >= 1 {
            assert(t@.take(k as int).skip(1) =~= t@.subrange(1, k as int));
        }
        lemma_singleton(t@.take(k as int), '.');
    }
    let head_ok = digits_only(t, 0, k) || (k >= 2 && (t[0] == '+' || t[0] == '-') && digits_only(
        t,
        1,
        k,
    )) || (k == 1 && t[0] == '.');
    if !head_ok {
        return false;
    }
    let rest = subrange_chars(t, k + 1, n);
    proof {
        assert(rest@ =~= t@.skip(k + 1));
    }
    let rn = rest.len();
    let m = first_lower_idx(&rest);
    if !(0 < m && m < rn) {
        return false;
    }
    if !lowers_from(&rest, m) {
        return false;
    }
    proof {
        assert(rest@.take(m as int) =~= rest@.subrange(0, m as int));
        assert(rest@.take(m as int).skip(1) =~= rest@.subrange(1, m as int));
        lemma_singleton(rest@.take(m as int), '$');
        lemma_singleton(rest@.take(m as int), '.');
    }
    digits_only(&rest, 0, m) || (m >= 2 && (rest[0] == '+' || rest[0] == '-') && digits_only(
        &rest,
        1,
        m,
    )) || (m == 1 && rest[0] == '$') || (m == 1 && rest[0] == '.')
}

} // verus!
