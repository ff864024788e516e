//! Character-level helpers shared by the command grammar, the document
//! loader and the bookmark file format: whitespace and digit classes,
//! decimal reading and rendering, trimming, and prefix tests.
use vstd::prelude::*;
use vstd::string::*;

verus! {

/// Whitespace as the grammar knows it: the ASCII space, tab, newline,
/// carriage return, vertical tab and form feed.
pub open spec fn is_space_char(c: char) -> bool {
    c == ' ' || c == '\t' || c == '\n' || c == '\r' || c == '\u{b}' || c == '\u{c}'
}

pub fn is_space(c: char) -> (r: bool)
    ensures
        r == is_space_char(c),
{
    c == ' ' || c == '\t' || c == '\n' || c == '\r' || c == '\u{b}' || c == '\u{c}'
}

pub open spec fn is_digit_char(c: char) -> bool {
    48 <= c as u32 <= 57
}

pub fn is_digit(c: char) -> (r: bool)
    ensures
        r == is_digit_char(c),
{
    let u = c as u32;
    48 <= u && u <= 57
}

pub open spec fn is_lower_char(c: char) -> bool {
    97 <= c as u32 <= 122
}

pub fn is_lower(c: char) -> (r: bool)
    ensures
        r == is_lower_char(c),
{
    let u = c as u32;
    97 <= u && u <= 122
}

pub open spec fn digit_val(c: char) -> nat {
    (c as u32 - 48) as nat
}

/// The value of a decimal digit string, most significant digit first.
pub open spec fn dec_val(s: Seq<char>) -> nat
    decreases s.len(),
{
    if s.len() == 0 {
        0
    } else {
        dec_val(s.drop_last()) * 10 + digit_val(s.last())
    }
}

pub open spec fn all_digits(s: Seq<char>) -> bool {
    forall|i: int| 0 <= i < s.len() ==> is_digit_char(#[trigger] s[i])
}

/// A string reads as a `usize`: nonempty, all digits, and in range.
pub open spec fn parses_usize(s: Seq<char>) -> bool {
    s.len() >= 1 && all_digits(s) && dec_val(s) <= usize::MAX
}

/// A longer digit string never has a smaller value than its prefix.
pub proof fn lemma_dec_val_prefix(s: Seq<char>, j: int)
    requires
        0 <= j <= s.len(),
    ensures
        dec_val(s.take(j)) <= dec_val(s),
    decreases s.len() - j,
{
    if j == s.len() {
        assert(s.take(j) =~= s);
    } else {
        assert(s.take(j + 1).drop_last() =~= s.take(j));
        lemma_dec_val_prefix(s, j + 1);
    }
}

/// The characters of `s`, in order.
pub fn chars_vec(s: &str) -> (r: Vec<char>)
    ensures
        r@ == s@,
{
    let n = s.unicode_len();
    let mut v: Vec<char> = Vec::new();
    let mut i: usize = 0;
    while i < n
        invariant
            i <= n,
            n == s@.len(),
            v@ == s@.take(i as int),
        decreases n - i,
    {
        v.push(s.get_char(i));
        proof {
            assert(v@ =~= s@.take(i + 1));
        }
        i += 1;
    }
    proof {
        assert(v@ =~= s@);
    }
    v
}

/// Reads `s[from..to]` as a decimal `usize`; `None` when the range is
/// empty, holds a non-digit, or the value does not fit.
pub fn parse_usize(s: &Vec<char>, from: usize, to: usize) -> (r: Option<usize>)
    requires
        from <= to <= s@.len(),
    ensures
        ({
            let t = s@.subrange(from as int, to as int);
            match r {
                Some(v) => parses_usize(t) && v == dec_val(t),
                None => !parses_usize(t),
            }
        }),
{
    let ghost t = s@.subrange(from as int, to as int);
    if from == to {
        return None;
    }
    let mut i: usize = from;
    let mut acc: usize = 0;
    while i < to
        invariant
            from <= i <= to <= s@.len(),
            t == s@.subrange(from as int, to as int),
            all_digits(t.take(i - from)),
            acc == dec_val(t.take(i - from)),
        decreases to - i,
    {
        let c = s[i];
        proof {
            assert(t[i - from] == s@[i as int]);
        }
        if !is_digit(c) {
            return None;
        }
        let d = (c as u32 - 48) as usize;
        proof {
            assert(t.take(i - from + 1).drop_last() =~= t.take(i - from));
            assert(t.take(i - from + 1).last() == c);
            assert(digit_val(c) == d);
        }
        let step = match acc.checked_mul(10) {
            Some(a) => a.checked_add(d),
            None => None,
        };
        match step {
            Some(a) => {
                acc = a;
            },
            None => {
                proof {
                    assert(dec_val(t.take(i - from + 1)) > usize::MAX);
                    lemma_dec_val_prefix(t, i - from + 1);
                }
                return None;
            },
        }
        i += 1;
    }
    proof {
        assert(t.take(to - from) =~= t);
    }
    Some(acc)
}

/// The digit character for a value below ten.
pub open spec fn char_of_digit(d: int) -> char {
    if d == 0 {
        '0'
    } else if d == 1 {
        '1'
    } else if d == 2 {
        '2'
    } else if d == 3 {
        '3'
    } else if d == 4 {
        '4'
    } else if d == 5 {
        '5'
    } else if d == 6 {
        '6'
    } else if d == 7 {
        '7'
    } else if d == 8 {
        '8'
    } else {
        '9'
    }
}

fn digit_str(d: usize) -> (r: &'static str)
    requires
        d < 10,
    ensures
        r@ == seq![char_of_digit(d as int)],
{
    proof {
        reveal_strlit("0");
        reveal_strlit("1");
        reveal_strlit("2");
        reveal_strlit("3");
        reveal_strlit("4");
        reveal_strlit("5");
        reveal_strlit("6");
        reveal_strlit("7");
        reveal_strlit("8");
        reveal_strlit("9");
    }
    let r = match d {
        0 => "0",
        1 => "1",
        2 => "2",
        3 => "3",
        4 => "4",
        5 => "5",
        6 => "6",
        7 => "7",
        8 => "8",
        _ => "9",
    };
    proof {
        assert(r@ =~= seq![char_of_digit(d as int)]);
    }
    r
}

/// The decimal rendering of `n`, most significant digit first.
pub open spec fn dec_str(n: nat) -> Seq<char>
    decreases n,
{
    if n < 10 {
        seq![char_of_digit(n as int)]
    } else {
        dec_str(n / 10).push(char_of_digit((n % 10) as int))
    }
}

/// Renders `n` in decimal.
pub fn usize_to_string(n: usize) -> (r: String)
    ensures
        r@ == dec_str(n as nat),
    decreases n,
{
    if n < 10 {
        let s = digit_str(n);
        let r = String::from_str(s);
        r
    } else {
        proof {
            assert(n / 10 < n && n / 10 >= 1 && n % 10 < 10) by (nonlinear_arith)
                requires
                    n >= 10,
            ;
        }
        let mut r = usize_to_string(n / 10);
        let ghost head = r@;
        let d = n % 10;
        r.append(digit_str(d));
        proof {
            assert(r@ =~= head.push(char_of_digit(d as int)));
            assert((n as nat) / 10 == (n / 10) as nat && (n as nat) % 10 == (n % 10) as nat);
        }
        r
    }
}

pub open spec fn spec_trim_start(s: Seq<char>) -> Seq<char>
    decreases s.len(),
{
    if s.len() > 0 && is_space_char(s[0]) {
        spec_trim_start(s.drop_first())
    } else {
        s
    }
}

pub open spec fn spec_trim_end(s: Seq<char>) -> Seq<char>
    decreases s.len(),
{
    if s.len() > 0 && is_space_char(s.last()) {
        spec_trim_end(s.drop_last())
    } else {
        s
    }
}

/// `s` with leading and trailing whitespace removed.
pub open spec fn spec_trim(s: Seq<char>) -> Seq<char> {
    spec_trim_end(spec_trim_start(s))
}

proof fn lemma_trim_start_skip(s: Seq<char>, b: int)
    requires
        0 <= b <= s.len(),
        forall|i: int| 0 <= i < b ==> is_space_char(#[trigger] s[i]),
        b < s.len() ==> !is_space_char(s[b]),
    ensures
        spec_trim_start(s) == s.skip(b),
    decreases b,
{
    if b == 0 {
        assert(s.skip(0) =~= s);
    } else {
        assert(s.drop_first() =~= s.skip(1));
        lemma_trim_start_skip(s.skip(1), b - 1);
        assert(s.skip(1).skip(b - 1) =~= s.skip(b));
    }
}

proof fn lemma_trim_end_take(s: Seq<char>, e: int)
    requires
        0 <= e <= s.len(),
        forall|i: int| e <= i < s.len() ==> is_space_char(#[trigger] s[i]),
        e > 0 ==> !is_space_char(s[e - 1]),
    ensures
        spec_trim_end(s) == s.take(e),
    decreases s.len() - e,
{
    if e == s.len() {
        assert(s.take(e) =~= s);
    } else {
        assert(s.drop_last() =~= s.take(s.len() - 1));
        lemma_trim_end_take(s.take(s.len() - 1), e);
        assert(s.take(s.len() - 1).take(e) =~= s.take(e));
    }
}

/// `v` with leading and trailing whitespace removed.
pub fn trim_chars(v: &Vec<char>) -> (r: Vec<char>)
    ensures
        r@ == spec_trim(v@),
{
    let n = v.len();
    let mut b: usize = 0;
    while b < n && is_space(v[b])
        invariant
            b <= n,
            n == v@.len(),
            forall|i: int| 0 <= i < b ==> is_space_char(#[trigger] v@[i]),
        decreases n - b,
    {
        b += 1;
    }
    proof {
        lemma_trim_start_skip(v@, b as int);
    }
    let mut e: usize = n;
    while e > b && is_space(v[e - 1])
        invariant
            b <= e <= n,
            n == v@.len(),
            forall|i: int| e <= i < n ==> is_space_char(#[trigger] v@[i]),
        decreases e,
    {
        e -= 1;
    }
    let ghost mid = v@.skip(b as int);
    proof {
        if e == b {
            lemma_trim_end_take(mid, 0);
        } else {
            lemma_trim_end_take(mid, e - b);
        }
        assert(mid.take(e - b) =~= v@.subrange(b as int, e as int));
    }
    let mut r: Vec<char> = Vec::new();
    let mut i: usize = b;
    while i < e
        invariant
            b <= i <= e <= n,
            n == v@.len(),
            r@ == v@.subrange(b as int, i as int),
        decreases e - i,
    {
        r.push(v[i]);
        proof {
            assert(r@ =~= v@.subrange(b as int, i + 1));
        }
        i += 1;
    }
    r
}

/// The index of the first occurrence of `sep` in `s`, or `s.len()` when
/// there is none.
pub open spec fn first_idx(s: Seq<char>, sep: char) -> int
    decreases s.len(),
{
    if s.len() == 0 {
        0
    } else if s[0] == sep {
        0
    } else {
        1 + first_idx(s.drop_first(), sep)
    }
}

pub proof fn lemma_first_idx_le(s: Seq<char>, sep: char)
    ensures
        0 <= first_idx(s, sep) <= s.len(),
        first_idx(s, sep) < s.len() ==> s[first_idx(s, sep)] == sep,
        forall|j: int| 0 <= j < first_idx(s, sep) ==> s[j] != sep,
    decreases s.len(),
{
    if s.len() > 0 && s[0] != sep {
        lemma_first_idx_le(s.drop_first(), sep);
        assert forall|j: int| 0 <= j < first_idx(s, sep) implies s[j] != sep by {
            if j > 0 {
                assert(s.drop_first()[j - 1] == s[j]);
            }
        }
    }
}

/// Pins `first_idx` down from a witness: `sep` first occurs at `k`.
pub proof fn lemma_first_idx_at(s: Seq<char>, sep: char, k: int)
    requires
        0 <= k <= s.len(),
        forall|j: int| 0 <= j < k ==> s[j] != sep,
        k < s.len() ==> s[k] == sep,
    ensures
        first_idx(s, sep) == k,
    decreases k,
{
    if k == 0 {
        if s.len() > 0 && s[0] != sep {
            lemma_first_idx_le(s.drop_first(), sep);
        }
    } else {
        lemma_first_idx_at(s.drop_first(), sep, k - 1);
    }
}

/// `s` split on `sep`: the separators vanish, and a separator at either
/// edge or two in a row yield an empty segment, as `str::split` has it.
pub open spec fn spec_split(s: Seq<char>, sep: char) -> Seq<Seq<char>>
    decreases s.len(),
    via spec_split_decreases
{
    let k = first_idx(s, sep);
    if k == s.len() {
        seq![s]
    } else {
        seq![s.take(k)] + spec_split(s.skip(k + 1), sep)
    }
}

#[via_fn]
proof fn spec_split_decreases(s: Seq<char>, sep: char) {
    lemma_first_idx_le(s, sep);
}

/// Splits `v` on `sep`.
pub fn split_chars(v: &Vec<char>, sep: char) -> (r: Vec<Vec<char>>)
    ensures
        r.deep_view() == spec_split(v@, sep),
        r@.len() >= 1,
{
    let n = v.len();
    let mut r: Vec<Vec<char>> = Vec::new();
    let mut seg: Vec<char> = Vec::new();
    let mut start: usize = 0;
    let mut i: usize = 0;
    proof {
        assert(v@.skip(0) =~= v@);
        assert(r.deep_view() + spec_split(v@.skip(0), sep) =~~= spec_split(v@, sep));
    }
    while i < n
        invariant
            start <= i <= n,
            n == v@.len(),
            seg@ == v@.subrange(start as int, i as int),
            forall|j: int| start <= j < i ==> v@[j] != sep,
            r.deep_view() + spec_split(v@.skip(start as int), sep) =~~= spec_split(v@, sep),
        decreases n - i,
    {
        let c = v[i];
        if c == sep {
            let ghost r_dv = r.deep_view();
            let ghost seg_v = seg@;
            proof {
                let rest = v@.skip(start as int);
                lemma_first_idx_at(rest, sep, i - start);
                assert(rest.take(i - start) =~= seg_v);
                assert(rest.skip(i - start + 1) =~= v@.skip(i + 1));
                assert(spec_split(rest, sep) =~~= seq![seg_v] + spec_split(v@.skip(i + 1), sep));
            }
            r.push(seg);
            seg = Vec::new();
            start = i + 1;
            proof {
                assert(r.deep_view() =~~= r_dv.push(seg_v));
                assert(seg@ =~= v@.subrange(start as int, start as int));
                assert(r.deep_view() + spec_split(v@.skip(start as int), sep) =~~= spec_split(
                    v@,
                    sep,
                ));
            }
        } else {
            proof {
                assert(seg@.push(c) =~= v@.subrange(start as int, i + 1));
            }
            seg.push(c);
        }
        i += 1;
    }
    let ghost r_dv = r.deep_view();
    let ghost seg_v = seg@;
    proof {
        let rest = v@.skip(start as int);
        lemma_first_idx_at(rest, sep, n - start);
        assert(rest =~= seg_v);
        assert(spec_split(rest, sep) =~~= seq![seg_v]);
    }
    r.push(seg);
    proof {
        assert(r.deep_view() =~~= r_dv.push(seg_v));
        assert(r.deep_view() =~~= spec_split(v@, sep));
    }
    r
}

/// A sequence equals the one-element sequence `[c]` exactly when it has
/// length one and holds `c`.
pub proof fn lemma_singleton(s: Seq<char>, c: char)
    ensures
        (s == seq![c]) <==> (s.len() == 1 && s[0] == c),
{
    if s.len() == 1 && s[0] == c {
        assert(s =~= seq![c]);
    }
    if s == seq![c] {
        assert(seq![c].len() == 1 && seq![c][0] == c);
    }
}

/// The first index at or after `i` holding a non-space character, or
/// `s.len()` when spaces run to the end.
pub open spec fn skip_spaces_from(s: Seq<char>, i: int) -> int
    decreases s.len() - i,
{
    if !(0 <= i < s.len()) {
        s.len() as int
    } else if is_space_char(s[i]) {
        skip_spaces_from(s, i + 1)
    } else {
        i
    }
}

/// The first index at or after `i` holding a space, or `s.len()`; the
/// token started at `i` ends there.
pub open spec fn token_end_from(s: Seq<char>, i: int) -> int
    decreases s.len() - i,
{
    if !(0 <= i < s.len()) {
        s.len() as int
    } else if is_space_char(s[i]) {
        i
    } else {
        token_end_from(s, i + 1)
    }
}

pub proof fn lemma_skip_spaces_at(s: Seq<char>, i: int, k: int)
    requires
        0 <= i <= k <= s.len(),
        forall|j: int| i <= j < k ==> is_space_char(#[trigger] s[j]),
        k < s.len() ==> !is_space_char(s[k]),
    ensures
        skip_spaces_from(s, i) == k,
    decreases k - i,
{
    if i < k {
        lemma_skip_spaces_at(s, i + 1, k);
    }
}

pub proof fn lemma_token_end_at(s: Seq<char>, i: int, k: int)
    requires
        0 <= i <= k <= s.len(),
        forall|j: int| i <= j < k ==> !is_space_char(#[trigger] s[j]),
        k < s.len() ==> is_space_char(s[k]),
    ensures
        token_end_from(s, i) == k,
    decreases k - i,
{
    if i < k {
        lemma_token_end_at(s, i + 1, k);
    }
}

/// Scans past whitespace.
pub fn skip_spaces(v: &Vec<char>, from: usize) -> (r: usize)
    requires
        from <= v@.len(),
    ensures
        from <= r <= v@.len(),
        r == skip_spaces_from(v@, from as int),
{
    let n = v.len();
    let mut i: usize = from;
    while i < n && is_space(v[i])
        invariant
            from <= i <= n,
            n == v@.len(),
            forall|j: int| from <= j < i ==> is_space_char(#[trigger] v@[j]),
        decreases n - i,
    {
        i += 1;
    }
    proof {
        lemma_skip_spaces_at(v@, from as int, i as int);
    }
    i
}

/// Scans to the end of the whitespace-free token starting at `from`.
pub fn token_end(v: &Vec<char>, from: usize) -> (r: usize)
    requires
        from <= v@.len(),
    ensures
        from <= r <= v@.len(),
        r == token_end_from(v@, from as int),
{
    let n = v.len();
    let mut i: usize = from;
    while i < n && !is_space(v[i])
        invariant
            from <= i <= n,
            n == v@.len(),
            forall|j: int| from <= j < i ==> !is_space_char(#[trigger] v@[j]),
        decreases n - i,
    {
        i += 1;
    }
    proof {
        lemma_token_end_at(v@, from as int, i as int);
    }
    i
}

/// Copies `v[from..to]`.
pub fn subrange_chars(v: &Vec<char>, from: usize, to: usize) -> (r: Vec<char>)
    requires
        from <= to <= v@.len(),
    ensures
        r@ == v@.subrange(from as int, to as int),
{
    let mut r: Vec<char> = Vec::new();
    let mut i: usize = from;
    while i < to
        invariant
            from <= i <= to <= v@.len(),
            r@ == v@.subrange(from as int, i as int),
        decreases to - i,
    {
        r.push(v[i]);
        proof {
            assert(r@ =~= v@.subrange(from as int, i + 1));
        }
        i += 1;
    }
    r
}

/// Relies on `String`'s `FromIterator<char>` implementation: collecting
/// characters yields the string of exactly those characters.
#[verifier::external_body]
pub fn string_from_chars(v: &Vec<char>) -> (r: String)
    ensures
        r@ == v@,
{
    v.iter().collect()
}

/// `p` is a prefix of `s`.
pub open spec fn spec_has_prefix(s: Seq<char>, p: Seq<char>) -> bool {
    p.len() <= s.len() && forall|i: int| 0 <= i < p.len() ==> s[i] == p[i]
}

pub fn has_prefix(s: &Vec<char>, p: &str) -> (r: bool)
    ensures
        r == spec_has_prefix(s@, p@),
{
    let pl = p.unicode_len();
    if pl > s.len() {
        return false;
    }
    let mut i: usize = 0;
    while i < pl
        invariant
            i <= pl,
            pl == p@.len() <= s@.len(),
            forall|j: int| 0 <= j < i ==> s@[j] == p@[j],
        decreases pl - i,
    {
        if s[i] != p.get_char(i) {
            return false;
        }
        i += 1;
    }
    true
}

} // verus!
