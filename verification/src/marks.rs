//! Single-character bookmarks: a character-keyed URL store, the command
//! that adds to it, the lookup that bookmark navigation uses, and the text
//! form in which the store is kept on disk. Reading and writing the file
//! itself happens outside the library.
use crate::text::{
    chars_vec, is_space_char, lemma_first_idx_at, lemma_skip_spaces_at, lemma_token_end_at,
    skip_spaces, skip_spaces_from, spec_split, split_chars, string_from_chars, subrange_chars,
    token_end, token_end_from,
};
use crate::urls::{parse_url, url_canon, url_ok};
use crate::{PageBuf, StrResult};
use vstd::prelude::*;
use vstd::string::*;

verus! {

/// The bookmark store: single-character keys mapped to URL strings. Held
/// as a list of records, oldest first; a later record for a key shadows an
/// earlier one.
pub struct Bookmarks {
    pub entries: Vec<(char, String)>,
}

/// The mapping a record list denotes: the latest record for a key wins.
pub open spec fn map_of(s: Seq<(char, String)>) -> Map<char, Seq<char>>
    decreases s.len(),
{
    if s.len() == 0 {
        Map::empty()
    } else {
        map_of(s.drop_last()).insert(s.last().0, s.last().1@)
    }
}

proof fn lemma_map_of_found(s: Seq<(char, String)>, c: char, i: int)
    requires
        0 <= i < s.len(),
        s[i].0 == c,
        forall|j: int| i < j < s.len() ==> s[j].0 != c,
    ensures
        map_of(s).contains_key(c),
        map_of(s)[c] == s[i].1@,
    decreases s.len(),
{
    if i < s.len() - 1 {
        lemma_map_of_found(s.drop_last(), c, i);
    }
}

proof fn lemma_map_of_absent(s: Seq<(char, String)>, c: char)
    requires
        forall|j: int| 0 <= j < s.len() ==> s[j].0 != c,
    ensures
        !map_of(s).contains_key(c),
    decreases s.len(),
{
    if s.len() > 0 {
        lemma_map_of_absent(s.drop_last(), c);
    }
}

impl Bookmarks {
    /// The store read as a map.
    pub open spec fn spec_map(&self) -> Map<char, Seq<char>> {
        map_of(self.entries@)
    }

    pub fn new() -> (r: Bookmarks)
        ensures
            r.spec_map() == Map::<char, Seq<char>>::empty(),
            r.entries@.len() == 0,
    {
        Bookmarks { entries: Vec::new() }
    }

    /// Stores `url` under `mark`, replacing whatever the key held.
    pub fn insert(&mut self, mark: char, url: String)
        ensures
            final(self).spec_map() == old(self).spec_map().insert(mark, url@),
    {
        self.entries.push((mark, url));
        proof {
            assert(self.entries@.drop_last() =~= old(self).entries@);
        }
    }

    /// The URL stored under `mark`, if any.
    pub fn get(&self, mark: char) -> (r: Option<String>)
        ensures
            match r {
                Some(u) => self.spec_map().contains_key(mark) && u@ == self.spec_map()[mark],
                None => !self.spec_map().contains_key(mark),
            },
    {
        let mut i: usize = self.entries.len();
        while i > 0
            invariant
                i <= self.entries@.len(),
                forall|j: int| i <= j < self.entries@.len() ==> self.entries@[j].0 != mark,
            decreases i,
        {
            i -= 1;
            if self.entries[i].0 == mark {
                proof {
                    lemma_map_of_found(self.entries@, mark, i as int);
                }
                return Some(self.entries[i].1.clone());
            }
        }
        proof {
            lemma_map_of_absent(self.entries@, mark);
        }
        None
    }
}

/// Bookmarks the currently loaded page under `mark`; refused when no page
/// is loaded.
pub fn add_bookmark(mark: char, buf: &mut PageBuf, marks: &mut Bookmarks) -> (r: StrResult<()>)
    ensures
        *final(buf) == *old(buf),
        match r {
            Ok(_) => old(buf).url matches Some(u) && final(marks).spec_map() == old(
                marks,
            ).spec_map().insert(mark, u@),
            Err(m) => old(buf).url is None && *final(marks) == *old(marks) && m@
                == "No page loaded to mark."@,
        },
{
    match &buf.url {
        Some(u) => {
            let url = u.clone();
            marks.insert(mark, url);
            Ok(())
        },
        None => Err("No page loaded to mark."),
    }
}

/// Resolves a bookmark to the URL the session should visit: the character
/// must be present and its stored string must parse as a URL.
pub fn go_to_bookmark(mark: char, marks: &Bookmarks) -> (r: StrResult<String>)
    ensures
        match r {
            Ok(u) => marks.spec_map().contains_key(mark) && url_ok(marks.spec_map()[mark]) && u@
                == url_canon(marks.spec_map()[mark]),
            Err(m) => (!marks.spec_map().contains_key(mark) || !url_ok(marks.spec_map()[mark]))
                && m@ == "Unable to load bookmark."@,
        },
{
    match marks.get(mark) {
        Some(u) => match parse_url(u.as_str()) {
            Some(c) => Ok(c),
            None => Err("Unable to load bookmark."),
        },
        None => Err("Unable to load bookmark."),
    }
}

/// The record a bookmark-file line carries: the first character of the
/// first whitespace-separated token is the key, the second token is the
/// URL; a line with fewer than two tokens carries none.
pub open spec fn spec_mark_of_line(l: Seq<char>) -> Option<(char, Seq<char>)> {
    let a = skip_spaces_from(l, 0);
    let b = token_end_from(l, a);
    let c = skip_spaces_from(l, b);
    let d = token_end_from(l, c);
    if a < l.len() && c < l.len() {
        Some((l[a], l.subrange(c, d)))
    } else {
        None
    }
}

/// The map a sequence of bookmark-file lines denotes.
pub open spec fn spec_marks_from(lines: Seq<Seq<char>>) -> Map<char, Seq<char>>
    decreases lines.len(),
{
    if lines.len() == 0 {
        Map::empty()
    } else {
        let m = spec_marks_from(lines.drop_last());
        match spec_mark_of_line(lines.last()) {
            Some(kv) => m.insert(kv.0, kv.1),
            None => m,
        }
    }
}

/// The map the bookmark file text denotes: one record per line, later
/// lines overriding earlier ones, malformed lines ignored.
pub open spec fn spec_parse_marks(text: Seq<char>) -> Map<char, Seq<char>> {
    spec_marks_from(spec_split(text, '\n'))
}

/// Reads the bookmark file format.
pub fn parse_marks(text: &str) -> (r: Bookmarks)
    ensures
        r.spec_map() == spec_parse_marks(text@),
{
    let chars = chars_vec(text);
    let lines = split_chars(&chars, '\n');
    let ghost line_views = spec_split(text@, '\n');
    let mut marks = Bookmarks::new();
    let mut i: usize = 0;
    proof {
        assert(line_views.take(0) =~~= Seq::<Seq<char>>::empty());
    }
    while i < lines.len()
        invariant
            i <= lines@.len(),
            lines.deep_view() == line_views,
            marks.spec_map() == spec_marks_from(line_views.take(i as int)),
        decreases lines@.len() - i,
    {
        let line = &lines[i];
        proof {
            assert(line@ == line_views[i as int]);
            assert(line_views.take(i + 1).drop_last() =~~= line_views.take(i as int));
            assert(line_views.take(i + 1).last() == line@);
        }
        let a = skip_spaces(line, 0);
        let b = token_end(line, a);
        let c = skip_spaces(line, b);
        let d = token_end(line, c);
        if a < line.len() && c < line.len() {
            let key = line[a];
            let url = string_from_chars(&subrange_chars(line, c, d));
            marks.insert(key, url);
        }
        i += 1;
    }
    proof {
        assert(line_views.take(line_views.len() as int) =~~= line_views);
    }
    marks
}

/// The body of one record's line: the key, a space, the URL.
pub open spec fn spec_mark_body(e: (char, String)) -> Seq<char> {
    seq![e.0, ' '] + e.1@
}

/// One record's line in the file: its body and the line break.
pub open spec fn spec_mark_line(e: (char, String)) -> Seq<char> {
    spec_mark_body(e) + seq!['\n']
}

/// The text form of the store: one `key space url` record per line.
pub open spec fn spec_render_marks(s: Seq<(char, String)>) -> Seq<char>
    decreases s.len(),
{
    if s.len() == 0 {
        Seq::empty()
    } else {
        spec_render_marks(s.drop_last()) + spec_mark_line(s.last())
    }
}

/// Writes the store in the bookmark file format.
pub fn render_marks(marks: &Bookmarks) -> (r: String)
    ensures
        r@ == spec_render_marks(marks.entries@),
{
    let mut out: Vec<char> = Vec::new();
    let mut i: usize = 0;
    proof {
        assert(marks.entries@.take(0) =~= Seq::<(char, String)>::empty());
    }
    while i < marks.entries.len()
        invariant
            i <= marks.entries@.len(),
            out@ == spec_render_marks(marks.entries@.take(i as int)),
        decreases marks.entries@.len() - i,
    {
        let ghost before = out@;
        let entry = &marks.entries[i];
        out.push(entry.0);
        out.push(' ');
        let url_chars = chars_vec(entry.1.as_str());
        let mut j: usize = 0;
        proof {
            assert(out@ =~= before + seq![marks.entries@[i as int].0, ' '] + url_chars@.take(0));
        }
        while j < url_chars.len()
            invariant
                j <= url_chars@.len(),
                url_chars@ == marks.entries@[i as int].1@,
                i < marks.entries@.len(),
                out@ == before + seq![marks.entries@[i as int].0, ' '] + url_chars@.take(j as int),
            decreases url_chars@.len() - j,
        {
            out.push(url_chars[j]);
            proof {
                assert(out@ =~= before + seq![marks.entries@[i as int].0, ' '] + url_chars@.take(
                    j + 1,
                ));
            }
            j += 1;
        }
        out.push('\n');
        proof {
            assert(marks.entries@.take(i + 1).drop_last() =~= marks.entries@.take(i as int));
            assert(marks.entries@.take(i + 1).last() == marks.entries@[i as int]);
            assert(url_chars@.take(j as int) =~= url_chars@);
            assert(out@ =~= spec_render_marks(marks.entries@.take(i + 1)));
        }
        i += 1;
    }
    proof {
        assert(marks.entries@.take(marks.entries@.len() as int) =~= marks.entries@);
    }
    string_from_chars(&out)
}


/// The record survives the file format: its key is not whitespace and its
/// URL is nonempty and free of whitespace.
pub open spec fn entry_round_trippable(e: (char, String)) -> bool {
    &&& !is_space_char(e.0)
    &&& e.1@.len() >= 1
    &&& forall|j: int| 0 <= j < e.1@.len() ==> !is_space_char(#[trigger] e.1@[j])
}

/// Splitting a text that opens with a separator-free line and the
/// separator peels that line off.
proof fn lemma_split_prefix(l: Seq<char>, rest: Seq<char>, sep: char)
    requires
        forall|j: int| 0 <= j < l.len() ==> #[trigger] l[j] != sep,
    ensures
        spec_split(l + seq![sep] + rest, sep) == seq![l] + spec_split(rest, sep),
{
    let s = l + seq![sep] + rest;
    assert forall|j: int| 0 <= j < l.len() implies #[trigger] s[j] != sep by {
        assert(s[j] == l[j]);
    }
    assert(s[l.len() as int] == sep);
    lemma_first_idx_at(s, sep, l.len() as int);
    assert(s.take(l.len() as int) =~= l);
    assert(s.skip(l.len() as int + 1) =~= rest);
    assert(spec_split(s, sep) =~~= seq![l] + spec_split(rest, sep));
}

/// The rendering unrolled from the front: the first record's line, then
/// the rest.
proof fn lemma_render_left(s: Seq<(char, String)>)
    requires
        s.len() > 0,
    ensures
        spec_render_marks(s) == spec_mark_line(s[0]) + spec_render_marks(s.drop_first()),
    decreases s.len(),
{
    if s.len() == 1 {
        assert(s.drop_last() =~= Seq::<(char, String)>::empty());
        assert(s.drop_first() =~= Seq::<(char, String)>::empty());
        assert(spec_render_marks(s) =~= spec_mark_line(s[0]) + spec_render_marks(s.drop_first()));
    } else {
        let hd = s.drop_last();
        lemma_render_left(hd);
        assert(hd[0] == s[0]);
        assert(hd.drop_first() =~= s.drop_first().drop_last());
        assert(s.drop_first().last() == s.last());
        assert(spec_render_marks(s.drop_first()) == spec_render_marks(s.drop_first().drop_last())
            + spec_mark_line(s.last()));
        assert(spec_render_marks(s) =~= spec_mark_line(s[0]) + spec_render_marks(s.drop_first()));
    }
}

/// Splitting the rendered store on line breaks gives back one line per
/// record, plus the empty segment after the final break.
proof fn lemma_render_split(s: Seq<(char, String)>)
    requires
        forall|i: int| 0 <= i < s.len() ==> entry_round_trippable(#[trigger] s[i]),
    ensures
        spec_split(spec_render_marks(s), '\n') == s.map_values(
            |e: (char, String)| spec_mark_body(e),
        ) + seq![Seq::<char>::empty()],
    decreases s.len(),
{
    let bodies = s.map_values(|e: (char, String)| spec_mark_body(e));
    if s.len() == 0 {
        assert(spec_split(Seq::<char>::empty(), '\n') =~~= seq![Seq::<char>::empty()]);
        assert(spec_split(spec_render_marks(s), '\n') =~~= bodies + seq![Seq::<char>::empty()]);
    } else {
        lemma_render_left(s);
        let body = spec_mark_body(s[0]);
        let rest = spec_render_marks(s.drop_first());
        assert(spec_render_marks(s) =~= body + seq!['\n'] + rest);
        assert forall|j: int| 0 <= j < body.len() implies #[trigger] body[j] != '\n' by {
            if j >= 2 {
                assert(body[j] == s[0].1@[j - 2]);
            }
        }
        lemma_split_prefix(body, rest, '\n');
        assert(forall|i: int|
            0 <= i < s.drop_first().len() ==> entry_round_trippable(
                #[trigger] s.drop_first()[i],
            ));
        lemma_render_split(s.drop_first());
        assert(bodies[0] == body);
        assert(bodies.drop_first() =~~= s.drop_first().map_values(
            |e: (char, String)| spec_mark_body(e),
        ));
        assert(spec_split(spec_render_marks(s), '\n') =~~= bodies + seq![Seq::<char>::empty()]);
    }
}

/// A record's line reads back as exactly that record.
proof fn lemma_mark_body_parses(e: (char, String))
    requires
        entry_round_trippable(e),
    ensures
        spec_mark_of_line(spec_mark_body(e)) == Some((e.0, e.1@)),
{
    let l = spec_mark_body(e);
    assert(l.len() == 2 + e.1@.len());
    assert(l[0] == e.0 && l[1] == ' ');
    assert forall|j: int| 2 <= j < l.len() implies !is_space_char(#[trigger] l[j]) by {
        assert(l[j] == e.1@[j - 2]);
    }
    lemma_skip_spaces_at(l, 0, 0);
    lemma_token_end_at(l, 0, 1);
    lemma_skip_spaces_at(l, 1, 2);
    lemma_token_end_at(l, 2, l.len() as int);
    assert(l.subrange(2, l.len() as int) =~= e.1@);
}

/// Reading one parsed line per record rebuilds the record list's map.
proof fn lemma_marks_from_bodies(s: Seq<(char, String)>)
    requires
        forall|i: int| 0 <= i < s.len() ==> entry_round_trippable(#[trigger] s[i]),
    ensures
        spec_marks_from(s.map_values(|e: (char, String)| spec_mark_body(e))) == map_of(s),
    decreases s.len(),
{
    let bodies = s.map_values(|e: (char, String)| spec_mark_body(e));
    if s.len() == 0 {
        assert(bodies =~~= Seq::<Seq<char>>::empty());
    } else {
        assert(bodies.drop_last() =~~= s.drop_last().map_values(
            |e: (char, String)| spec_mark_body(e),
        ));
        assert(bodies.last() == spec_mark_body(s.last()));
        lemma_marks_from_bodies(s.drop_last());
        lemma_mark_body_parses(s.last());
    }
}

/// The bookmark round trip: rendering the store to its file format and
/// parsing the text back yields the same map, for any store whose keys
/// are not whitespace and whose URLs are nonempty and whitespace-free.
pub proof fn lemma_marks_round_trip(m: Bookmarks)
    requires
        forall|i: int|
            0 <= i < m.entries@.len() ==> entry_round_trippable(#[trigger] m.entries@[i]),
    ensures
        spec_parse_marks(spec_render_marks(m.entries@)) == m.spec_map(),
{
    let s = m.entries@;
    let bodies = s.map_values(|e: (char, String)| spec_mark_body(e));
    lemma_render_split(s);
    let lines = bodies + seq![Seq::<char>::empty()];
    assert(lines.drop_last() =~~= bodies);
    assert(lines.last() =~= Seq::<char>::empty());
    assert(spec_mark_of_line(Seq::<char>::empty()) is None);
    assert(spec_marks_from(lines) == spec_marks_from(bodies));
    lemma_marks_from_bodies(s);
}

} // verus!
