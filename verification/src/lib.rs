//! A keyboard-driven, line-oriented client core for the Gemini hypertext
//! protocol, in the style of the `ed` line editor: terse textual commands
//! navigate a numbered buffer of typed lines rendered from a fetched
//! document, with session history and single-character bookmarks.
//!
//! This crate holds the command grammar, the document-to-buffer loader and
//! the cursor, history and bookmark state machines, all verified. Network
//! transport and terminal I/O live outside the library and hand it plain
//! values.
use vstd::prelude::*;

pub mod exec;
pub mod interface;
pub mod marks;
pub mod patterns;
pub mod text;
pub mod urls;

verus! {

/// The result type used throughout: errors are short static messages that
/// the session loop prints verbatim.
pub type StrResult<T> = Result<T, &'static str>;

/// One displayable line of a loaded document.
///
/// Link ids are assigned sequentially starting at 1 within one loaded
/// document; the counter resets on every load.
#[derive(Debug, PartialEq)]
pub enum GemTextLine {
    H1(String),
    H2(String),
    H3(String),
    /// A link: id, label shown to the user, and the resolved target URL.
    Link(usize, String, String),
    Line(String),
}

/// The mathematical shape of a `GemTextLine`: the same variants over
/// character sequences, the form the contracts speak of.
pub enum SpecLine {
    H1(Seq<char>),
    H2(Seq<char>),
    H3(Seq<char>),
    Link(int, Seq<char>, Seq<char>),
    Line(Seq<char>),
}

impl View for GemTextLine {
    type V = SpecLine;

    open spec fn view(&self) -> SpecLine {
        match self {
            GemTextLine::H1(s) => SpecLine::H1(s@),
            GemTextLine::H2(s) => SpecLine::H2(s@),
            GemTextLine::H3(s) => SpecLine::H3(s@),
            GemTextLine::Link(id, label, target) => SpecLine::Link(*id as int, label@, target@),
            GemTextLine::Line(s) => SpecLine::Line(s@),
        }
    }
}

impl DeepView for GemTextLine {
    type V = SpecLine;

    open spec fn deep_view(&self) -> SpecLine {
        self.view()
    }
}

impl SpecLine {
    /// The text a search inspects: the line's own text, or a link's label.
    pub open spec fn visible_text(self) -> Seq<char> {
        match self {
            SpecLine::H1(s) => s,
            SpecLine::H2(s) => s,
            SpecLine::H3(s) => s,
            SpecLine::Link(_, label, _) => label,
            SpecLine::Line(s) => s,
        }
    }

    /// The text printed for the line: a link shows its id and label.
    pub open spec fn rendered(self) -> Seq<char> {
        match self {
            SpecLine::H1(s) => s,
            SpecLine::H2(s) => s,
            SpecLine::H3(s) => s,
            SpecLine::Link(id, label, _) => seq!['['] + text::dec_str(id as nat) + seq![
                ']',
                ' ',
                '=',
                '>',
                ' ',
            ] + label,
            SpecLine::Line(s) => s,
        }
    }
}

/// The page buffer: the parsed lines of the current document, a cursor,
/// and the URL the document was loaded from.
pub struct PageBuf {
    pub lines: Vec<GemTextLine>,
    pub curr_line: usize,
    pub url: Option<String>,
}

impl PageBuf {
    /// The cursor stays inside the buffer, or at 0 while it is empty.
    pub open spec fn wf(&self) -> bool {
        if self.lines@.len() == 0 {
            self.curr_line == 0
        } else {
            self.curr_line < self.lines@.len()
        }
    }

    pub fn new() -> (r: PageBuf)
        ensures
            r.wf(),
            r.lines@.len() == 0,
            r.curr_line == 0,
            r.url is None,
    {
        PageBuf { lines: Vec::new(), curr_line: 0, url: None }
    }
}

/// The session history: the URLs visited, oldest first, and the current
/// position in that list.
pub struct History {
    pub entry: Vec<String>,
    pub curr_entry: usize,
}

impl History {
    /// The position stays inside the list, or at 0 while it is empty.
    pub open spec fn wf(&self) -> bool {
        if self.entry@.len() == 0 {
            self.curr_entry == 0
        } else {
            self.curr_entry < self.entry@.len()
        }
    }

    /// The visited URLs as plain character sequences.
    pub open spec fn urls(&self) -> Seq<Seq<char>> {
        self.entry.deep_view()
    }

    pub fn new() -> (r: History)
        ensures
            r.wf(),
            r.entry@.len() == 0,
            r.curr_entry == 0,
    {
        History { entry: Vec::new(), curr_entry: 0 }
    }

    /// Appends a visited URL. Appending while the position is not at the
    /// tail first discards every entry after the position, so that going
    /// back and then somewhere new starts a fresh branch; afterwards the
    /// position is at the new tail.
    pub fn add(&mut self, url: &str)
        requires
            old(self).wf(),
        ensures
            final(self).wf(),
            final(self).urls() =~= old(self).urls().take(
                if old(self).entry@.len() == 0 {
                    0
                } else {
                    old(self).curr_entry + 1
                },
            ).push(url@),
            final(self).curr_entry == final(self).entry@.len() - 1,
            final(self).entry@.len() >= 1,
    {
        let keep: usize = if self.entry.len() == 0 {
            0
        } else {
            self.curr_entry + 1
        };
        self.entry.truncate(keep);
        self.entry.push(String::from_str(url));
        self.curr_entry = self.entry.len() - 1;
    }
}

/// The commands a line of user input can resolve to; the command
/// interpreter consumes exactly one of these per prompt.
#[derive(Debug, PartialEq)]
pub enum ParseResponse {
    GoUrl(String),
    SearchBackwards(String),
    SearchForwards(String),
    /// Index of a link on the page.
    FollowLink(usize),
    JumpToLine(usize),
    GoBack(usize),
    GoForward(usize),
    Print { use_range: bool, start: usize, stop: usize },
    Enumerate { use_range: bool, start: usize, stop: usize },
    /// Number of lines to page through.
    Page(usize),
    /// Number of history entries to show; zero or less means show all.
    History(isize),
    Clear,
    AddBookmark(char),
    GoBookmark(char),
    Invalid,
    Empty,
    Quit,
}

} // verus!
