//! File / hunk model, unified-diff parse, split, and reassemble.

use vstd::prelude::*;
use vstd::slice::slice_subrange;

use crate::text;
use crate::text::{
    chars_of, cut_lines_keep, cut_once, cut_word, decimal_text, ends_char, has_char, past_last,
    prefix_before, push_chars, read_unsigned, read_usize, same, starts, strip_prefix, text_of,
    trimmed, trimmed_end_char,
};

verus! {

/// Whether a hunk will be applied when the session writes the index.
#[derive(Debug, Clone, Copy, PartialEq, Eq, Structural)]
pub enum HunkUse {
    Undecided,
    Skip,
    Use,
}

/// One line inside a hunk, without the leading diff marker.
#[derive(Debug, PartialEq, Eq)]
pub enum HunkLine {
    Context(String),
    Delete(String),
    Insert(String),
}

/// What a [`HunkLine`] says: its kind and its characters.
pub enum LineModel {
    Context(Seq<char>),
    Delete(Seq<char>),
    Insert(Seq<char>),
}

impl LineModel {
    pub open spec fn marker(self) -> char {
        match self {
            LineModel::Context(_) => ' ',
            LineModel::Delete(_) => '-',
            LineModel::Insert(_) => '+',
        }
    }

    pub open spec fn text(self) -> Seq<char> {
        match self {
            LineModel::Context(t) => t,
            LineModel::Delete(t) => t,
            LineModel::Insert(t) => t,
        }
    }

    /// Whether the line is part of the change rather than of its context.
    pub open spec fn is_change(self) -> bool {
        !(self is Context)
    }
}

impl View for HunkLine {
    type V = LineModel;

    open spec fn view(&self) -> LineModel {
        match self {
            HunkLine::Context(t) => LineModel::Context(t@),
            HunkLine::Delete(t) => LineModel::Delete(t@),
            HunkLine::Insert(t) => LineModel::Insert(t@),
        }
    }
}

impl Clone for HunkLine {
    fn clone(&self) -> (r: Self)
        ensures
            r == *self,
    {
        match self {
            HunkLine::Context(t) => HunkLine::Context(t.clone()),
            HunkLine::Delete(t) => HunkLine::Delete(t.clone()),
            HunkLine::Insert(t) => HunkLine::Insert(t.clone()),
        }
    }
}

impl HunkLine {
    pub fn marker(&self) -> (r: char)
        ensures
            r == self@.marker(),
    {
        match self {
            HunkLine::Context(_) => ' ',
            HunkLine::Delete(_) => '-',
            HunkLine::Insert(_) => '+',
        }
    }

    pub fn text(&self) -> (r: &str)
        ensures
            r@ == self@.text(),
    {
        match self {
            HunkLine::Context(text) => text.as_str(),
            HunkLine::Delete(text) => text.as_str(),
            HunkLine::Insert(text) => text.as_str(),
        }
    }

    pub fn is_change(&self) -> (r: bool)
        ensures
            r == self@.is_change(),
    {
        match self {
            HunkLine::Context(_) => false,
            _ => true,
        }
    }
}

/// The lines that a list of [`HunkLine`]s says.
pub open spec fn line_models(v: Seq<HunkLine>) -> Seq<LineModel> {
    v.map_values(|l: HunkLine| l@)
}

pub fn copy_lines(v: &[HunkLine]) -> (r: Vec<HunkLine>)
    ensures
        r@ == v@,
{
    let mut out: Vec<HunkLine> = Vec::new();
    let mut i: usize = 0;
    while i < v.len()
        invariant
            i <= v.len(),
            out@ == v@.take(i as int),
        decreases v.len() - i,
    {
        out.push(v[i].clone());
        i += 1;
    }
    assert(v@.take(i as int) =~= v@);
    out
}

/// One `@@` hunk.
#[derive(Debug, PartialEq, Eq)]
pub struct Hunk {
    pub old_start: usize,
    pub old_lines: usize,
    pub new_start: usize,
    pub new_lines: usize,
    /// Raw `@@ -a,b +c,d @@` line, including any function-context suffix.
    pub header: String,
    pub lines: Vec<HunkLine>,
    /// `\\ No newline at end of file` after a deleted/context preimage line.
    pub no_newline_old: bool,
    /// `\\ No newline at end of file` after an inserted/context postimage line.
    pub no_newline_new: bool,
    pub use_decision: HunkUse,
}

/// What a [`Hunk`] says.
#[verifier::ext_equal]
pub struct HunkModel {
    pub old_start: int,
    pub old_lines: int,
    pub new_start: int,
    pub new_lines: int,
    pub header: Seq<char>,
    pub lines: Seq<LineModel>,
    pub no_newline_old: bool,
    pub no_newline_new: bool,
    pub use_decision: HunkUse,
}

impl View for Hunk {
    type V = HunkModel;

    open spec fn view(&self) -> HunkModel {
        HunkModel {
            old_start: self.old_start as int,
            old_lines: self.old_lines as int,
            new_start: self.new_start as int,
            new_lines: self.new_lines as int,
            header: self.header@,
            lines: line_models(self.lines@),
            no_newline_old: self.no_newline_old,
            no_newline_new: self.no_newline_new,
            use_decision: self.use_decision,
        }
    }
}

impl Clone for Hunk {
    fn clone(&self) -> (r: Self)
        ensures
            r@ == self@,
    {
        Hunk {
            old_start: self.old_start,
            old_lines: self.old_lines,
            new_start: self.new_start,
            new_lines: self.new_lines,
            header: self.header.clone(),
            lines: copy_lines(self.lines.as_slice()),
            no_newline_old: self.no_newline_old,
            no_newline_new: self.no_newline_new,
            use_decision: self.use_decision,
        }
    }
}

/// The hunks that a list of [`Hunk`]s says.
pub open spec fn hunk_models(v: Seq<Hunk>) -> Seq<HunkModel> {
    v.map_values(|h: Hunk| h@)
}

pub fn copy_hunks(v: &[Hunk]) -> (r: Vec<Hunk>)
    ensures
        hunk_models(r@) == hunk_models(v@),
{
    let mut out: Vec<Hunk> = Vec::new();
    let mut i: usize = 0;
    while i < v.len()
        invariant
            i <= v.len(),
            out@.len() == i,
            forall|j: int| 0 <= j < i ==> (#[trigger] out@[j])@ == v@[j]@,
        decreases v.len() - i,
    {
        out.push(v[i].clone());
        i += 1;
    }
    assert(hunk_models(out@) =~= hunk_models(v@));
    out
}

/// One `diff --git` file.
#[derive(Debug, PartialEq, Eq)]
pub struct FileDiff {
    pub path: String,
    /// Every header line before the first hunk (`diff --git` … `+++`), raw.
    pub header: String,
    pub old_mode: Option<u32>,
    pub new_mode: Option<u32>,
    pub added: bool,
    pub deleted: bool,
    pub mode_change: bool,
    pub binary: bool,
    pub hunks: Vec<Hunk>,
}

/// What a [`FileDiff`] says.
#[verifier::ext_equal]
pub struct FileModel {
    pub path: Seq<char>,
    pub header: Seq<char>,
    pub old_mode: Option<u32>,
    pub new_mode: Option<u32>,
    pub added: bool,
    pub deleted: bool,
    pub mode_change: bool,
    pub binary: bool,
    pub hunks: Seq<HunkModel>,
}

impl View for FileDiff {
    type V = FileModel;

    open spec fn view(&self) -> FileModel {
        FileModel {
            path: self.path@,
            header: self.header@,
            old_mode: self.old_mode,
            new_mode: self.new_mode,
            added: self.added,
            deleted: self.deleted,
            mode_change: self.mode_change,
            binary: self.binary,
            hunks: hunk_models(self.hunks@),
        }
    }
}

impl Clone for FileDiff {
    fn clone(&self) -> (r: Self)
        ensures
            r@ == self@,
    {
        FileDiff {
            path: self.path.clone(),
            header: self.header.clone(),
            old_mode: self.old_mode,
            new_mode: self.new_mode,
            added: self.added,
            deleted: self.deleted,
            mode_change: self.mode_change,
            binary: self.binary,
            hunks: copy_hunks(self.hunks.as_slice()),
        }
    }
}

/// The files that a list of [`FileDiff`]s says.
pub open spec fn file_models(v: Seq<FileDiff>) -> Seq<FileModel> {
    v.map_values(|f: FileDiff| f@)
}

#[derive(Debug, PartialEq, Eq)]
pub enum ParseError {
    Empty,
    MissingGitHeader,
    BadHunkHeader(String),
    BadHunkLine(String),
}

/// What a [`ParseError`] says.
pub enum ParseErrorModel {
    Empty,
    MissingGitHeader,
    BadHunkHeader(Seq<char>),
    BadHunkLine(Seq<char>),
}

impl View for ParseError {
    type V = ParseErrorModel;

    open spec fn view(&self) -> ParseErrorModel {
        match self {
            ParseError::Empty => ParseErrorModel::Empty,
            ParseError::MissingGitHeader => ParseErrorModel::MissingGitHeader,
            ParseError::BadHunkHeader(l) => ParseErrorModel::BadHunkHeader(l@),
            ParseError::BadHunkLine(l) => ParseErrorModel::BadHunkLine(l@),
        }
    }
}

impl Clone for ParseError {
    fn clone(&self) -> (r: Self)
        ensures
            r == *self,
    {
        match self {
            ParseError::Empty => ParseError::Empty,
            ParseError::MissingGitHeader => ParseError::MissingGitHeader,
            ParseError::BadHunkHeader(l) => ParseError::BadHunkHeader(l.clone()),
            ParseError::BadHunkLine(l) => ParseError::BadHunkLine(l.clone()),
        }
    }
}

impl ParseErrorModel {
    /// The sentence that reports the error.
    pub open spec fn message(self) -> Seq<char> {
        match self {
            ParseErrorModel::Empty => "empty patch"@,
            ParseErrorModel::MissingGitHeader => "patch is missing a diff --git header"@,
            ParseErrorModel::BadHunkHeader(line) => "unrecognized hunk header: "@ + line,
            ParseErrorModel::BadHunkLine(line) => "unrecognized hunk line: "@ + line,
        }
    }
}

impl ParseError {
    /// The sentence that reports the error.
    pub fn message(&self) -> (r: String)
        ensures
            r@ == self@.message(),
    {
        match self {
            ParseError::Empty => "empty patch".to_owned(),
            ParseError::MissingGitHeader => "patch is missing a diff --git header".to_owned(),
            ParseError::BadHunkHeader(line) => {
                let mut out = "unrecognized hunk header: ".to_owned();
                out.append(line.as_str());
                out
            },
            ParseError::BadHunkLine(line) => {
                let mut out = "unrecognized hunk line: ".to_owned();
                out.append(line.as_str());
                out
            },
        }
    }
}

//// Hunk headers

/// One side of a hunk header: `start,count` or `start` alone, for one line,
/// behind its sign.
pub open spec fn hunk_span(w: Seq<char>, sign: char) -> Result<(int, int), ParseErrorModel> {
    match text::after_prefix(w, seq![sign]) {
        None => Err(ParseErrorModel::BadHunkHeader(w)),
        Some(t) => match text::split_once(t, ',') {
            Some((a, b)) => match (
                text::parse_unsigned(a, 10, usize::MAX as int),
                text::parse_unsigned(b, 10, usize::MAX as int),
            ) {
                (Some(start), Some(count)) => Ok((start, count)),
                _ => Err(ParseErrorModel::BadHunkHeader(t)),
            },
            None => match text::parse_unsigned(t, 10, usize::MAX as int) {
                Some(start) => Ok((start, 1)),
                None => Err(ParseErrorModel::BadHunkHeader(t)),
            },
        },
    }
}

/// The spans of `@@ -a,b +c,d @@`: what stands between the markers is read as
/// two words, the old side and the new side.
pub open spec fn hunk_header(line: Seq<char>) -> Result<HunkModel, ParseErrorModel> {
    match text::after_prefix(line, "@@ "@) {
        None => Err(ParseErrorModel::BadHunkHeader(line)),
        Some(rest) => {
            let body = text::before_text(rest, " @@"@);
            let old_side = text::first_word(body);
            let new_side = text::first_word(text::after_first_word(body));
            if old_side.len() == 0 || new_side.len() == 0 {
                Err(ParseErrorModel::BadHunkHeader(line))
            } else {
                match hunk_span(old_side, '-') {
                    Err(e) => Err(e),
                    Ok((old_start, old_lines)) => match hunk_span(new_side, '+') {
                        Err(e) => Err(e),
                        Ok((new_start, new_lines)) => Ok(
                            HunkModel {
                                old_start,
                                old_lines,
                                new_start,
                                new_lines,
                                header: line,
                                lines: Seq::empty(),
                                no_newline_old: false,
                                no_newline_new: false,
                                use_decision: HunkUse::Undecided,
                            },
                        ),
                    },
                }
            }
        },
    }
}

/// Whether `r` is the exact counterpart of the model `m`.
pub open spec fn parsed_span(
    r: Result<(usize, usize), ParseError>,
    m: Result<(int, int), ParseErrorModel>,
) -> bool {
    match r {
        Ok((a, b)) => m == Ok::<(int, int), ParseErrorModel>((a as int, b as int)),
        Err(e) => m == Err::<(int, int), ParseErrorModel>(e@),
    }
}

fn bad_header(line: &[char]) -> (r: ParseError)
    ensures
        r@ == ParseErrorModel::BadHunkHeader(line@),
{
    ParseError::BadHunkHeader(text_of(line))
}

fn parse_hunk_span(w: &[char], sign: char) -> (r: Result<(usize, usize), ParseError>)
    ensures
        parsed_span(r, hunk_span(w@, sign)),
{
    if w.len() == 0 || w[0] != sign {
        assert(!seq![sign].is_prefix_of(w@)) by {
            if w@.len() > 0 {
                assert(w@.subrange(0, 1)[0] != seq![sign][0]);
            }
        }
        return Err(bad_header(w));
    }
    let t = slice_subrange(w, 1, w.len());
    assert(seq![sign] =~= w@.subrange(0, 1));
    assert(t@ =~= w@.skip(1));
    match cut_once(t, ',') {
        Some((a, b)) => {
            let start = read_usize(a);
            let count = read_usize(b);
            match (start, count) {
                (Some(start), Some(count)) => Ok((start, count)),
                _ => Err(bad_header(t)),
            }
        },
        None => match read_usize(t) {
            Some(start) => Ok((start, 1)),
            None => Err(bad_header(t)),
        },
    }
}

pub(crate) fn parse_hunk_header(line: &[char]) -> (r: Result<Hunk, ParseError>)
    ensures
        (match r {
            Ok(h) => hunk_header(line@) == Ok::<HunkModel, ParseErrorModel>(h@),
            Err(e) => hunk_header(line@) == Err::<HunkModel, ParseErrorModel>(e@),
        }),
{
    let rest = match strip_prefix(line, "@@ ") {
        Some(rest) => rest,
        None => {
            return Err(bad_header(line));
        },
    };
    let body = prefix_before(rest, " @@");
    let (old_side, tail) = cut_word(body);
    let (new_side, _) = cut_word(tail);
    if old_side.len() == 0 || new_side.len() == 0 {
        return Err(bad_header(line));
    }
    let (old_start, old_lines) = match parse_hunk_span(old_side, '-') {
        Ok(span) => span,
        Err(e) => {
            return Err(e);
        },
    };
    let (new_start, new_lines) = match parse_hunk_span(new_side, '+') {
        Ok(span) => span,
        Err(e) => {
            return Err(e);
        },
    };
    let h = Hunk {
        old_start,
        old_lines,
        new_start,
        new_lines,
        header: text_of(line),
        lines: Vec::new(),
        no_newline_old: false,
        no_newline_new: false,
        use_decision: HunkUse::Undecided,
    };
    assert(h@.lines =~= Seq::<LineModel>::empty());
    Ok(h)
}

//// File headers

/// A path of the `diff --git` line without its `a/` or `b/`.
pub open spec fn diff_side(s: Seq<char>) -> Seq<char> {
    match text::after_prefix(s, "a/"@) {
        Some(t) => t,
        None => match text::after_prefix(s, "b/"@) {
            Some(t) => t,
            None => s,
        },
    }
}

/// The path that a `diff --git` line names: that of its second side, unless it
/// is empty or `/dev/null`, else that of the first. Both `a/x b/x` and the
/// reversed `b/x a/x` give the destination.
pub open spec fn header_path(line: Seq<char>) -> Seq<char> {
    let rest = match text::after_prefix(line, "diff --git "@) {
        Some(t) => t,
        None => line,
    };
    let (left, right) = match text::split_once(rest, ' ') {
        Some(p) => p,
        None => (rest, Seq::empty()),
    };
    if diff_side(right).len() > 0 && diff_side(right) != "/dev/null"@ {
        diff_side(right)
    } else {
        diff_side(left)
    }
}

fn strip_side(s: &[char]) -> (r: &[char])
    ensures
        r@ == diff_side(s@),
{
    match strip_prefix(s, "a/") {
        Some(t) => t,
        None => match strip_prefix(s, "b/") {
            Some(t) => t,
            None => s,
        },
    }
}

fn path_from_git_header(line: &[char]) -> (r: String)
    ensures
        r@ == header_path(line@),
{
    let rest = match strip_prefix(line, "diff --git ") {
        Some(t) => t,
        None => line,
    };
    let empty = slice_subrange(rest, 0, 0);
    assert(empty@ =~= Seq::<char>::empty());
    let (left, right) = match cut_once(rest, ' ') {
        Some((a, b)) => (a, b),
        None => (rest, empty),
    };
    let right = strip_side(right);
    let right_text = text_of(right);
    if right.len() > 0 && !same(right_text.as_str(), "/dev/null") {
        right_text
    } else {
        text_of(strip_side(left))
    }
}

/// A file mode written in octal, with whitespace allowed around it.
pub open spec fn file_mode(s: Seq<char>) -> Option<u32> {
    match text::parse_unsigned(text::trim(s), 8, u32::MAX as int) {
        Some(m) => Some(m as u32),
        None => None,
    }
}

fn parse_mode(s: &[char]) -> (r: Option<u32>)
    ensures
        r == file_mode(s@),
{
    match read_unsigned(trimmed(s), 8, u32::MAX as u64) {
        Some(m) => Some(m as u32),
        None => None,
    }
}

/// A file section while it is being read.
#[verifier::ext_equal]
pub struct SectionModel {
    pub path: Seq<char>,
    pub header: Seq<char>,
    pub old_mode: Option<u32>,
    pub new_mode: Option<u32>,
    pub added: bool,
    pub deleted: bool,
    pub binary: bool,
    pub hunks: Seq<HunkModel>,
}

impl SectionModel {
    /// The section that the `diff --git` line opens.
    pub open spec fn open(line: Seq<char>) -> SectionModel {
        SectionModel {
            path: header_path(line),
            header: line.push('\n'),
            old_mode: None,
            new_mode: None,
            added: false,
            deleted: false,
            binary: false,
            hunks: Seq::empty(),
        }
    }

    /// The section after one more line before its first hunk: the line joins
    /// the raw header, and what it says of modes and kinds is noted.
    pub open spec fn with_header_line(self, line: Seq<char>) -> SectionModel {
        let s = SectionModel { header: (self.header + line).push('\n'), ..self };
        if let Some(m) = text::after_prefix(line, "old mode "@) {
            SectionModel { old_mode: file_mode(m), ..s }
        } else if let Some(m) = text::after_prefix(line, "new mode "@) {
            SectionModel { new_mode: file_mode(m), ..s }
        } else if let Some(m) = text::after_prefix(line, "deleted file mode "@) {
            SectionModel { deleted: true, old_mode: file_mode(m), ..s }
        } else if let Some(m) = text::after_prefix(line, "new file mode "@) {
            SectionModel { added: true, new_mode: file_mode(m), ..s }
        } else if let Some(rest) = text::after_prefix(line, "index "@) {
            if rest.contains('.') && self.old_mode is None && self.new_mode is None {
                let m = file_mode(text::after_last(rest, ' '));
                SectionModel { old_mode: m, new_mode: m, ..s }
            } else {
                s
            }
        } else if "Binary files "@.is_prefix_of(line) || "GIT binary patch"@.is_prefix_of(line) {
            SectionModel { binary: true, ..s }
        } else if line == "+++ /dev/null"@ {
            SectionModel { deleted: true, ..s }
        } else if line == "--- /dev/null"@ {
            SectionModel { added: true, ..s }
        } else {
            s
        }
    }

    /// The file that the whole section describes. A hunk without any old line
    /// makes the file an added one.
    pub open spec fn close(self) -> FileModel {
        FileModel {
            path: self.path,
            header: self.header,
            old_mode: self.old_mode,
            new_mode: self.new_mode,
            added: self.added || exists|i: int|
                0 <= i < self.hunks.len() && (#[trigger] self.hunks[i]).old_start == 0
                    && self.hunks[i].old_lines == 0,
            deleted: self.deleted,
            mode_change: self.old_mode is Some && self.new_mode is Some && self.old_mode
                != self.new_mode && !self.added && !self.deleted,
            binary: self.binary,
            hunks: self.hunks,
        }
    }

    /// The section with `l` at the end of its last hunk.
    pub open spec fn with_line(self, l: LineModel) -> SectionModel {
        let h = self.hunks.last();
        SectionModel {
            hunks: self.hunks.update(
                self.hunks.len() - 1,
                HunkModel { lines: h.lines.push(l), ..h },
            ),
            ..self
        }
    }

    /// The section with the mark of a missing final newline on the new or the
    /// old side of its last hunk, if it has one.
    pub open spec fn with_no_newline(self, new_side: bool) -> SectionModel {
        if self.hunks.len() == 0 {
            self
        } else {
            let h = self.hunks.last();
            SectionModel {
                hunks: self.hunks.update(
                    self.hunks.len() - 1,
                    HunkModel {
                        no_newline_old: h.no_newline_old || !new_side,
                        no_newline_new: h.no_newline_new || new_side,
                        ..h
                    },
                ),
                ..self
            }
        }
    }
}

struct FileBuilder {
    path: String,
    header: String,
    old_mode: Option<u32>,
    new_mode: Option<u32>,
    added: bool,
    deleted: bool,
    binary: bool,
    hunks: Vec<Hunk>,
}

impl FileBuilder {
    spec fn model(self) -> SectionModel {
        SectionModel {
            path: self.path@,
            header: self.header@,
            old_mode: self.old_mode,
            new_mode: self.new_mode,
            added: self.added,
            deleted: self.deleted,
            binary: self.binary,
            hunks: hunk_models(self.hunks@),
        }
    }

    fn new(git_line: &[char]) -> (r: Self)
        ensures
            r.model() == SectionModel::open(git_line@),
    {
        let path = path_from_git_header(git_line);
        let mut header = text_of(git_line);
        header.push('\n');
        let r = FileBuilder {
            path,
            header,
            old_mode: None,
            new_mode: None,
            added: false,
            deleted: false,
            binary: false,
            hunks: Vec::new(),
        };
        assert(r.model().hunks =~= Seq::<HunkModel>::empty());
        r
    }

    fn push_header_line(&mut self, line: &[char])
        ensures
            final(self).model() == old(self).model().with_header_line(line@),
    {
        push_chars(&mut self.header, line);
        self.header.push('\n');
        if let Some(mode) = strip_prefix(line, "old mode ") {
            self.old_mode = parse_mode(mode);
        } else if let Some(mode) = strip_prefix(line, "new mode ") {
            self.new_mode = parse_mode(mode);
        } else if let Some(mode) = strip_prefix(line, "deleted file mode ") {
            self.deleted = true;
            self.old_mode = parse_mode(mode);
        } else if let Some(mode) = strip_prefix(line, "new file mode ") {
            self.added = true;
            self.new_mode = parse_mode(mode);
        } else if let Some(rest) = strip_prefix(line, "index ") {
            if has_char(rest, '.') && self.old_mode.is_none() && self.new_mode.is_none() {
                let mode = past_last(rest, ' ');
                self.old_mode = parse_mode(mode);
                self.new_mode = parse_mode(mode);
            }
        } else if starts(line, "Binary files ") || starts(line, "GIT binary patch") {
            self.binary = true;
        } else {
            let text = text_of(line);
            if same(text.as_str(), "+++ /dev/null") {
                self.deleted = true;
            } else if same(text.as_str(), "--- /dev/null") {
                self.added = true;
            }
        }
    }

    fn finish(self) -> (r: FileDiff)
        ensures
            r@ == self.model().close(),
    {
        let mode_change = match (self.old_mode, self.new_mode) {
            (Some(old_mode), Some(new_mode)) => old_mode != new_mode && !self.added
                && !self.deleted,
            _ => false,
        };
        let mut from_nothing = false;
        let mut i: usize = 0;
        while i < self.hunks.len()
            invariant
                i <= self.hunks.len(),
                from_nothing == exists|j: int|
                    0 <= j < i && (#[trigger] self.hunks@[j]).old_start == 0
                        && self.hunks@[j].old_lines == 0,
            decreases self.hunks.len() - i,
        {
            if self.hunks[i].old_start == 0 && self.hunks[i].old_lines == 0 {
                from_nothing = true;
            }
            i += 1;
        }
        let ghost m = self.model();
        assert(from_nothing == exists|j: int|
            0 <= j < m.hunks.len() && (#[trigger] m.hunks[j]).old_start == 0
                && m.hunks[j].old_lines == 0) by {
            if from_nothing {
                let j = choose|j: int|
                    0 <= j < i && (#[trigger] self.hunks@[j]).old_start == 0
                        && self.hunks@[j].old_lines == 0;
                assert(m.hunks[j].old_start == 0);
            }
            if exists|j: int|
                0 <= j < m.hunks.len() && (#[trigger] m.hunks[j]).old_start == 0
                    && m.hunks[j].old_lines == 0 {
                let j = choose|j: int|
                    0 <= j < m.hunks.len() && (#[trigger] m.hunks[j]).old_start == 0
                        && m.hunks[j].old_lines == 0;
                assert(self.hunks@[j].old_start == 0);
            }
        }
        FileDiff {
            path: self.path,
            header: self.header,
            old_mode: self.old_mode,
            new_mode: self.new_mode,
            added: self.added || from_nothing,
            deleted: self.deleted,
            mode_change,
            binary: self.binary,
            hunks: self.hunks,
        }
    }
}

//// Parsing

/// How far a patch has been read: the files that are complete, the section
/// that is open, and whether the line before was an inserted one.
#[verifier::ext_equal]
pub struct ScanModel {
    pub files: Seq<FileModel>,
    pub section: Option<SectionModel>,
    pub after_insert: bool,
}

impl ScanModel {
    pub open spec fn start() -> ScanModel {
        ScanModel { files: Seq::empty(), section: None, after_insert: false }
    }

    /// The files, with the open section closed.
    pub open spec fn all_files(self) -> Seq<FileModel> {
        match self.section {
            Some(s) => self.files.push(s.close()),
            None => self.files,
        }
    }
}

/// The section after one line behind its `diff --git` line, and whether that
/// line was an inserted one.
pub open spec fn section_line(
    s: SectionModel,
    after_insert: bool,
    line: Seq<char>,
) -> Result<(SectionModel, bool), ParseErrorModel> {
    if "@@ "@.is_prefix_of(line) {
        match hunk_header(line) {
            Ok(h) => Ok((SectionModel { hunks: s.hunks.push(h), ..s }, false)),
            Err(e) => Err(e),
        }
    } else if line == "\\ No newline at end of file"@ {
        Ok((s.with_no_newline(after_insert), after_insert))
    } else if s.hunks.len() == 0 {
        Ok((s.with_header_line(line), after_insert))
    } else if line.len() == 0 {
        Ok((s.with_line(LineModel::Context(Seq::empty())), false))
    } else if line[0] == ' ' {
        Ok((s.with_line(LineModel::Context(line.drop_first())), false))
    } else if line[0] == '-' {
        Ok((s.with_line(LineModel::Delete(line.drop_first())), false))
    } else if line[0] == '+' {
        Ok((s.with_line(LineModel::Insert(line.drop_first())), true))
    } else {
        Err(ParseErrorModel::BadHunkLine(line))
    }
}

/// The scan after one more line.
pub open spec fn scan_line(st: ScanModel, line: Seq<char>) -> Result<ScanModel, ParseErrorModel> {
    if "diff --git "@.is_prefix_of(line) {
        Ok(
            ScanModel {
                files: st.all_files(),
                section: Some(SectionModel::open(line)),
                after_insert: false,
            },
        )
    } else {
        match st.section {
            None => if line.len() == 0 {
                Ok(st)
            } else {
                Err(ParseErrorModel::MissingGitHeader)
            },
            Some(s) => match section_line(s, st.after_insert, line) {
                Ok((s2, after_insert)) => Ok(
                    ScanModel { files: st.files, section: Some(s2), after_insert },
                ),
                Err(e) => Err(e),
            },
        }
    }
}

/// The scan after all of `raw`, a list of lines with the newlines that end
/// them. The first line that cannot be read ends it.
pub open spec fn scan(st: ScanModel, raw: Seq<Seq<char>>) -> Result<ScanModel, ParseErrorModel>
    decreases raw.len(),
{
    if raw.len() == 0 {
        Ok(st)
    } else {
        match scan_line(st, text::trim_end_char(raw[0], '\n')) {
            Ok(next) => scan(next, raw.drop_first()),
            Err(e) => Err(e),
        }
    }
}

/// The files that a patch describes.
pub open spec fn unified_diff(t: Seq<char>) -> Result<Seq<FileModel>, ParseErrorModel> {
    match scan(ScanModel::start(), text::split_keep(t)) {
        Ok(st) => Ok(st.all_files()),
        Err(e) => Err(e),
    }
}

impl FileBuilder {
    fn push_line(&mut self, l: HunkLine)
        requires
            old(self).hunks@.len() > 0,
        ensures
            final(self).model() == old(self).model().with_line(l@),
    {
        let ghost before = self.model();
        if let Some(mut h) = self.hunks.pop() {
            let ghost was = h@;
            h.lines.push(l);
            assert(h@.lines =~= was.lines.push(l@));
            self.hunks.push(h);
            assert(self.model().hunks =~= before.with_line(l@).hunks);
        }
    }

    fn push_no_newline(&mut self, new_side: bool)
        ensures
            final(self).model() == old(self).model().with_no_newline(new_side),
    {
        let ghost before = self.model();
        if let Some(mut h) = self.hunks.pop() {
            if new_side {
                h.no_newline_new = true;
            } else {
                h.no_newline_old = true;
            }
            self.hunks.push(h);
        }
        assert(self.model().hunks =~= before.with_no_newline(new_side).hunks);
    }

    /// Takes in one line behind the `diff --git` line, and says whether it was
    /// an inserted one.
    fn push(&mut self, line: &[char], after_insert: bool) -> (r: Result<bool, ParseError>)
        ensures
            (match r {
                Ok(inserted) => section_line(old(self).model(), after_insert, line@) == Ok::<
                    (SectionModel, bool),
                    ParseErrorModel,
                >((final(self).model(), inserted)),
                Err(e) => section_line(old(self).model(), after_insert, line@) == Err::<
                    (SectionModel, bool),
                    ParseErrorModel,
                >(e@),
            }),
    {
        if starts(line, "@@ ") {
            let hunk = match parse_hunk_header(line) {
                Ok(hunk) => hunk,
                Err(e) => {
                    return Err(e);
                },
            };
            let ghost before = self.model();
            let ghost m = hunk@;
            self.hunks.push(hunk);
            assert(self.model().hunks =~= before.hunks.push(m));
            return Ok(false);
        }
        let whole = text_of(line);
        if same(whole.as_str(), "\\ No newline at end of file") {
            self.push_no_newline(after_insert);
            return Ok(after_insert);
        }
        if self.hunks.len() == 0 {
            self.push_header_line(line);
            return Ok(after_insert);
        }
        if line.len() == 0 {
            self.push_line(HunkLine::Context(String::new()));
            return Ok(false);
        }
        let rest = slice_subrange(line, 1, line.len());
        assert(rest@ =~= line@.drop_first());
        let marker = line[0];
        if marker == ' ' {
            self.push_line(HunkLine::Context(text_of(rest)));
            Ok(false)
        } else if marker == '-' {
            self.push_line(HunkLine::Delete(text_of(rest)));
            Ok(false)
        } else if marker == '+' {
            self.push_line(HunkLine::Insert(text_of(rest)));
            Ok(true)
        } else {
            Err(ParseError::BadHunkLine(whole))
        }
    }
}

spec fn builder_model(b: Option<FileBuilder>) -> Option<SectionModel> {
    match b {
        Some(b) => Some(b.model()),
        None => None,
    }
}

/// Parse one or more `diff --git` file sections. File order is the patch order
/// (Git emits path byte order for `add -p` inputs; callers sort if needed).
pub fn parse_unified_diff(text: &str) -> (r: Result<Vec<FileDiff>, ParseError>)
    ensures
        (match r {
            Ok(files) => unified_diff(text@) == Ok::<Seq<FileModel>, ParseErrorModel>(
                file_models(files@),
            ),
            Err(e) => unified_diff(text@) == Err::<Seq<FileModel>, ParseErrorModel>(e@),
        }),
{
    let all = chars_of(text);
    let raw = cut_lines_keep(all.as_slice());
    let mut files: Vec<FileDiff> = Vec::new();
    let mut current: Option<FileBuilder> = None;
    let mut after_insert = false;
    let mut i: usize = 0;
    let ghost rows = text::char_views(raw@);
    let ghost st0 = ScanModel::start();
    assert(file_models(files@) =~= st0.files);
    assert(rows.skip(0) =~= rows);
    while i < raw.len()
        invariant
            i <= raw.len(),
            rows == text::char_views(raw@),
            rows == text::split_keep(text@),
            scan(
                ScanModel {
                    files: file_models(files@),
                    section: builder_model(current),
                    after_insert,
                },
                rows.skip(i as int),
            ) == scan(ScanModel::start(), rows),
        decreases raw.len() - i,
    {
        let line = trimmed_end_char(raw[i].as_slice(), '\n');
        let ghost st = ScanModel {
            files: file_models(files@),
            section: builder_model(current),
            after_insert,
        };
        assert(rows.skip(i as int)[0] == raw@[i as int]@);
        assert(rows.skip(i as int).drop_first() =~= rows.skip(i + 1));
        let opened = current.take();
        if starts(line, "diff --git ") {
            if let Some(builder) = opened {
                let file = builder.finish();
                let ghost m = file@;
                files.push(file);
                assert(file_models(files@) =~= st.files.push(m));
            }
            current = Some(FileBuilder::new(line));
            after_insert = false;
        } else {
            match opened {
                None => {
                    if line.len() > 0 {
                        return Err(ParseError::MissingGitHeader);
                    }
                },
                Some(mut builder) => match builder.push(line, after_insert) {
                    Ok(inserted) => {
                        after_insert = inserted;
                        current = Some(builder);
                    },
                    Err(e) => {
                        return Err(e);
                    },
                },
            }
        }
        i += 1;
    }
    let ghost st = ScanModel {
        files: file_models(files@),
        section: builder_model(current),
        after_insert,
    };
    assert(rows.skip(i as int).len() == 0);
    if let Some(builder) = current {
        let file = builder.finish();
        let ghost m = file@;
        files.push(file);
        assert(file_models(files@) =~= st.files.push(m));
    }
    Ok(files)
}

//// Reassembling

/// The lines of a hunk, each behind its marker and with its newline.
pub open spec fn lines_text(lines: Seq<LineModel>) -> Seq<char>
    decreases lines.len(),
{
    if lines.len() == 0 {
        Seq::empty()
    } else {
        (lines_text(lines.drop_last()).push(lines.last().marker()) + lines.last().text()).push('\n')
    }
}

/// `s` with a newline behind it, unless it ends in one.
pub open spec fn with_newline(s: Seq<char>) -> Seq<char> {
    if s.len() > 0 && s.last() == '\n' {
        s
    } else {
        s.push('\n')
    }
}

/// How a patch writes that one side ends without a newline.
pub open spec fn no_newline_mark(missing: bool) -> Seq<char> {
    if missing {
        "\\ No newline at end of file\n"@
    } else {
        Seq::empty()
    }
}

/// A hunk as a patch writes it.
pub open spec fn hunk_text(h: HunkModel) -> Seq<char> {
    with_newline(h.header) + lines_text(h.lines) + no_newline_mark(h.no_newline_old)
        + no_newline_mark(h.no_newline_new)
}

/// The hunks marked for use, as a patch writes them.
pub open spec fn used_text(hunks: Seq<HunkModel>) -> Seq<char>
    decreases hunks.len(),
{
    if hunks.len() == 0 {
        Seq::empty()
    } else if hunks.last().use_decision is Use {
        used_text(hunks.drop_last()) + hunk_text(hunks.last())
    } else {
        used_text(hunks.drop_last())
    }
}

/// The patch of the hunks of `f` that are marked for use, behind the header
/// of `f`.
pub open spec fn file_patch(f: FileModel) -> Seq<char> {
    (if f.hunks.len() > 0 {
        with_newline(f.header)
    } else {
        f.header
    }) + used_text(f.hunks)
}

/// Appends the lines of a hunk, each behind its marker.
pub fn push_lines_text(out: &mut String, lines: &[HunkLine])
    ensures
        final(out)@ == old(out)@ + lines_text(line_models(lines@)),
{
    let ghost start = out@;
    let ghost m = line_models(lines@);
    let mut i: usize = 0;
    assert(start + lines_text(m.take(0)) =~= start);
    while i < lines.len()
        invariant
            i <= lines.len(),
            m == line_models(lines@),
            out@ == start + lines_text(m.take(i as int)),
        decreases lines.len() - i,
    {
        assert(m.take(i + 1).drop_last() =~= m.take(i as int));
        out.push(lines[i].marker());
        out.append(lines[i].text());
        out.push('\n');
        assert(out@ =~= start + lines_text(m.take(i + 1)));
        i += 1;
    }
    assert(m.take(i as int) =~= m);
}

/// Appends `s`, with a newline behind it where it has none.
pub fn push_with_newline(out: &mut String, s: &str)
    ensures
        final(out)@ == old(out)@ + with_newline(s@),
{
    out.append(s);
    let cs = chars_of(s);
    if !ends_char(cs.as_slice(), '\n') {
        out.push('\n');
    }
    assert(out@ =~= old(out)@ + with_newline(s@));
}

pub fn push_mark(out: &mut String, missing: bool)
    ensures
        final(out)@ == old(out)@ + no_newline_mark(missing),
{
    if missing {
        out.append("\\ No newline at end of file\n");
    } else {
        assert(old(out)@ + no_newline_mark(missing) =~= old(out)@);
    }
}

fn push_hunk_text(out: &mut String, hunk: &Hunk)
    ensures
        final(out)@ == old(out)@ + hunk_text(hunk@),
{
    let ghost start = out@;
    push_with_newline(out, hunk.header.as_str());
    push_lines_text(out, hunk.lines.as_slice());
    push_mark(out, hunk.no_newline_old);
    push_mark(out, hunk.no_newline_new);
    proof {
        lemma_join4(
            start,
            with_newline(hunk.header@),
            lines_text(hunk@.lines),
            no_newline_mark(hunk.no_newline_old),
            no_newline_mark(hunk.no_newline_new),
        );
    }
}

proof fn lemma_join4(s: Seq<char>, a: Seq<char>, b: Seq<char>, c: Seq<char>, d: Seq<char>)
    ensures
        s + a + b + c + d == s + (a + b + c + d),
{
    assert(s + a + b + c + d =~= s + (a + b + c + d));
}

/// Rebuild a file patch from `file.header` plus every hunk marked [`HunkUse::Use`].
/// Original `@@` headers are kept so `git apply` can locate them on the preimage.
pub fn reassemble_file_patch(file: &FileDiff) -> (r: String)
    ensures
        r@ == file_patch(file@),
{
    let mut out = String::new();
    if file.hunks.len() > 0 {
        push_with_newline(&mut out, file.header.as_str());
    } else {
        out.append(file.header.as_str());
    }
    let ghost start = out@;
    let ghost m = hunk_models(file.hunks@);
    let mut i: usize = 0;
    assert(start + used_text(m.take(0)) =~= start);
    while i < file.hunks.len()
        invariant
            i <= file.hunks.len(),
            m == hunk_models(file.hunks@),
            out@ == start + used_text(m.take(i as int)),
        decreases file.hunks.len() - i,
    {
        assert(m.take(i + 1).drop_last() =~= m.take(i as int));
        if file.hunks[i].use_decision == HunkUse::Use {
            push_hunk_text(&mut out, &file.hunks[i]);
        }
        assert(out@ =~= start + used_text(m.take(i + 1)));
        i += 1;
    }
    assert(m.take(i as int) =~= m);
    assert(out@ =~= file_patch(file@));
    out
}

//// Islands of change, and splitting

/// How many lines of `lines` the old side has.
pub open spec fn old_count(lines: Seq<LineModel>) -> nat
    decreases lines.len(),
{
    if lines.len() == 0 {
        0
    } else {
        old_count(lines.drop_last()) + if lines.last() is Insert {
            0nat
        } else {
            1nat
        }
    }
}

/// How many lines of `lines` the new side has.
pub open spec fn new_count(lines: Seq<LineModel>) -> nat
    decreases lines.len(),
{
    if lines.len() == 0 {
        0
    } else {
        new_count(lines.drop_last()) + if lines.last() is Delete {
            0nat
        } else {
            1nat
        }
    }
}

/// Where the run of changed lines that holds position `i` ends.
pub open spec fn island_end(lines: Seq<LineModel>, i: int) -> int
    decreases lines.len() - i,
{
    if 0 <= i < lines.len() && lines[i].is_change() {
        island_end(lines, i + 1)
    } else {
        i
    }
}

/// The runs of changed lines from position `i` on, as half-open ranges.
pub open spec fn islands_from(lines: Seq<LineModel>, i: int) -> Seq<(int, int)>
    decreases lines.len() - i,
    via islands_from_decreases
{
    if i < 0 || i >= lines.len() {
        Seq::empty()
    } else if lines[i].is_change() {
        seq![(i, island_end(lines, i))] + islands_from(lines, island_end(lines, i))
    } else {
        islands_from(lines, i + 1)
    }
}

#[via_fn]
proof fn islands_from_decreases(lines: Seq<LineModel>, i: int) {
    if 0 <= i < lines.len() && lines[i].is_change() {
        lemma_island_end(lines, i);
    }
}

pub proof fn lemma_island_end(lines: Seq<LineModel>, i: int)
    requires
        0 <= i <= lines.len(),
    ensures
        i <= island_end(lines, i) <= lines.len(),
        i < lines.len() && lines[i].is_change() ==> i < island_end(lines, i),
        forall|j: int| i <= j < island_end(lines, i) ==> lines[j].is_change(),
        island_end(lines, i) < lines.len() ==> !lines[island_end(lines, i)].is_change(),
    decreases lines.len() - i,
{
    if i < lines.len() && lines[i].is_change() {
        lemma_island_end(lines, i + 1);
    }
}

/// The runs of changed lines of a hunk, which context separates.
pub open spec fn islands(lines: Seq<LineModel>) -> Seq<(int, int)> {
    islands_from(lines, 0)
}

/// Where the context that leads up to position `i` starts.
pub open spec fn context_start(lines: Seq<LineModel>, i: int) -> int
    decreases i,
{
    if 0 < i <= lines.len() && lines[i - 1] is Context {
        context_start(lines, i - 1)
    } else {
        i
    }
}

/// Where the context that follows position `i` ends.
pub open spec fn context_end(lines: Seq<LineModel>, i: int) -> int
    decreases lines.len() - i,
{
    if 0 <= i < lines.len() && lines[i] is Context {
        context_end(lines, i + 1)
    } else {
        i
    }
}

pub proof fn lemma_context_start(lines: Seq<LineModel>, i: int)
    requires
        0 <= i <= lines.len(),
    ensures
        0 <= context_start(lines, i) <= i,
        forall|j: int| context_start(lines, i) <= j < i ==> lines[j] is Context,
    decreases i,
{
    if 0 < i && lines[i - 1] is Context {
        lemma_context_start(lines, i - 1);
    }
}

pub proof fn lemma_context_end(lines: Seq<LineModel>, i: int)
    requires
        0 <= i <= lines.len(),
    ensures
        i <= context_end(lines, i) <= lines.len(),
        forall|j: int| i <= j < context_end(lines, i) ==> lines[j] is Context,
    decreases lines.len() - i,
{
    if i < lines.len() && lines[i] is Context {
        lemma_context_end(lines, i + 1);
    }
}

/// The header of a hunk without function context.
pub open spec fn plain_header(old_start: int, old_lines: int, new_start: int, new_lines: int) -> Seq<
    char,
> {
    "@@ -"@ + text::decimal(old_start as nat) + ","@ + text::decimal(old_lines as nat) + " +"@
        + text::decimal(new_start as nat) + ","@ + text::decimal(new_lines as nat) + " @@"@
}

/// The part of `h` that holds the island `r` alone, with the context on both
/// sides of it: neighbouring parts share the context between them. It starts
/// as far behind the start of `h` as the lines before it take.
pub open spec fn split_piece(h: HunkModel, r: (int, int)) -> HunkModel {
    let start = context_start(h.lines, r.0);
    let end = context_end(h.lines, r.1);
    let lines = h.lines.subrange(start, end);
    let old_start = h.old_start + old_count(h.lines.take(start));
    let new_start = h.new_start + new_count(h.lines.take(start));
    HunkModel {
        old_start,
        old_lines: old_count(lines) as int,
        new_start,
        new_lines: new_count(lines) as int,
        header: plain_header(
            old_start,
            old_count(lines) as int,
            new_start,
            new_count(lines) as int,
        ),
        lines,
        no_newline_old: h.no_newline_old && end == h.lines.len(),
        no_newline_new: h.no_newline_new && end == h.lines.len(),
        use_decision: HunkUse::Undecided,
    }
}

/// The parts of a hunk that has more than one island.
pub open spec fn split_pieces(h: HunkModel) -> Option<Seq<HunkModel>> {
    if islands(h.lines).len() <= 1 {
        None
    } else {
        Some(islands(h.lines).map_values(|r: (int, int)| split_piece(h, r)))
    }
}

/// Whether the line numbers behind the last island of a hunk that is to be
/// split are machine numbers.
pub open spec fn numbers_fit(h: HunkModel) -> bool {
    islands(h.lines).len() > 1 ==> {
        let walked = h.lines.take(islands(h.lines).last().1);
        &&& h.old_start + old_count(walked) <= usize::MAX
        &&& h.new_start + new_count(walked) <= usize::MAX
    }
}

pub proof fn lemma_counts_bounded(lines: Seq<LineModel>)
    ensures
        old_count(lines) <= lines.len(),
        new_count(lines) <= lines.len(),
    decreases lines.len(),
{
    if lines.len() > 0 {
        lemma_counts_bounded(lines.drop_last());
    }
}

pub proof fn lemma_counts_add(a: Seq<LineModel>, b: Seq<LineModel>)
    ensures
        old_count(a + b) == old_count(a) + old_count(b),
        new_count(a + b) == new_count(a) + new_count(b),
    decreases b.len(),
{
    if b.len() == 0 {
        assert(a + b =~= a);
    } else {
        assert((a + b).drop_last() =~= a + b.drop_last());
        lemma_counts_add(a, b.drop_last());
    }
}

pub fn old_lines_in(lines: &[HunkLine]) -> (r: usize)
    ensures
        r == old_count(line_models(lines@)),
{
    let ghost m = line_models(lines@);
    let mut n: usize = 0;
    let mut i: usize = 0;
    while i < lines.len()
        invariant
            i <= lines.len(),
            n <= i,
            m == line_models(lines@),
            n == old_count(m.take(i as int)),
        decreases lines.len() - i,
    {
        assert(m.take(i + 1).drop_last() =~= m.take(i as int));
        match &lines[i] {
            HunkLine::Insert(_) => {},
            _ => {
                n += 1;
            },
        }
        i += 1;
    }
    assert(m.take(i as int) =~= m);
    n
}

pub fn new_lines_in(lines: &[HunkLine]) -> (r: usize)
    ensures
        r == new_count(line_models(lines@)),
{
    let ghost m = line_models(lines@);
    let mut n: usize = 0;
    let mut i: usize = 0;
    while i < lines.len()
        invariant
            i <= lines.len(),
            n <= i,
            m == line_models(lines@),
            n == new_count(m.take(i as int)),
        decreases lines.len() - i,
    {
        assert(m.take(i + 1).drop_last() =~= m.take(i as int));
        match &lines[i] {
            HunkLine::Delete(_) => {},
            _ => {
                n += 1;
            },
        }
        i += 1;
    }
    assert(m.take(i as int) =~= m);
    n
}

/// A half-open range of lines as a pair of integers.
pub open spec fn int_pairs(v: Seq<(usize, usize)>) -> Seq<(int, int)> {
    v.map_values(|r: (usize, usize)| (r.0 as int, r.1 as int))
}

pub fn change_islands(lines: &[HunkLine]) -> (r: Vec<(usize, usize)>)
    ensures
        int_pairs(r@) == islands(line_models(lines@)),
{
    let ghost m = line_models(lines@);
    let mut out: Vec<(usize, usize)> = Vec::new();
    let mut i: usize = 0;
    assert(int_pairs(out@) + islands_from(m, 0) =~= islands_from(m, 0));
    while i < lines.len()
        invariant
            i <= lines.len(),
            m == line_models(lines@),
            int_pairs(out@) + islands_from(m, i as int) == islands(m),
        decreases lines.len() - i,
    {
        if !lines[i].is_change() {
            i += 1;
        } else {
            let start = i;
            while i < lines.len() && lines[i].is_change()
                invariant
                    start <= i <= lines.len(),
                    m == line_models(lines@),
                    island_end(m, i as int) == island_end(m, start as int),
                    i == start ==> m[start as int].is_change() && start < lines.len(),
                decreases lines.len() - i,
            {
                i += 1;
            }
            let ghost before = int_pairs(out@);
            out.push((start, i));
            assert(int_pairs(out@) =~= before.push((start as int, i as int)));
            assert(int_pairs(out@) + islands_from(m, i as int) =~= before + islands_from(
                m,
                start as int,
            ));
        }
    }
    assert(int_pairs(out@) + islands_from(m, i as int) =~= int_pairs(out@));
    out
}

fn leading_context_start(lines: &[HunkLine], island_start: usize) -> (r: usize)
    requires
        island_start <= lines@.len(),
    ensures
        r == context_start(line_models(lines@), island_start as int),
        r <= island_start,
{
    let ghost m = line_models(lines@);
    let mut start = island_start;
    while start > 0 && !lines[start - 1].is_change()
        invariant
            start <= island_start <= lines@.len(),
            m == line_models(lines@),
            context_start(m, start as int) == context_start(m, island_start as int),
        decreases start,
    {
        start -= 1;
    }
    start
}

fn trailing_context_end(lines: &[HunkLine], island_end: usize) -> (r: usize)
    requires
        island_end <= lines@.len(),
    ensures
        r == context_end(line_models(lines@), island_end as int),
        island_end <= r <= lines@.len(),
{
    let ghost m = line_models(lines@);
    let mut end = island_end;
    while end < lines.len() && !lines[end].is_change()
        invariant
            island_end <= end <= lines@.len(),
            m == line_models(lines@),
            context_end(m, end as int) == context_end(m, island_end as int),
        decreases lines@.len() - end,
    {
        end += 1;
    }
    end
}

pub fn plain_header_text(
    old_start: usize,
    old_lines: usize,
    new_start: usize,
    new_lines: usize,
) -> (r: String)
    ensures
        r@ == plain_header(
            old_start as int,
            old_lines as int,
            new_start as int,
            new_lines as int,
        ),
{
    let mut out = "@@ -".to_owned();
    out.append(decimal_text(old_start as u64).as_str());
    out.append(",");
    out.append(decimal_text(old_lines as u64).as_str());
    out.append(" +");
    out.append(decimal_text(new_start as u64).as_str());
    out.append(",");
    out.append(decimal_text(new_lines as u64).as_str());
    out.append(" @@");
    out
}

pub proof fn lemma_islands_in_range(lines: Seq<LineModel>, i: int, k: int)
    requires
        0 <= i <= lines.len(),
        0 <= k < islands_from(lines, i).len(),
    ensures
        ({
            let r = islands_from(lines, i)[k];
            &&& i <= r.0 < r.1 <= lines.len()
            &&& r.1 == island_end(lines, r.0)
            &&& lines[r.0].is_change()
        }),
    decreases lines.len() - i,
{
    if i < lines.len() {
        if lines[i].is_change() {
            lemma_island_end(lines, i);
            if k > 0 {
                lemma_islands_in_range(lines, island_end(lines, i), k - 1);
            }
        } else {
            lemma_islands_in_range(lines, i + 1, k);
        }
    }
}

/// Islands stand in their order.
proof fn lemma_last_island(lines: Seq<LineModel>, i: int, k: int)
    requires
        0 <= i <= lines.len(),
        0 <= k < islands_from(lines, i).len(),
    ensures
        islands_from(lines, i)[k].1 <= islands_from(lines, i).last().1 <= lines.len(),
    decreases lines.len() - i,
{
    let rs = islands_from(lines, i);
    lemma_islands_in_range(lines, i, rs.len() - 1);
    if i < lines.len() {
        if lines[i].is_change() {
            let e = island_end(lines, i);
            lemma_island_end(lines, i);
            let rest = islands_from(lines, e);
            assert(rs == seq![(i, e)] + rest);
            if rest.len() > 0 {
                assert(rs.last() == rest.last());
                lemma_last_island(lines, e, if k > 0 { k - 1 } else { 0 });
                if k == 0 {
                    lemma_islands_in_range(lines, e, rest.len() - 1);
                }
            }
        } else {
            lemma_last_island(lines, i + 1, k);
        }
    }
}

/// Counts grow with the lines.
proof fn lemma_counts_up_to(lines: Seq<LineModel>, a: int, b: int)
    requires
        0 <= a <= b <= lines.len(),
    ensures
        old_count(lines.take(a)) <= old_count(lines.take(b)),
        new_count(lines.take(a)) <= new_count(lines.take(b)),
{
    lemma_counts_add(lines.take(a), lines.subrange(a, b));
    assert(lines.take(a) + lines.subrange(a, b) =~= lines.take(b));
}

fn piece_of(hunk: &Hunk, start_at: usize, end_at: usize) -> (r: Hunk)
    requires
        start_at <= end_at <= hunk.lines@.len(),
        hunk.old_start + old_count(hunk@.lines.take(start_at as int)) <= usize::MAX,
        hunk.new_start + new_count(hunk@.lines.take(start_at as int)) <= usize::MAX,
    ensures
        r@ == split_piece(hunk@, (start_at as int, end_at as int)),
{
    let lines = hunk.lines.as_slice();
    let ghost m = line_models(lines@);
    let start = leading_context_start(lines, start_at);
    let end = trailing_context_end(lines, end_at);
    let before = slice_subrange(lines, 0, start);
    let slice = slice_subrange(lines, start, end);
    assert(line_models(before@) =~= m.take(start as int));
    assert(line_models(slice@) =~= m.subrange(start as int, end as int));
    proof {
        lemma_counts_up_to(m, start as int, start_at as int);
    }
    let old_start = hunk.old_start + old_lines_in(before);
    let new_start = hunk.new_start + new_lines_in(before);
    let old_lines = old_lines_in(slice);
    let new_lines = new_lines_in(slice);
    Hunk {
        old_start,
        old_lines,
        new_start,
        new_lines,
        header: plain_header_text(old_start, old_lines, new_start, new_lines),
        lines: copy_lines(slice),
        no_newline_old: hunk.no_newline_old && end == lines.len(),
        no_newline_new: hunk.no_newline_new && end == lines.len(),
        use_decision: HunkUse::Undecided,
    }
}

/// Split `hunk` into one hunk per change island. Returns `None` when Git
/// would print `Sorry, cannot split this hunk`.
pub fn split_hunk(hunk: &Hunk) -> (r: Option<Vec<Hunk>>)
    requires
        numbers_fit(hunk@),
    ensures
        (match r {
            Some(pieces) => split_pieces(hunk@) == Some(hunk_models(pieces@)),
            None => split_pieces(hunk@) is None,
        }),
{
    let found = change_islands(hunk.lines.as_slice());
    let ghost rs = islands(hunk@.lines);
    assert(int_pairs(found@).len() == found@.len());
    if found.len() <= 1 {
        return None;
    }
    let mut pieces: Vec<Hunk> = Vec::new();
    let mut i: usize = 0;
    while i < found.len()
        invariant
            i <= found.len(),
            numbers_fit(hunk@),
            rs.len() > 1,
            rs == islands(hunk@.lines),
            rs == int_pairs(found@),
            pieces@.len() == i,
            forall|j: int| 0 <= j < i ==> (#[trigger] pieces@[j])@ == split_piece(hunk@, rs[j]),
        decreases found.len() - i,
    {
        proof {
            lemma_islands_in_range(hunk@.lines, 0, i as int);
            lemma_last_island(hunk@.lines, 0, i as int);
            lemma_counts_up_to(hunk@.lines, rs[i as int].0, rs.last().1);
            assert(rs[i as int] == (found@[i as int].0 as int, found@[i as int].1 as int));
        }
        let r = found[i];
        pieces.push(piece_of(hunk, r.0, r.1));
        i += 1;
    }
    assert(hunk_models(pieces@) =~= rs.map_values(|r: (int, int)| split_piece(hunk@, r)));
    Some(pieces)
}

impl Hunk {
    /// Git `splittable_into`: number of change islands separated by context.
    pub fn splittable_into(&self) -> (r: usize)
        ensures
            r == if islands(self@.lines).len() > 1 {
                islands(self@.lines).len()
            } else {
                1
            },
    {
        let found = change_islands(self.lines.as_slice());
        assert(int_pairs(found@).len() == found@.len());
        if found.len() > 1 {
            found.len()
        } else {
            1
        }
    }

    pub fn is_splittable(&self) -> (r: bool)
        ensures
            r == (split_pieces(self@) is Some),
    {
        self.splittable_into() > 1
    }
}

} // verus!
