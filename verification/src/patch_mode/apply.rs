//! Apply selected hunks to an index blob. Never writes the worktree.

use vstd::prelude::*;
use vstd::slice::{slice_subrange, slice_to_vec};
use vstd::string::*;

use super::model::{FileDiff, FileModel, Hunk, HunkLine, HunkModel, HunkUse, LineModel};
use super::model::plain_header_text;
use crate::text;
use crate::text::{chars_of, cut_lines_keep, decimal_text, text_of, trimmed_end_char};

verus! {

/// How selected hunks are interpreted against the index blob.
#[derive(Debug, Clone, Copy, PartialEq, Eq, Structural)]
pub enum PatchApplyMode {
    /// `add -p`: apply worktree-vs-index hunks onto the current index blob.
    Stage,
    /// `reset -p` against HEAD: unstage by reversing the cached hunks.
    ResetHead,
    /// `reset -p <tree-ish>`: apply the reverse-diff hunks onto the index.
    ResetNotHead,
}

#[derive(Debug, PartialEq, Eq)]
pub struct AppliedIndexBlob {
    /// `None` means the path is removed from the index.
    pub bytes: Option<Vec<u8>>,
    /// Index mode to write (`100644` / `100755` / `120000`). `None` keeps the
    /// caller's current mode.
    pub mode: Option<u32>,
}

/// What an [`AppliedIndexBlob`] says.
#[verifier::ext_equal]
pub struct BlobModel {
    pub bytes: Option<Seq<u8>>,
    pub mode: Option<u32>,
}

impl Clone for AppliedIndexBlob {
    fn clone(&self) -> (r: Self)
        ensures
            r@ == self@,
    {
        AppliedIndexBlob {
            bytes: match &self.bytes {
                Some(b) => Some(slice_to_vec(b.as_slice())),
                None => None,
            },
            mode: self.mode,
        }
    }
}

impl View for AppliedIndexBlob {
    type V = BlobModel;

    open spec fn view(&self) -> BlobModel {
        BlobModel {
            bytes: match self.bytes {
                Some(b) => Some(b@),
                None => None,
            },
            mode: self.mode,
        }
    }
}

#[derive(Debug, PartialEq, Eq)]
pub enum PatchApplyError {
    BinaryNotSelectable,
    HunkDoesNotApply { path: String, detail: String },
}

impl Clone for PatchApplyError {
    fn clone(&self) -> (r: Self)
        ensures
            r == *self,
    {
        match self {
            PatchApplyError::BinaryNotSelectable => PatchApplyError::BinaryNotSelectable,
            PatchApplyError::HunkDoesNotApply { path, detail } => {
                PatchApplyError::HunkDoesNotApply { path: path.clone(), detail: detail.clone() }
            },
        }
    }
}

/// What a [`PatchApplyError`] says.
pub enum ApplyErrorModel {
    BinaryNotSelectable,
    HunkDoesNotApply { path: Seq<char>, detail: Seq<char> },
}

impl View for PatchApplyError {
    type V = ApplyErrorModel;

    open spec fn view(&self) -> ApplyErrorModel {
        match self {
            PatchApplyError::BinaryNotSelectable => ApplyErrorModel::BinaryNotSelectable,
            PatchApplyError::HunkDoesNotApply { path, detail } => {
                ApplyErrorModel::HunkDoesNotApply { path: path@, detail: detail@ }
            },
        }
    }
}

impl ApplyErrorModel {
    /// The sentence that reports the error.
    pub open spec fn message(self) -> Seq<char> {
        match self {
            ApplyErrorModel::BinaryNotSelectable => {
                "binary files cannot be selected in patch mode"@
            },
            ApplyErrorModel::HunkDoesNotApply { path, detail } => {
                "hunk does not apply to '"@ + path + "': "@ + detail
            },
        }
    }
}

impl PatchApplyError {
    /// The sentence that reports the error.
    pub fn message(&self) -> (r: String)
        ensures
            r@ == self@.message(),
    {
        match self {
            PatchApplyError::BinaryNotSelectable => {
                "binary files cannot be selected in patch mode".to_owned()
            },
            PatchApplyError::HunkDoesNotApply { path, detail } => {
                let mut out = "hunk does not apply to '".to_owned();
                out.append(path.as_str());
                out.append("': ");
                out.append(detail.as_str());
                out
            },
        }
    }
}

//// Text that std renders or decodes

/// How std's `Debug` writes a string: quoted and escaped.
pub uninterp spec fn debug_of(s: Seq<char>) -> Seq<char>;

/// `format!("{:?}", s)` for a string: the text that [`debug_of`] names. How
/// the escapes are chosen is not stated.
#[verifier::external_body]
pub(crate) fn debug_text(s: &str) -> (r: String)
    ensures
        r@ == debug_of(s@),
{
    format!("{:?}", s)
}

/// The text that std's lossy UTF-8 decoding gives for `b`.
pub uninterp spec fn lossy_text(b: Seq<u8>) -> Seq<char>;

/// `String::from_utf8_lossy`: the text that [`lossy_text`] names, which is the
/// decoded text where the bytes are UTF-8. Where the replacement characters
/// stand otherwise is not stated.
#[verifier::external_body]
pub(crate) fn decode_lossy(b: &[u8]) -> (r: String)
    ensures
        r@ == lossy_text(b@),
        vstd::utf8::valid_utf8(b@) ==> r@ == vstd::utf8::decode_utf8(b@),
{
    String::from_utf8_lossy(b).into_owned()
}

//// Hunks and their images

/// The line with its side exchanged.
pub open spec fn flip(l: LineModel) -> LineModel {
    match l {
        LineModel::Context(t) => LineModel::Context(t),
        LineModel::Delete(t) => LineModel::Insert(t),
        LineModel::Insert(t) => LineModel::Delete(t),
    }
}

/// The hunk that leads from the new side of `h` back to its old side.
pub open spec fn reversed(h: HunkModel) -> HunkModel {
    HunkModel {
        old_start: h.new_start,
        old_lines: h.new_lines,
        new_start: h.old_start,
        new_lines: h.old_lines,
        header: super::model::plain_header(h.new_start, h.new_lines, h.old_start, h.old_lines),
        lines: h.lines.map_values(|l: LineModel| flip(l)),
        no_newline_old: h.no_newline_new,
        no_newline_new: h.no_newline_old,
        use_decision: h.use_decision,
    }
}

/// The texts of the lines that the old side has.
pub open spec fn preimage_of(lines: Seq<LineModel>) -> Seq<Seq<char>>
    decreases lines.len(),
{
    if lines.len() == 0 {
        Seq::empty()
    } else if lines.last() is Insert {
        preimage_of(lines.drop_last())
    } else {
        preimage_of(lines.drop_last()).push(lines.last().text())
    }
}

/// The texts of the lines that the new side has.
pub open spec fn postimage_of(lines: Seq<LineModel>) -> Seq<Seq<char>>
    decreases lines.len(),
{
    if lines.len() == 0 {
        Seq::empty()
    } else if lines.last() is Delete {
        postimage_of(lines.drop_last())
    } else {
        postimage_of(lines.drop_last()).push(lines.last().text())
    }
}

fn reverse_hunk(hunk: &Hunk) -> (r: Hunk)
    ensures
        r@ == reversed(hunk@),
{
    let mut lines: Vec<HunkLine> = Vec::new();
    let ghost m = hunk@.lines;
    let mut i: usize = 0;
    while i < hunk.lines.len()
        invariant
            i <= hunk.lines.len(),
            m == super::model::line_models(hunk.lines@),
            lines@.len() == i,
            forall|j: int| 0 <= j < i ==> (#[trigger] lines@[j])@ == flip(m[j]),
        decreases hunk.lines.len() - i,
    {
        lines.push(
            match &hunk.lines[i] {
                HunkLine::Context(t) => HunkLine::Context(t.clone()),
                HunkLine::Delete(t) => HunkLine::Insert(t.clone()),
                HunkLine::Insert(t) => HunkLine::Delete(t.clone()),
            },
        );
        i += 1;
    }
    let r = Hunk {
        old_start: hunk.new_start,
        old_lines: hunk.new_lines,
        new_start: hunk.old_start,
        new_lines: hunk.old_lines,
        header: plain_header_text(
            hunk.new_start,
            hunk.new_lines,
            hunk.old_start,
            hunk.old_lines,
        ),
        lines,
        no_newline_old: hunk.no_newline_new,
        no_newline_new: hunk.no_newline_old,
        use_decision: hunk.use_decision,
    };
    assert(r@.lines =~= m.map_values(|l: LineModel| flip(l)));
    r
}

fn preimage(hunk: &Hunk) -> (r: Vec<String>)
    ensures
        text::texts(r@) == preimage_of(hunk@.lines),
{
    let mut out: Vec<String> = Vec::new();
    let ghost m = hunk@.lines;
    let mut i: usize = 0;
    assert(text::texts(out@) =~= preimage_of(m.take(0)));
    while i < hunk.lines.len()
        invariant
            i <= hunk.lines.len(),
            m == super::model::line_models(hunk.lines@),
            text::texts(out@) == preimage_of(m.take(i as int)),
        decreases hunk.lines.len() - i,
    {
        let ghost before = text::texts(out@);
        assert(m.take(i + 1).drop_last() =~= m.take(i as int));
        match &hunk.lines[i] {
            HunkLine::Insert(_) => {},
            HunkLine::Context(t) => {
                out.push(t.clone());
                assert(text::texts(out@) =~= before.push(t@));
            },
            HunkLine::Delete(t) => {
                out.push(t.clone());
                assert(text::texts(out@) =~= before.push(t@));
            },
        }
        i += 1;
    }
    assert(m.take(i as int) =~= m);
    out
}

fn postimage(hunk: &Hunk) -> (r: Vec<String>)
    ensures
        text::texts(r@) == postimage_of(hunk@.lines),
{
    let mut out: Vec<String> = Vec::new();
    let ghost m = hunk@.lines;
    let mut i: usize = 0;
    assert(text::texts(out@) =~= postimage_of(m.take(0)));
    while i < hunk.lines.len()
        invariant
            i <= hunk.lines.len(),
            m == super::model::line_models(hunk.lines@),
            text::texts(out@) == postimage_of(m.take(i as int)),
        decreases hunk.lines.len() - i,
    {
        let ghost before = text::texts(out@);
        assert(m.take(i + 1).drop_last() =~= m.take(i as int));
        match &hunk.lines[i] {
            HunkLine::Delete(_) => {},
            HunkLine::Context(t) => {
                out.push(t.clone());
                assert(text::texts(out@) =~= before.push(t@));
            },
            HunkLine::Insert(t) => {
                out.push(t.clone());
                assert(text::texts(out@) =~= before.push(t@));
            },
        }
        i += 1;
    }
    assert(m.take(i as int) =~= m);
    out
}

//// One hunk

/// A line without the carriage returns at its end.
pub open spec fn bare(l: Seq<char>) -> Seq<char> {
    text::trim_end_char(l, '\r')
}

/// The first of `want` that the lines of `have` from `start` on differ from,
/// carriage returns at line ends left aside; `want.len()` where none does.
pub open spec fn first_mismatch(
    have: Seq<Seq<char>>,
    start: int,
    want: Seq<Seq<char>>,
    i: int,
) -> int
    decreases want.len() - i,
{
    if 0 <= i < want.len() && bare(have[start + i]) == bare(want[i]) {
        first_mismatch(have, start, want, i + 1)
    } else {
        i
    }
}

pub proof fn lemma_first_mismatch(
    have: Seq<Seq<char>>,
    start: int,
    want: Seq<Seq<char>>,
    i: int,
)
    requires
        0 <= i <= want.len(),
    ensures
        i <= first_mismatch(have, start, want, i) <= want.len(),
        forall|j: int|
            #![trigger want[j]]
            i <= j < first_mismatch(have, start, want, i) ==> bare(have[start + j]) == bare(
                want[j],
            ),
        first_mismatch(have, start, want, i) < want.len() ==> bare(
            have[start + first_mismatch(have, start, want, i)],
        ) != bare(want[first_mismatch(have, start, want, i)]),
    decreases want.len() - i,
{
    if i < want.len() && bare(have[start + i]) == bare(want[i]) {
        lemma_first_mismatch(have, start, want, i + 1);
    }
}

/// How many lines of the file stand before the old side of a hunk. A hunk
/// without old lines names the line behind which it inserts.
pub open spec fn hunk_position(h: HunkModel) -> int {
    if h.old_lines == 0 {
        h.old_start
    } else if h.old_start > 0 {
        h.old_start - 1
    } else {
        0
    }
}

/// The lines that a hunk takes away.
pub open spec fn hunk_takes(h: HunkModel) -> Seq<Seq<char>> {
    if h.old_lines == 0 {
        Seq::empty()
    } else {
        preimage_of(h.lines)
    }
}

/// `lines` with the `n` lines from `at` on replaced by `by`.
pub open spec fn replaced(
    lines: Seq<Seq<char>>,
    at: int,
    n: int,
    by: Seq<Seq<char>>,
) -> Seq<Seq<char>> {
    lines.take(at) + by + lines.skip(at + n)
}

/// `lines` after one hunk, where the hunks before it have moved its place by
/// `shift` lines. A hunk without old lines inserts its new side behind line
/// `old_start`; another replaces its old side, which has to stand where it
/// says.
pub open spec fn apply_hunk(lines: Seq<Seq<char>>, h: HunkModel, shift: int) -> Result<
    Seq<Seq<char>>,
    Seq<char>,
> {
    let start = hunk_position(h) + shift;
    let want = hunk_takes(h);
    let k = first_mismatch(lines, start, want, 0);
    if h.old_lines == 0 && start > lines.len() {
        Err(
            "insert at "@ + text::decimal(start as nat) + " past EOF ("@ + text::decimal(
                lines.len(),
            ) + ")"@,
        )
    } else if start < 0 || start + want.len() > lines.len() {
        Err(
            "hunk -"@ + text::decimal(h.old_start as nat) + ","@ + text::decimal(
                h.old_lines as nat,
            ) + " overruns file ("@ + text::decimal(lines.len()) + " lines)"@,
        )
    } else if k < want.len() {
        Err(
            "line "@ + text::decimal((start + k + 1) as nat) + " mismatch: expected "@ + debug_of(
                want[k],
            ) + ", got "@ + debug_of(lines[start + k]),
        )
    } else {
        Ok(replaced(lines, start, want.len() as int, postimage_of(h.lines)))
    }
}

fn same_bare(a: &str, b: &str) -> (r: bool)
    ensures
        r == (bare(a@) == bare(b@)),
{
    let ca = chars_of(a);
    let cb = chars_of(b);
    let ta = text_of(trimmed_end_char(ca.as_slice(), '\r'));
    let tb = text_of(trimmed_end_char(cb.as_slice(), '\r'));
    text::same(ta.as_str(), tb.as_str())
}

fn replace_lines(lines: &[String], at: usize, n: usize, by: &[String]) -> (r: Vec<String>)
    requires
        at + n <= lines@.len(),
    ensures
        text::texts(r@) == replaced(text::texts(lines@), at as int, n as int, text::texts(by@)),
{
    let total = lines.len();
    let mut out = text::copy_strings(slice_subrange(lines, 0, at));
    let mut middle = text::copy_strings(by);
    let mut tail = text::copy_strings(slice_subrange(lines, at + n, total));
    out.append(&mut middle);
    out.append(&mut tail);
    assert(text::texts(out@) =~= replaced(
        text::texts(lines@),
        at as int,
        n as int,
        text::texts(by@),
    ));
    out
}

fn overrun(hunk: &Hunk, total: usize) -> (r: String)
    ensures
        r@ == "hunk -"@ + text::decimal(hunk@.old_start as nat) + ","@ + text::decimal(
            hunk@.old_lines as nat,
        ) + " overruns file ("@ + text::decimal(total as nat) + " lines)"@,
{
    let mut out = "hunk -".to_owned();
    out.append(decimal_text(hunk.old_start as u64).as_str());
    out.append(",");
    out.append(decimal_text(hunk.old_lines as u64).as_str());
    out.append(" overruns file (");
    out.append(decimal_text(total as u64).as_str());
    out.append(" lines)");
    out
}

/// Applies one hunk to what the hunks before it made of a file that had
/// `before` lines.
fn apply_one_hunk(lines: &[String], hunk: &Hunk, before: usize) -> (r: Result<Vec<String>, String>)
    ensures
        (match r {
            Ok(out) => apply_hunk(text::texts(lines@), hunk@, lines@.len() - before) == Ok::<
                Seq<Seq<char>>,
                Seq<char>,
            >(text::texts(out@)),
            Err(e) => apply_hunk(text::texts(lines@), hunk@, lines@.len() - before) == Err::<
                Seq<Seq<char>>,
                Seq<char>,
            >(e@),
        }),
{
    let ghost have = text::texts(lines@);
    assert(have.len() == lines@.len());
    let position: usize = if hunk.old_lines == 0 {
        hunk.old_start
    } else if hunk.old_start > 0 {
        hunk.old_start - 1
    } else {
        0
    };
    let place: i128 = position as i128 + lines.len() as i128 - before as i128;
    if hunk.old_lines == 0 && place > lines.len() as i128 {
        let mut out = "insert at ".to_owned();
        text::push_decimal(&mut out, place as u128);
        out.append(" past EOF (");
        out.append(decimal_text(lines.len() as u64).as_str());
        out.append(")");
        return Err(out);
    }
    let expected = if hunk.old_lines == 0 {
        let none: Vec<String> = Vec::new();
        assert(text::texts(none@) =~= Seq::<Seq<char>>::empty());
        none
    } else {
        preimage(hunk)
    };
    let ghost want = text::texts(expected@);
    assert(want.len() == expected@.len());
    if place < 0 || place + expected.len() as i128 > lines.len() as i128 {
        return Err(overrun(hunk, lines.len()));
    }
    let start: usize = place as usize;
    let mut i: usize = 0;
    while i < expected.len()
        invariant
            i <= expected.len(),
            start + expected.len() <= lines.len(),
            start == hunk_position(hunk@) + lines@.len() - before,
            have == text::texts(lines@),
            want == text::texts(expected@),
            want == hunk_takes(hunk@),
            !(hunk.old_lines == 0 && start > lines@.len()),
            first_mismatch(have, start as int, want, i as int) == first_mismatch(
                have,
                start as int,
                want,
                0,
            ),
        decreases expected.len() - i,
    {
        assert(want[i as int] == expected@[i as int]@);
        assert(have[start + i] == lines@[start + i]@);
        if !same_bare(lines[start + i].as_str(), expected[i].as_str()) {
            let mut out = "line ".to_owned();
            out.append(decimal_text((start + i + 1) as u64).as_str());
            out.append(" mismatch: expected ");
            out.append(debug_text(expected[i].as_str()).as_str());
            out.append(", got ");
            out.append(debug_text(lines[start + i].as_str()).as_str());
            return Err(out);
        }
        i += 1;
    }
    let by = postimage(hunk);
    Ok(replace_lines(lines, start, expected.len(), by.as_slice()))
}

//// Blobs as lines

/// Whether a carriage return and newline stand anywhere in `b`.
pub open spec fn has_crlf(b: Seq<u8>) -> bool {
    exists|i: int| 0 <= i < b.len() - 1 && #[trigger] b[i] == 13 && b[i + 1] == 10
}

/// A line without the newline that ends it; a carriage return before it stays.
pub open spec fn without_newline(l: Seq<char>) -> Seq<char> {
    if l.len() > 0 && l.last() == '\n' {
        l.drop_last()
    } else {
        l
    }
}

/// A blob as a list of lines.
#[verifier::ext_equal]
pub struct LinesModel {
    pub lines: Seq<Seq<char>>,
    pub ends_with_nl: bool,
    pub crlf: bool,
}

/// The text of a blob: decoded where it is UTF-8, and as far as it can be
/// where it is not.
pub open spec fn blob_text(b: Seq<u8>) -> Seq<char> {
    if vstd::utf8::valid_utf8(b) {
        vstd::utf8::decode_utf8(b)
    } else {
        lossy_text(b)
    }
}

/// The lines of a blob. An empty blob has none, and what is put into it will
/// end with a newline.
pub open spec fn file_lines(b: Seq<u8>) -> LinesModel {
    if b.len() == 0 {
        LinesModel { lines: Seq::empty(), ends_with_nl: true, crlf: false }
    } else {
        let t = blob_text(b);
        LinesModel {
            lines: text::split_keep(t).map_values(|l: Seq<char>| without_newline(l)),
            ends_with_nl: t.len() > 0 && t.last() == '\n',
            crlf: has_crlf(b),
        }
    }
}

/// What ends a line.
pub open spec fn line_end(crlf: bool) -> Seq<char> {
    if crlf {
        "\r\n"@
    } else {
        "\n"@
    }
}

/// A line as it is written back: a CRLF file writes its carriage returns with
/// the line ends.
pub open spec fn line_body(l: Seq<char>, crlf: bool) -> Seq<char> {
    if crlf {
        bare(l)
    } else {
        l
    }
}

/// The lines with the line end behind each.
pub open spec fn ended_lines(lines: Seq<Seq<char>>, crlf: bool) -> Seq<char>
    decreases lines.len(),
{
    if lines.len() == 0 {
        Seq::empty()
    } else {
        ended_lines(lines.drop_last(), crlf) + line_body(lines.last(), crlf) + line_end(crlf)
    }
}

/// The text of the lines, with or without a line end behind the last.
pub open spec fn joined(lines: Seq<Seq<char>>, final_end: bool, crlf: bool) -> Seq<char> {
    if lines.len() == 0 {
        Seq::empty()
    } else {
        let most = ended_lines(lines.drop_last(), crlf) + line_body(lines.last(), crlf);
        if final_end {
            most + line_end(crlf)
        } else {
            most
        }
    }
}

fn has_crlf_bytes(b: &[u8]) -> (r: bool)
    ensures
        r == has_crlf(b@),
{
    let n = b.len();
    let mut i: usize = 0;
    while i < n && n - i > 1
        invariant
            i <= n == b@.len(),
            forall|j: int|
                0 <= j < i && j < b@.len() - 1 ==> !(#[trigger] b@[j] == 13 && b@[j + 1] == 10),
        decreases n - i,
    {
        if b[i] == 13 && b[i + 1] == 10 {
            return true;
        }
        i += 1;
    }
    false
}

fn split_file(bytes: &[u8]) -> (r: (Vec<String>, bool, bool))
    ensures
        file_lines(bytes@) == (LinesModel {
            lines: text::texts(r.0@),
            ends_with_nl: r.1,
            crlf: r.2,
        }),
{
    if bytes.len() == 0 {
        let none: Vec<String> = Vec::new();
        assert(text::texts(none@) =~= Seq::<Seq<char>>::empty());
        return (none, true, false);
    }
    let crlf = has_crlf_bytes(bytes);
    let whole = decode_lossy(bytes);
    let cs = chars_of(whole.as_str());
    let ends = text::ends_char(cs.as_slice(), '\n');
    let kept = cut_lines_keep(cs.as_slice());
    let mut lines: Vec<String> = Vec::new();
    let mut i: usize = 0;
    while i < kept.len()
        invariant
            i <= kept.len(),
            lines@.len() == i,
            forall|j: int| 0 <= j < i ==> (#[trigger] lines@[j])@ == without_newline(kept@[j]@),
        decreases kept.len() - i,
    {
        let l = kept[i].as_slice();
        if text::ends_char(l, '\n') {
            let m = slice_subrange(l, 0, l.len() - 1);
            assert(m@ =~= l@.drop_last());
            lines.push(text_of(m));
        } else {
            lines.push(text_of(l));
        }
        i += 1;
    }
    let ghost rows = text::split_keep(blob_text(bytes@));
    assert forall|j: int| 0 <= j < i implies (#[trigger] lines@[j])@ == without_newline(
        rows[j],
    ) by {
        assert(text::char_views(kept@)[j] == kept@[j]@);
    }
    assert(text::char_views(kept@).len() == kept@.len());
    assert(text::texts(lines@) =~= rows.map_values(|l: Seq<char>| without_newline(l)));
    (lines, ends, crlf)
}

fn push_body(out: &mut String, line: &str, crlf: bool)
    ensures
        final(out)@ == old(out)@ + line_body(line@, crlf),
{
    if crlf {
        let cs = chars_of(line);
        text::push_chars(out, trimmed_end_char(cs.as_slice(), '\r'));
    } else {
        out.append(line);
    }
}

fn push_end(out: &mut String, crlf: bool)
    ensures
        final(out)@ == old(out)@ + line_end(crlf),
{
    if crlf {
        out.append("\r\n");
    } else {
        out.append("\n");
    }
}

fn join_file(lines: &[String], final_end: bool, crlf: bool) -> (r: Vec<u8>)
    ensures
        r@ == vstd::utf8::encode_utf8(joined(text::texts(lines@), final_end, crlf)),
{
    let mut out = String::new();
    let ghost m = text::texts(lines@);
    let n = lines.len();
    if n > 0 {
        let mut i: usize = 0;
        assert(out@ =~= ended_lines(m.take(0), crlf));
        while i + 1 < n
            invariant
                n == lines@.len(),
                i < n,
                m == text::texts(lines@),
                out@ == ended_lines(m.take(i as int), crlf),
            decreases n - i,
        {
            assert(m.take(i + 1).drop_last() =~= m.take(i as int));
            push_body(&mut out, lines[i].as_str(), crlf);
            push_end(&mut out, crlf);
            i += 1;
        }
        assert(m.drop_last() =~= m.take(i as int));
        push_body(&mut out, lines[i].as_str(), crlf);
        if final_end {
            push_end(&mut out, crlf);
        }
    }
    assert(out@ == joined(m, final_end, crlf));
    slice_to_vec(out.as_str().as_bytes())
}

//// The whole file

/// Whether any hunk is marked for use.
pub open spec fn any_used(hunks: Seq<HunkModel>) -> bool {
    exists|i: int| 0 <= i < hunks.len() && (#[trigger] hunks[i]).use_decision is Use
}

/// Whether any hunk is marked to be skipped.
pub open spec fn any_skipped(hunks: Seq<HunkModel>) -> bool {
    exists|i: int| 0 <= i < hunks.len() && (#[trigger] hunks[i]).use_decision is Skip
}

/// The hunks marked for use, turned round where the mode undoes them.
pub open spec fn selected_hunks(hunks: Seq<HunkModel>, mode: PatchApplyMode) -> Seq<HunkModel>
    decreases hunks.len(),
{
    if hunks.len() == 0 {
        Seq::empty()
    } else if hunks.last().use_decision is Use {
        selected_hunks(hunks.drop_last(), mode).push(
            if mode is ResetHead {
                reversed(hunks.last())
            } else {
                hunks.last()
            },
        )
    } else {
        selected_hunks(hunks.drop_last(), mode)
    }
}

/// `lines` after each of `hunks` in turn, all of which speak of the lines
/// before any of them: what the earlier ones add or take moves the later ones.
/// The first that does not apply ends it.
pub open spec fn apply_hunks(lines: Seq<Seq<char>>, hunks: Seq<HunkModel>, shift: int) -> Result<
    Seq<Seq<char>>,
    Seq<char>,
>
    decreases hunks.len(),
{
    if hunks.len() == 0 {
        Ok(lines)
    } else {
        match apply_hunk(lines, hunks[0], shift) {
            Ok(next) => apply_hunks(
                next,
                hunks.drop_first(),
                shift + postimage_of(hunks[0].lines).len() - hunk_takes(hunks[0]).len(),
            ),
            Err(e) => Err(e),
        }
    }
}

/// Whether the mark of a hunk stands behind a context line, and so holds of
/// both sides.
pub open spec fn ends_in_context(h: HunkModel) -> bool {
    h.lines.len() > 0 && h.lines.last() is Context
}

/// Whether the old side of a hunk ends without a newline, and the new side
/// with one.
pub open spec fn gains_newline(h: HunkModel) -> bool {
    h.no_newline_old && !h.no_newline_new && !ends_in_context(h)
}

/// Whether the old side of a hunk reaches the end of a file of `n` lines.
pub open spec fn reaches_end(h: HunkModel, n: nat) -> bool {
    hunk_position(h) + hunk_takes(h).len() == n
}

/// Whether a newline ends what `hunks` make of a file: not where the last hunk
/// says that its new side has none; else where the file has one, or gets one
/// from that hunk at its end.
pub open spec fn newline_after(before: LinesModel, hunks: Seq<HunkModel>) -> bool {
    if hunks.len() == 0 {
        before.ends_with_nl
    } else {
        let h = hunks.last();
        !h.no_newline_new && (before.ends_with_nl || (gains_newline(h) && reaches_end(
            h,
            before.lines.len(),
        )))
    }
}

pub open spec fn first_of(a: Option<u32>, b: Option<u32>) -> Option<u32> {
    if a is Some {
        a
    } else {
        b
    }
}

/// Whether the mode change is part of the selection: no hunk is skipped, and
/// one is used where there are any.
pub open spec fn mode_selected(f: FileModel) -> bool {
    f.mode_change && !any_skipped(f.hunks) && (f.hunks.len() == 0 || any_used(f.hunks))
}

/// The mode on the side that the selection leads to.
pub open spec fn target_mode(f: FileModel, mode: PatchApplyMode) -> Option<u32> {
    if mode is ResetHead {
        first_of(f.old_mode, f.new_mode)
    } else {
        first_of(f.new_mode, f.old_mode)
    }
}

/// Whether the selection takes the path out of the index.
pub open spec fn removes_path(f: FileModel, mode: PatchApplyMode) -> bool {
    any_used(f.hunks) && if mode is ResetHead {
        f.added
    } else {
        f.deleted
    }
}

/// The blob that the selected hunks of `f` make of `old_bytes`.
pub open spec fn applied(old_bytes: Seq<u8>, f: FileModel, mode: PatchApplyMode) -> Result<
    BlobModel,
    ApplyErrorModel,
> {
    let kept = BlobModel {
        bytes: Some(old_bytes),
        mode: if mode_selected(f) {
            target_mode(f, mode)
        } else {
            f.old_mode
        },
    };
    if f.binary {
        Err(ApplyErrorModel::BinaryNotSelectable)
    } else if f.mode_change && f.hunks.len() == 0 {
        Ok(kept)
    } else if removes_path(f, mode) {
        Ok(BlobModel { bytes: None, mode: None })
    } else if selected_hunks(f.hunks, mode).len() == 0 {
        Ok(kept)
    } else {
        let before = file_lines(old_bytes);
        let hunks = selected_hunks(f.hunks, mode);
        match apply_hunks(before.lines, hunks, 0) {
            Err(detail) => Err(ApplyErrorModel::HunkDoesNotApply { path: f.path, detail }),
            Ok(lines) => {
                Ok(
                    BlobModel {
                        bytes: Some(
                            vstd::utf8::encode_utf8(
                                joined(lines, newline_after(before, hunks), before.crlf),
                            ),
                        ),
                        mode: if f.mode_change {
                            target_mode(f, mode)
                        } else {
                            first_of(f.new_mode, f.old_mode)
                        },
                    },
                )
            },
        }
    }
}

fn first_some(a: Option<u32>, b: Option<u32>) -> (r: Option<u32>)
    ensures
        r == first_of(a, b),
{
    if a.is_some() {
        a
    } else {
        b
    }
}

/// Whether any of the hunks carries the decision `d`.
fn any_decided(hunks: &[Hunk], d: HunkUse) -> (r: bool)
    ensures
        r == exists|i: int| 0 <= i < hunks@.len() && (#[trigger] hunks@[i]).use_decision == d,
{
    let mut i: usize = 0;
    while i < hunks.len()
        invariant
            i <= hunks.len(),
            forall|j: int| 0 <= j < i ==> (#[trigger] hunks@[j]).use_decision != d,
        decreases hunks.len() - i,
    {
        if hunks[i].use_decision == d {
            return true;
        }
        i += 1;
    }
    false
}

fn any_use(hunks: &[Hunk]) -> (r: bool)
    ensures
        r == any_used(super::model::hunk_models(hunks@)),
{
    let r = any_decided(hunks, HunkUse::Use);
    proof {
        let m = super::model::hunk_models(hunks@);
        if r {
            let i = choose|i: int|
                0 <= i < hunks@.len() && (#[trigger] hunks@[i]).use_decision == HunkUse::Use;
            assert(m[i].use_decision is Use);
        }
        if any_used(m) {
            let i = choose|i: int| 0 <= i < m.len() && (#[trigger] m[i]).use_decision is Use;
            assert(hunks@[i].use_decision == HunkUse::Use);
        }
    }
    r
}

fn any_skip(hunks: &[Hunk]) -> (r: bool)
    ensures
        r == any_skipped(super::model::hunk_models(hunks@)),
{
    let r = any_decided(hunks, HunkUse::Skip);
    proof {
        let m = super::model::hunk_models(hunks@);
        if r {
            let i = choose|i: int|
                0 <= i < hunks@.len() && (#[trigger] hunks@[i]).use_decision == HunkUse::Skip;
            assert(m[i].use_decision is Skip);
        }
        if any_skipped(m) {
            let i = choose|i: int| 0 <= i < m.len() && (#[trigger] m[i]).use_decision is Skip;
            assert(hunks@[i].use_decision == HunkUse::Skip);
        }
    }
    r
}

/// Whether a newline ends what `hunks` make of a file of `total` lines.
fn ends_with_newline(total: usize, ends_with_nl: bool, hunks: &[Hunk]) -> (r: bool)
    requires
        hunks@.len() > 0,
    ensures
        forall|before: LinesModel|
            before.lines.len() == total && before.ends_with_nl == ends_with_nl ==> r
                == #[trigger] newline_after(before, super::model::hunk_models(hunks@)),
{
    let h = &hunks[hunks.len() - 1];
    assert(super::model::hunk_models(hunks@).last() == h@);
    let position: usize = if h.old_lines == 0 {
        h.old_start
    } else if h.old_start > 0 {
        h.old_start - 1
    } else {
        0
    };
    let taken: usize = if h.old_lines == 0 {
        0
    } else {
        super::model::old_lines_in(h.lines.as_slice())
    };
    proof {
        lemma_image_counts(h@.lines);
    }
    let at_end = position as u128 + taken as u128 == total as u128;
    let n = h.lines.len();
    let both = n > 0 && !h.lines[n - 1].is_change();
    assert(n > 0 ==> h@.lines.last() == h.lines@.last()@);
    !h.no_newline_new && (ends_with_nl || (h.no_newline_old && !both && at_end))
}

fn select_hunks(hunks: &[Hunk], mode: PatchApplyMode) -> (r: Vec<Hunk>)
    ensures
        super::model::hunk_models(r@) == selected_hunks(super::model::hunk_models(hunks@), mode),
{
    let ghost m = super::model::hunk_models(hunks@);
    let mut out: Vec<Hunk> = Vec::new();
    let mut i: usize = 0;
    assert(super::model::hunk_models(out@) =~= selected_hunks(m.take(0), mode));
    while i < hunks.len()
        invariant
            i <= hunks.len(),
            m == super::model::hunk_models(hunks@),
            super::model::hunk_models(out@) == selected_hunks(m.take(i as int), mode),
        decreases hunks.len() - i,
    {
        let ghost before = super::model::hunk_models(out@);
        assert(m.take(i + 1).drop_last() =~= m.take(i as int));
        if hunks[i].use_decision == HunkUse::Use {
            let h = match mode {
                PatchApplyMode::ResetHead => reverse_hunk(&hunks[i]),
                _ => hunks[i].clone(),
            };
            let ghost hm = h@;
            out.push(h);
            assert(super::model::hunk_models(out@) =~= before.push(hm));
        }
        i += 1;
    }
    assert(m.take(i as int) =~= m);
    out
}

proof fn lemma_hunk_growth(lines: Seq<Seq<char>>, h: HunkModel, shift: int)
    requires
        apply_hunk(lines, h, shift) is Ok,
    ensures
        apply_hunk(lines, h, shift)->Ok_0.len() == lines.len() + postimage_of(h.lines).len()
            - hunk_takes(h).len(),
{
}

fn apply_all(lines: Vec<String>, hunks: &[Hunk]) -> (r: Result<Vec<String>, String>)
    ensures
        (match r {
            Ok(out) => apply_hunks(text::texts(lines@), super::model::hunk_models(hunks@), 0)
                == Ok::<Seq<Seq<char>>, Seq<char>>(text::texts(out@)),
            Err(e) => apply_hunks(text::texts(lines@), super::model::hunk_models(hunks@), 0)
                == Err::<Seq<Seq<char>>, Seq<char>>(e@),
        }),
{
    let ghost m = super::model::hunk_models(hunks@);
    let ghost first = text::texts(lines@);
    let before = lines.len();
    let mut now = lines;
    let mut i: usize = 0;
    assert(m.skip(0) =~= m);
    while i < hunks.len()
        invariant
            i <= hunks.len(),
            m == super::model::hunk_models(hunks@),
            first == text::texts(lines@),
            apply_hunks(text::texts(now@), m.skip(i as int), now@.len() - before) == apply_hunks(
                first,
                m,
                0,
            ),
        decreases hunks.len() - i,
    {
        assert(m.skip(i as int).drop_first() =~= m.skip(i + 1));
        assert(m.skip(i as int)[0] == hunks@[i as int]@);
        match apply_one_hunk(now.as_slice(), &hunks[i], before) {
            Ok(next) => {
                proof {
                    lemma_hunk_growth(
                        text::texts(now@),
                        hunks@[i as int]@,
                        now@.len() - before,
                    );
                    assert(text::texts(next@).len() == next@.len());
                    assert(text::texts(now@).len() == now@.len());
                }
                now = next;
            },
            Err(e) => {
                return Err(e);
            },
        }
        i += 1;
    }
    Ok(now)
}

/// Apply every hunk marked [`HunkUse::Use`] (and a selected mode change) to
/// `old_bytes`, which is the current index blob for [`PatchApplyMode::Stage`].
///
/// [`PatchApplyMode::ResetHead`] undoes the selected hunks, and
/// [`PatchApplyMode::ResetNotHead`] applies those of a reverse patch forward.
pub fn apply_selected_hunks_to_blob(
    old_bytes: &[u8],
    file: &FileDiff,
    mode: PatchApplyMode,
) -> (r: Result<AppliedIndexBlob, PatchApplyError>)
    ensures
        (match r {
            Ok(blob) => applied(old_bytes@, file@, mode) == Ok::<BlobModel, ApplyErrorModel>(
                blob@,
            ),
            Err(e) => applied(old_bytes@, file@, mode) == Err::<BlobModel, ApplyErrorModel>(e@),
        }),
{
    if file.binary {
        return Err(PatchApplyError::BinaryNotSelectable);
    }
    let hunks = file.hunks.as_slice();
    let used = any_use(hunks);
    let use_mode = file.mode_change && !any_skip(hunks) && (hunks.len() == 0 || used);
    let result_mode = match mode {
        PatchApplyMode::ResetHead => first_some(file.old_mode, file.new_mode),
        _ => first_some(file.new_mode, file.old_mode),
    };
    let kept_mode = if use_mode {
        result_mode
    } else {
        file.old_mode
    };
    if file.mode_change && hunks.len() == 0 {
        return Ok(AppliedIndexBlob { bytes: Some(slice_to_vec(old_bytes)), mode: kept_mode });
    }
    let gone = match mode {
        PatchApplyMode::ResetHead => file.added,
        _ => file.deleted,
    };
    if used && gone {
        return Ok(AppliedIndexBlob { bytes: None, mode: None });
    }
    let selected = select_hunks(hunks, mode);
    assert(super::model::hunk_models(selected@).len() == selected@.len());
    if selected.len() == 0 {
        return Ok(AppliedIndexBlob { bytes: Some(slice_to_vec(old_bytes)), mode: kept_mode });
    }
    let (before, ends_with_nl, crlf) = split_file(old_bytes);
    let final_end = ends_with_newline(before.len(), ends_with_nl, selected.as_slice());
    assert(text::texts(before@).len() == before@.len());
    let lines = match apply_all(before, selected.as_slice()) {
        Ok(lines) => lines,
        Err(detail) => {
            return Err(PatchApplyError::HunkDoesNotApply { path: file.path.clone(), detail });
        },
    };
    let bytes = join_file(lines.as_slice(), final_end, crlf);
    Ok(
        AppliedIndexBlob {
            bytes: Some(bytes),
            mode: if file.mode_change {
                result_mode
            } else {
                first_some(file.new_mode, file.old_mode)
            },
        },
    )
}

//// Laws

/// Turning a hunk round twice gives it back, with its header rewritten to the
/// plain form.
pub proof fn law_reverse_twice(h: HunkModel)
    ensures
        reversed(reversed(h)) == (HunkModel {
            header: super::model::plain_header(
                h.old_start,
                h.old_lines,
                h.new_start,
                h.new_lines,
            ),
            ..h
        }),
{
    assert(reversed(reversed(h)).lines =~= h.lines);
}

/// Turning a hunk round exchanges its two sides.
pub proof fn law_reverse_exchanges_sides(lines: Seq<LineModel>)
    ensures
        preimage_of(lines.map_values(|l: LineModel| flip(l))) == postimage_of(lines),
        postimage_of(lines.map_values(|l: LineModel| flip(l))) == preimage_of(lines),
    decreases lines.len(),
{
    let f = lines.map_values(|l: LineModel| flip(l));
    if lines.len() > 0 {
        law_reverse_exchanges_sides(lines.drop_last());
        assert(f.drop_last() =~= lines.drop_last().map_values(|l: LineModel| flip(l)));
    }
}

pub proof fn lemma_image_counts(lines: Seq<LineModel>)
    ensures
        preimage_of(lines).len() == super::model::old_count(lines),
        postimage_of(lines).len() == super::model::new_count(lines),
    decreases lines.len(),
{
    if lines.len() > 0 {
        lemma_image_counts(lines.drop_last());
    }
}

/// A hunk whose two sides start at the same line is undone by the hunk turned
/// round: every line is back, but for carriage returns at line ends, which
/// matching leaves aside.
pub proof fn law_reverse_undoes(lines: Seq<Seq<char>>, h: HunkModel, shift: int)
    requires
        h.old_lines > 0,
        h.new_lines > 0,
        h.old_start > 0,
        h.old_start == h.new_start,
        apply_hunk(lines, h, shift) is Ok,
    ensures
        ({
            let there = apply_hunk(lines, h, shift)->Ok_0;
            let back = apply_hunk(there, reversed(h), shift);
            &&& back is Ok
            &&& back->Ok_0.len() == lines.len()
            &&& forall|i: int|
                0 <= i < lines.len() ==> bare(back->Ok_0[i]) == bare(#[trigger] lines[i])
        }),
{
    let start = h.old_start - 1 + shift;
    let pre = preimage_of(h.lines);
    let post = postimage_of(h.lines);
    let there = replaced(lines, start, pre.len() as int, post);
    law_reverse_exchanges_sides(h.lines);
    lemma_first_mismatch(lines, start, pre, 0);
    lemma_first_mismatch(there, start, post, 0);
    let k = first_mismatch(there, start, post, 0);
    if k < post.len() {
        assert(there[start + k] == post[k]);
    }
    let back = replaced(there, start, post.len() as int, pre);
    assert(apply_hunk(there, reversed(h), shift) == Ok::<Seq<Seq<char>>, Seq<char>>(back));
    assert forall|i: int| 0 <= i < lines.len() implies bare(back[i]) == bare(
        #[trigger] lines[i],
    ) by {
        if start <= i < start + pre.len() {
            assert(back[i] == pre[i - start]);
        }
    }
}

/// Where no hunk is used, the blob stays as it is.
pub proof fn law_nothing_selected_keeps_blob(b: Seq<u8>, f: FileModel, mode: PatchApplyMode)
    requires
        !f.binary,
        !any_used(f.hunks),
    ensures
        applied(b, f, mode) matches Ok(r) && r.bytes == Some(b),
{
    lemma_none_selected(f.hunks, mode);
}

proof fn lemma_none_selected(hunks: Seq<HunkModel>, mode: PatchApplyMode)
    requires
        !any_used(hunks),
    ensures
        selected_hunks(hunks, mode).len() == 0,
    decreases hunks.len(),
{
    if hunks.len() > 0 {
        let t = hunks.drop_last();
        assert(!any_used(t)) by {
            if any_used(t) {
                let i = choose|i: int| 0 <= i < t.len() && (#[trigger] t[i]).use_decision is Use;
                assert(hunks[i].use_decision is Use);
            }
        }
        assert(!(hunks[hunks.len() - 1].use_decision is Use));
        lemma_none_selected(t, mode);
    }
}

/// A binary file is never applied, whatever is selected.
pub proof fn law_binary_is_refused(b: Seq<u8>, f: FileModel, mode: PatchApplyMode)
    ensures
        f.binary <==> applied(b, f, mode) == Err::<BlobModel, ApplyErrorModel>(
            ApplyErrorModel::BinaryNotSelectable,
        ),
{
}

/// A hunk that applies changes only the lines of its old side: those before
/// and behind it stay, in order.
pub proof fn law_apply_keeps_surroundings(lines: Seq<Seq<char>>, h: HunkModel, shift: int)
    requires
        apply_hunk(lines, h, shift) is Ok,
    ensures
        ({
            let out = apply_hunk(lines, h, shift)->Ok_0;
            let at = hunk_position(h) + shift;
            let old_n = hunk_takes(h).len() as int;
            let new_n = super::model::new_count(h.lines) as int;
            &&& out.len() == lines.len() - old_n + new_n
            &&& out.take(at) == lines.take(at)
            &&& out.skip(at + new_n) == lines.skip(at + old_n)
        }),
{
    lemma_image_counts(h.lines);
    let out = apply_hunk(lines, h, shift)->Ok_0;
    let at = hunk_position(h) + shift;
    assert(out.take(at) =~= lines.take(at));
    assert(out.skip(at + postimage_of(h.lines).len()) =~= lines.skip(
        at + hunk_takes(h).len(),
    ));
}

//// Undoing, byte for byte

/// Characters that are one byte stand for themselves, and no byte of another
/// character looks like one of them.
proof fn lemma_scalar_bytes(c: char)
    ensures
        vstd::utf8::encode_scalar(c as u32).len() > 0,
        (c as u32) <= 0x7f ==> vstd::utf8::encode_scalar(c as u32).len() == 1
            && vstd::utf8::encode_scalar(c as u32)[0] == c as int,
        (c as u32) > 0x7f ==> forall|i: int|
            0 <= i < vstd::utf8::encode_scalar(c as u32).len() ==> #[trigger] vstd::utf8::encode_scalar(
                c as u32,
            )[i] >= 0x80,
{
    let v = c as u32;
    let e = vstd::utf8::encode_scalar(v);
    if v <= 0x7f {
        assert((v & 0x7f) as u8 == v) by (bit_vector)
            requires
                v <= 0x7f,
        ;
        assert(e =~= seq![v as u8]);
    } else {
        let one = seq![c];
        let all = vstd::utf8::encode_utf8(one);
        vstd::utf8::char_is_scalar(c);
        vstd::utf8::encode_utf8_first_scalar(one);
        assert(one.drop_first() =~= Seq::<char>::empty());
        reveal_with_fuel(vstd::utf8::encode_utf8, 2);
        assert(all =~= e);
        assert(forall|i: int| 0 <= i < e.len() ==> #[trigger] e[i] >= 0x80);
    }
}

/// Whether a carriage return and newline stand anywhere in `t`.
spec fn crlf_text(t: Seq<char>) -> bool {
    exists|i: int| 0 <= i < t.len() - 1 && #[trigger] t[i] == '\r' && t[i + 1] == '\n'
}

proof fn lemma_crlf_bytes(t: Seq<char>)
    requires
        has_crlf(vstd::utf8::encode_utf8(t)),
    ensures
        crlf_text(t),
    decreases t.len(),
{
    let all = vstd::utf8::encode_utf8(t);
    let i = choose|i: int| 0 <= i < all.len() - 1 && #[trigger] all[i] == 13 && all[i + 1] == 10;
    if t.len() > 0 {
        let head = vstd::utf8::encode_scalar(t[0] as u32);
        let rest = t.drop_first();
        let tail = vstd::utf8::encode_utf8(rest);
        assert(all == head + tail);
        lemma_scalar_bytes(t[0]);
        if i >= head.len() {
            let k = i - head.len();
            assert(tail[k] == 13 && tail[k + 1] == 10);
            lemma_crlf_bytes(rest);
            let j = choose|j: int|
                0 <= j < rest.len() - 1 && #[trigger] rest[j] == '\r' && rest[j + 1] == '\n';
            assert(t[j + 1] == '\r' && t[j + 2] == '\n');
        } else {
            assert(head[i] == 13);
            assert(head.len() == 1);
            assert(t[0] == '\r');
            assert(tail[0] == 10);
            assert(rest.len() > 0);
            let next = vstd::utf8::encode_scalar(rest[0] as u32);
            lemma_scalar_bytes(rest[0]);
            assert(next[0] == tail[0]);
            assert(rest[0] == '\n');
            let z: int = 0;
            assert(t[z] == '\r' && t[z + 1] == '\n');
        }
    }
}

/// The lines of a text, each without the newline that ends it.
spec fn rows(t: Seq<char>) -> Seq<Seq<char>> {
    text::split_keep(t).map_values(|l: Seq<char>| without_newline(l))
}

proof fn lemma_rows_line(a: Seq<char>, rest: Seq<char>)
    requires
        !a.contains('\n'),
    ensures
        rows(a.push('\n') + rest) == seq![a] + rows(rest),
{
    text::lemma_split_keep_line(a, rest);
    assert(a.push('\n').drop_last() =~= a);
    assert(rows(a.push('\n') + rest) =~= seq![a] + rows(rest));
}

proof fn lemma_rows_bare(a: Seq<char>)
    requires
        a.len() > 0,
        !a.contains('\n'),
    ensures
        rows(a) == seq![a],
{
    assert(a.last() != '\n') by {
        assert(a.contains(a.last()));
    }
    assert(rows(a) =~= seq![a]);
}

/// The first line of `t`, which has a newline, and what follows it.
proof fn lemma_first_row(t: Seq<char>) -> (r: (Seq<char>, Seq<char>))
    requires
        t.contains('\n'),
    ensures
        t == r.0.push('\n') + r.1,
        !r.0.contains('\n'),
        r.1.len() < t.len(),
        r.1.len() > 0 ==> r.1.last() == t.last(),
        r.1.len() == 0 ==> t.last() == '\n',
{
    text::lemma_find_char(t, '\n');
    let k = text::find_char(t, '\n');
    let a = t.take(k);
    let rest = t.skip(k + 1);
    assert(!a.contains('\n'));
    assert(t =~= a.push('\n') + rest);
    (a, rest)
}

proof fn lemma_ended_front(x: Seq<char>, ls: Seq<Seq<char>>)
    ensures
        ended_lines(seq![x] + ls, false) == x.push('\n') + ended_lines(ls, false),
    decreases ls.len(),
{
    reveal_strlit("\n");
    assert(line_end(false) =~= seq!['\n']);
    let all = seq![x] + ls;
    if ls.len() == 0 {
        reveal_with_fuel(ended_lines, 2);
        assert(all.drop_last() =~= Seq::<Seq<char>>::empty());
        assert(ended_lines(all, false) =~= x.push('\n') + ended_lines(ls, false));
    } else {
        lemma_ended_front(x, ls.drop_last());
        assert(all.drop_last() =~= seq![x] + ls.drop_last());
        assert(ended_lines(all, false) =~= x.push('\n') + ended_lines(ls, false));
    }
}

proof fn lemma_joined_front(x: Seq<char>, ls: Seq<Seq<char>>, final_end: bool)
    requires
        ls.len() > 0,
    ensures
        joined(seq![x] + ls, final_end, false) == x.push('\n') + joined(ls, final_end, false),
{
    let all = seq![x] + ls;
    lemma_ended_front(x, ls.drop_last());
    assert(all.drop_last() =~= seq![x] + ls.drop_last());
    assert(joined(all, final_end, false) =~= x.push('\n') + joined(ls, final_end, false));
}

proof fn lemma_joined_one(x: Seq<char>)
    ensures
        joined(seq![x], true, false) == x.push('\n'),
        joined(seq![x], false, false) == x,
{
    reveal_strlit("\n");
    assert(line_end(false) =~= seq!['\n']);
    assert(seq![x].drop_last() =~= Seq::<Seq<char>>::empty());
    assert(joined(seq![x], true, false) =~= x.push('\n'));
    assert(joined(seq![x], false, false) =~= x);
}

/// Writing the lines of a text gives the text.
proof fn lemma_rows_join(t: Seq<char>)
    requires
        t.len() > 0,
    ensures
        joined(rows(t), t.last() == '\n', false) == t,
        rows(t).len() > 0,
        t.last() != '\n' ==> rows(t).last().len() > 0,
        forall|i: int, j: int|
            0 <= i < rows(t).len() && 0 <= j < rows(t)[i].len() ==> (#[trigger] rows(t)[i][j])
                != '\n' && t.contains(rows(t)[i][j]),
    decreases t.len(),
{
    if t.contains('\n') {
        let (a, rest) = lemma_first_row(t);
        lemma_rows_line(a, rest);
        let all = rows(t);
        if rest.len() == 0 {
            assert(rows(rest) =~= Seq::<Seq<char>>::empty());
            assert(all =~= seq![a]);
            lemma_joined_one(a);
            assert(t =~= a.push('\n'));
        } else {
            lemma_rows_join(rest);
            lemma_joined_front(a, rows(rest), t.last() == '\n');
            assert(all.last() == rows(rest).last());
        }
        assert forall|i: int, j: int|
            0 <= i < rows(t).len() && 0 <= j < rows(t)[i].len() implies (#[trigger] rows(t)[i][j])
            != '\n' && t.contains(rows(t)[i][j]) by {
            let c = all[i][j];
            if i == 0 {
                assert(all[0] == a);
                assert(a.contains(c));
                assert(t[j] == c);
            } else {
                assert(all[i] == rows(rest)[i - 1]);
                assert(rows(rest)[i - 1][j] == c);
                let k = choose|k: int| 0 <= k < rest.len() && rest[k] == c;
                assert(t[a.len() + 1 + k] == c);
            }
        }
    } else {
        lemma_rows_bare(t);
        lemma_joined_one(t);
        assert(t.last() != '\n') by {
            assert(t.contains(t.last()));
        }
        assert forall|i: int, j: int|
            0 <= i < rows(t).len() && 0 <= j < rows(t)[i].len() implies (#[trigger] rows(t)[i][j])
            != '\n' && t.contains(rows(t)[i][j]) by {
            assert(t.contains(t[j]));
        }
    }
}

/// Whether no line holds the character.
pub open spec fn free_of(lines: Seq<Seq<char>>, c: char) -> bool {
    forall|i: int| 0 <= i < lines.len() ==> !(#[trigger] lines[i]).contains(c)
}

/// Reading what lines were written to gives the lines.
proof fn lemma_join_rows(ls: Seq<Seq<char>>, final_end: bool)
    requires
        ls.len() > 0,
        free_of(ls, '\n'),
        final_end || ls.last().len() > 0,
    ensures
        rows(joined(ls, final_end, false)) == ls,
        joined(ls, final_end, false).len() > 0,
        joined(ls, final_end, false).last() == '\n' <==> final_end,
    decreases ls.len(),
{
    let x = ls[0];
    let rest = ls.drop_first();
    assert(ls =~= seq![x] + rest);
    assert(!x.contains('\n'));
    lemma_joined_one(x);
    if rest.len() == 0 {
        assert(ls =~= seq![x]);
        if final_end {
            lemma_rows_line(x, Seq::empty());
            assert(x.push('\n') + Seq::<char>::empty() =~= x.push('\n'));
            assert(rows(Seq::<char>::empty()) =~= Seq::<Seq<char>>::empty());
            assert(rows(x.push('\n')) =~= ls);
        } else {
            lemma_rows_bare(x);
            assert(x.contains(x.last()));
        }
    } else {
        assert forall|i: int| 0 <= i < rest.len() implies !(#[trigger] rest[i]).contains('\n') by {
            assert(rest[i] == ls[i + 1]);
        }
        assert(rest.last() == ls.last());
        lemma_join_rows(rest, final_end);
        lemma_joined_front(x, rest, final_end);
        lemma_rows_line(x, joined(rest, final_end, false));
        assert(joined(ls, final_end, false).last() == joined(rest, final_end, false).last());
    }
}

proof fn lemma_images_free(lines: Seq<LineModel>, c: char)
    requires
        forall|i: int| 0 <= i < lines.len() ==> !(#[trigger] lines[i]).text().contains(c),
    ensures
        free_of(preimage_of(lines), c),
        free_of(postimage_of(lines), c),
    decreases lines.len(),
{
    if lines.len() > 0 {
        let front = lines.drop_last();
        assert forall|i: int| 0 <= i < front.len() implies !(
        #[trigger] front[i]).text().contains(c) by {
            assert(front[i] == lines[i]);
        }
        lemma_images_free(front, c);
        assert(!lines[lines.len() - 1].text().contains(c));
    }
}

pub proof fn lemma_images_add(a: Seq<LineModel>, b: Seq<LineModel>)
    ensures
        preimage_of(a + b) == preimage_of(a) + preimage_of(b),
        postimage_of(a + b) == postimage_of(a) + postimage_of(b),
    decreases b.len(),
{
    if b.len() == 0 {
        assert(a + b =~= a);
        assert(preimage_of(a + b) =~= preimage_of(a) + preimage_of(b));
        assert(postimage_of(a + b) =~= postimage_of(a) + postimage_of(b));
    } else {
        assert((a + b).drop_last() =~= a + b.drop_last());
        assert((a + b).last() == b.last());
        lemma_images_add(a, b.drop_last());
        assert(preimage_of(a + b) =~= preimage_of(a) + preimage_of(b));
        assert(postimage_of(a + b) =~= postimage_of(a) + postimage_of(b));
    }
}

pub proof fn lemma_context_images(a: Seq<LineModel>)
    requires
        forall|k: int| 0 <= k < a.len() ==> (#[trigger] a[k]) is Context,
    ensures
        preimage_of(a) == postimage_of(a),
        preimage_of(a).len() == a.len(),
    decreases a.len(),
{
    if a.len() > 0 {
        assert(a[a.len() - 1] is Context);
        lemma_context_images(a.drop_last());
    }
}

/// Whether the new side of a hunk ends without a newline.
pub open spec fn ends_bare(h: HunkModel) -> bool {
    h.no_newline_new || (h.no_newline_old && ends_in_context(h))
}

/// Whether a hunk tells the truth about the end of a file: where it reaches
/// the end, its marks say whether a newline ends the file, and a new side that
/// ends without one ends with a line that has characters; where it does not,
/// it has no mark that would take the newline of the file away.
pub open spec fn true_to_end(file: LinesModel, h: HunkModel) -> bool {
    if reaches_end(h, file.lines.len()) {
        &&& file.ends_with_nl <==> !ends_bare(reversed(h))
        &&& ends_bare(h) ==> postimage_of(h.lines).len() > 0 && bare(
            postimage_of(h.lines).last(),
        ).len() > 0
    } else {
        file.ends_with_nl ==> !h.no_newline_old && !h.no_newline_new
    }
}

/// How many lines a hunk adds, less those that it takes.
pub open spec fn growth(h: HunkModel) -> int {
    postimage_of(h.lines).len() - hunk_takes(h).len()
}

/// Whether the counts of a hunk are those of its lines.
pub open spec fn counts_fit(h: HunkModel) -> bool {
    h.old_lines == super::model::old_count(h.lines) && h.new_lines == super::model::new_count(
        h.lines,
    )
}

/// Whether hunks stand in their order without overlapping.
pub open spec fn in_order(hunks: Seq<HunkModel>) -> bool
    decreases hunks.len(),
{
    hunks.len() > 0 ==> {
        let h = hunks[0];
        &&& hunks.len() > 1 ==> hunk_position(h) + hunk_takes(h).len() <= hunk_position(hunks[1])
        &&& in_order(hunks.drop_first())
    }
}

/// How many lines of context a hunk starts with.
pub open spec fn lead(h: HunkModel) -> int {
    super::model::context_end(h.lines, 0)
}

/// How many lines of context a hunk ends with.
pub open spec fn trail(h: HunkModel) -> int {
    h.lines.len() - super::model::context_start(h.lines, h.lines.len() as int)
}

/// Whether a hunk stands behind another: the two may share context, as the
/// parts of a split hunk do, but nothing else.
pub open spec fn follows(next: HunkModel, h: HunkModel) -> bool {
    let shared = hunk_position(h) + hunk_takes(h).len() - hunk_position(next);
    shared <= 0 || (shared <= trail(h) && shared <= lead(next) && lead(h) < h.lines.len())
}

/// Whether hunks stand one behind the other, and each new side stands where
/// its old side does, moved by `shift` and by what the hunks before it add.
pub open spec fn lined_up(hunks: Seq<HunkModel>, shift: int) -> bool
    decreases hunks.len(),
{
    hunks.len() > 0 ==> {
        let h = hunks[0];
        &&& counts_fit(h)
        &&& hunk_position(reversed(h)) == hunk_position(h) + shift
        &&& hunks.len() > 1 ==> follows(hunks[1], h)
        &&& lined_up(hunks.drop_first(), shift + growth(h))
    }
}

/// Whether the texts of a hunk are lines, and end with a carriage return in a
/// CRLF file only.
pub open spec fn line_texts(h: HunkModel, crlf: bool) -> bool {
    forall|i: int|
        0 <= i < h.lines.len() ==> !(#[trigger] h.lines[i]).text().contains('\n') && (crlf || bare(
            h.lines[i].text(),
        ) == h.lines[i].text())
}

spec fn total_growth(hunks: Seq<HunkModel>) -> int
    decreases hunks.len(),
{
    if hunks.len() == 0 {
        0
    } else {
        growth(hunks[0]) + total_growth(hunks.drop_first())
    }
}

spec fn all_reversed(hunks: Seq<HunkModel>) -> Seq<HunkModel> {
    hunks.map_values(|h: HunkModel| reversed(h))
}

proof fn lemma_selected_reversed(hunks: Seq<HunkModel>)
    ensures
        selected_hunks(hunks, PatchApplyMode::ResetHead) == all_reversed(
            selected_hunks(hunks, PatchApplyMode::Stage),
        ),
    decreases hunks.len(),
{
    let there = selected_hunks(hunks, PatchApplyMode::Stage);
    if hunks.len() > 0 {
        lemma_selected_reversed(hunks.drop_last());
    }
    assert(selected_hunks(hunks, PatchApplyMode::ResetHead) =~= all_reversed(there));
}

proof fn lemma_mismatch_moved(
    have: Seq<Seq<char>>,
    start: int,
    other: Seq<Seq<char>>,
    place: int,
    want: Seq<Seq<char>>,
    i: int,
)
    requires
        0 <= i,
        forall|j: int|
            0 <= j < want.len() ==> bare(#[trigger] have[start + j]) == bare(other[place + j]),
    ensures
        first_mismatch(have, start, want, i) == first_mismatch(other, place, want, i),
    decreases want.len() - i,
{
    if i < want.len() {
        assert(bare(have[start + i]) == bare(other[place + i]));
        lemma_mismatch_moved(have, start, other, place, want, i + 1);
    }
}

/// Hunks that all stand behind `a` leave it alone, and do the same behind any
/// `b` in its place.
proof fn lemma_behind(
    a: Seq<Seq<char>>,
    b: Seq<Seq<char>>,
    z: Seq<Seq<char>>,
    hunks: Seq<HunkModel>,
    shift: int,
) -> (rest: Seq<Seq<char>>)
    requires
        in_order(hunks),
        hunks.len() > 0 ==> hunk_position(hunks[0]) + shift >= a.len(),
        apply_hunks(a + z, hunks, shift) is Ok,
    ensures
        apply_hunks(a + z, hunks, shift) == Ok::<Seq<Seq<char>>, Seq<char>>(a + rest),
        apply_hunks(b + z, hunks, shift + b.len() - a.len()) == Ok::<Seq<Seq<char>>, Seq<char>>(
            b + rest,
        ),
    decreases hunks.len(),
{
    if hunks.len() == 0 {
        z
    } else {
        let h = hunks[0];
        let x = a + z;
        let y = b + z;
        let start = hunk_position(h) + shift;
        let other = shift + b.len() - a.len();
        let place = hunk_position(h) + other;
        let want = hunk_takes(h);
        let post = postimage_of(h.lines);
        assert(apply_hunk(x, h, shift) is Ok);
        assert(start + want.len() <= x.len());
        assert forall|j: int| 0 <= j < want.len() implies #[trigger] x[start + j] == y[place + j] by {
            assert(x[start + j] == z[start + j - a.len()]);
            assert(y[place + j] == z[place + j - b.len()]);
        }
        lemma_mismatch_moved(x, start, y, place, want, 0);
        let z1 = replaced(z, start - a.len(), want.len() as int, post);
        assert(replaced(x, start, want.len() as int, post) =~= a + z1);
        assert(replaced(y, place, want.len() as int, post) =~= b + z1);
        assert(apply_hunk(x, h, shift) == Ok::<Seq<Seq<char>>, Seq<char>>(a + z1));
        assert(apply_hunk(y, h, other) == Ok::<Seq<Seq<char>>, Seq<char>>(b + z1));
        let tail = hunks.drop_first();
        assert(hunks.len() > 1 ==> tail[0] == hunks[1]);
        lemma_behind(a, b, z1, tail, shift + growth(h))
    }
}

/// Hunks behind the first apply to what it leaves where they apply to the
/// lines before it.
proof fn lemma_rest_applies(
    lines: Seq<Seq<char>>,
    hunks: Seq<HunkModel>,
    shift: int,
)
    requires
        hunks.len() > 0,
        in_order(hunks),
        apply_hunk(lines, hunks[0], shift) is Ok,
    ensures
        apply_hunks(lines, hunks, shift) is Ok <==> apply_hunks(
            lines,
            hunks.drop_first(),
            shift,
        ) is Ok,
{
    let h = hunks[0];
    let tail = hunks.drop_first();
    let start = hunk_position(h) + shift;
    let n = hunk_takes(h).len() as int;
    let post = postimage_of(h.lines);
    let next = replaced(lines, start, n, post);
    let a = lines.take(start) + post;
    let front = lines.take(start + n);
    let z = lines.skip(start + n);
    assert(next =~= a + z);
    assert(lines =~= front + z);
    assert(hunks.len() > 1 ==> tail[0] == hunks[1]);
    if apply_hunks(next, tail, shift + growth(h)) is Ok {
        lemma_behind(a, front, z, tail, shift + growth(h));
    }
    if apply_hunks(lines, tail, shift) is Ok {
        lemma_behind(front, a, z, tail, shift);
    }
}

/// Hunks that stand in their order apply together where each of them applies
/// to the lines before any of them: what the earlier ones add or take does not
/// keep the later ones from being found.
pub proof fn law_hunks_speak_of_the_same_lines(
    lines: Seq<Seq<char>>,
    hunks: Seq<HunkModel>,
    shift: int,
)
    requires
        in_order(hunks),
    ensures
        apply_hunks(lines, hunks, shift) is Ok <==> forall|i: int|
            0 <= i < hunks.len() ==> apply_hunk(lines, #[trigger] hunks[i], shift) is Ok,
    decreases hunks.len(),
{
    if hunks.len() > 0 {
        let tail = hunks.drop_first();
        law_hunks_speak_of_the_same_lines(lines, tail, shift);
        if apply_hunk(lines, hunks[0], shift) is Ok {
            lemma_rest_applies(lines, hunks, shift);
            if apply_hunks(lines, tail, shift) is Ok {
                assert forall|i: int| 0 <= i < hunks.len() implies apply_hunk(
                    lines,
                    #[trigger] hunks[i],
                    shift,
                ) is Ok by {
                    if i > 0 {
                        assert(tail[i - 1] == hunks[i]);
                    }
                }
            } else {
                let i = choose|i: int|
                    0 <= i < tail.len() && !(apply_hunk(lines, #[trigger] tail[i], shift) is Ok);
                assert(tail[i] == hunks[i + 1]);
            }
        }
    }
}

proof fn lemma_takes_reversed(h: HunkModel)
    requires
        counts_fit(h),
    ensures
        hunk_takes(h) == preimage_of(h.lines),
        hunk_takes(reversed(h)) == postimage_of(h.lines),
        postimage_of(reversed(h).lines) == preimage_of(h.lines),
{
    lemma_image_counts(h.lines);
    law_reverse_exchanges_sides(h.lines);
    if h.old_lines == 0 {
        assert(preimage_of(h.lines) =~= Seq::<Seq<char>>::empty());
    }
    if h.new_lines == 0 {
        assert(postimage_of(h.lines) =~= Seq::<Seq<char>>::empty());
    }
}

/// Where a hunk's old side ends.
spec fn hunk_end(h: HunkModel) -> int {
    hunk_position(h) + hunk_takes(h).len()
}

/// The two sides of a hunk start and end with the same context.
proof fn lemma_edges(h: HunkModel)
    ensures
        ({
            let pre = preimage_of(h.lines);
            let post = postimage_of(h.lines);
            &&& 0 <= lead(h) <= pre.len()
            &&& lead(h) <= post.len()
            &&& 0 <= trail(h) <= pre.len()
            &&& trail(h) <= post.len()
            &&& lead(h) < h.lines.len() ==> lead(h) + trail(h) <= post.len()
            &&& forall|i: int| 0 <= i < lead(h) ==> pre[i] == #[trigger] post[i]
            &&& forall|i: int|
                post.len() - trail(h) <= i < post.len() ==> #[trigger] post[i] == pre[i
                    - post.len() + pre.len()]
        }),
{
    let l = h.lines;
    let n = l.len() as int;
    let i = lead(h);
    let j = super::model::context_start(l, n);
    super::model::lemma_context_end(l, 0);
    super::model::lemma_context_start(l, n);
    lemma_context_images(l.take(i));
    lemma_context_images(l.skip(j));
    assert(l =~= l.take(i) + l.skip(i));
    assert(l =~= l.take(j) + l.skip(j));
    lemma_images_add(l.take(i), l.skip(i));
    lemma_images_add(l.take(j), l.skip(j));
    if i < n {
        lemma_edge_order(l);
        let m = l.subrange(i, j);
        assert(l.take(j) =~= l.take(i) + m);
        lemma_images_add(l.take(i), m);
    }
}

/// In lines with a change, the leading context ends before the trailing
/// context starts.
proof fn lemma_edge_order(l: Seq<LineModel>)
    requires
        super::model::context_end(l, 0) < l.len(),
    ensures
        super::model::context_end(l, 0) <= super::model::context_start(l, l.len() as int),
{
    let i = super::model::context_end(l, 0);
    super::model::lemma_context_end(l, 0);
    super::model::lemma_context_start(l, l.len() as int);
    lemma_lead_stops(l, 0);
    if super::model::context_start(l, l.len() as int) < i {
        assert(l[i] is Context);
    }
}

proof fn lemma_lead_stops(l: Seq<LineModel>, i: int)
    requires
        0 <= i <= l.len(),
    ensures
        super::model::context_end(l, i) < l.len() ==> !(l[super::model::context_end(l, i)] is Context),
    decreases l.len() - i,
{
    if i < l.len() && l[i] is Context {
        lemma_lead_stops(l, i + 1);
    }
}

/// Whether two lists of lines differ in carriage returns at line ends at most.
spec fn alike(x: Seq<Seq<char>>, y: Seq<Seq<char>>) -> bool {
    x.len() == y.len() && forall|i: int| 0 <= i < x.len() ==> bare(#[trigger] x[i]) == bare(y[i])
}

/// A hunk does the same to lines that are alike.
proof fn lemma_alike_hunk(x: Seq<Seq<char>>, y: Seq<Seq<char>>, h: HunkModel, shift: int)
    requires
        alike(x, y),
        apply_hunk(x, h, shift) is Ok,
    ensures
        apply_hunk(y, h, shift) is Ok,
        alike(apply_hunk(x, h, shift)->Ok_0, apply_hunk(y, h, shift)->Ok_0),
{
    let start = hunk_position(h) + shift;
    let n = hunk_takes(h).len() as int;
    let post = postimage_of(h.lines);
    lemma_mismatch_moved(x, start, y, start, hunk_takes(h), 0);
    let u = replaced(x, start, n, post);
    let v = replaced(y, start, n, post);
    assert forall|i: int| 0 <= i < u.len() implies bare(#[trigger] u[i]) == bare(v[i]) by {
        if i < start {
            assert(u[i] == x[i] && v[i] == y[i]);
        } else if i < start + post.len() {
            assert(u[i] == v[i]);
        } else {
            assert(u[i] == x[i - post.len() + n] && v[i] == y[i - post.len() + n]);
        }
    }
}

proof fn lemma_alike(x: Seq<Seq<char>>, y: Seq<Seq<char>>, hunks: Seq<HunkModel>, shift: int)
    requires
        alike(x, y),
        apply_hunks(x, hunks, shift) is Ok,
    ensures
        apply_hunks(y, hunks, shift) is Ok,
        alike(apply_hunks(x, hunks, shift)->Ok_0, apply_hunks(y, hunks, shift)->Ok_0),
    decreases hunks.len(),
{
    if hunks.len() > 0 {
        let h = hunks[0];
        assert(apply_hunk(x, h, shift) is Ok);
        lemma_alike_hunk(x, y, h, shift);
        lemma_alike(
            apply_hunk(x, h, shift)->Ok_0,
            apply_hunk(y, h, shift)->Ok_0,
            hunks.drop_first(),
            shift + growth(h),
        );
    }
}

/// Where a hunk applies, its old side is there.
proof fn lemma_sides_agree(lines: Seq<Seq<char>>, h: HunkModel, shift: int)
    requires
        apply_hunk(lines, h, shift) is Ok,
    ensures
        forall|k: int|
            0 <= k < hunk_takes(h).len() ==> bare(#[trigger] hunk_takes(h)[k]) == bare(
                lines[hunk_position(h) + shift + k],
            ),
{
    let start = hunk_position(h) + shift;
    let pre = hunk_takes(h);
    lemma_first_mismatch(lines, start, pre, 0);
    assert forall|k: int| 0 <= k < pre.len() implies bare(#[trigger] pre[k]) == bare(
        lines[start + k],
    ) by {
        assert(bare(lines[start + k]) == bare(pre[k]));
    }
}

/// Hunks whose changes all stand behind `a` leave it alone, and do the same
/// behind any `b` in its place that ends with the context they share with it.
proof fn lemma_behind_shared(
    a: Seq<Seq<char>>,
    b: Seq<Seq<char>>,
    z: Seq<Seq<char>>,
    hunks: Seq<HunkModel>,
    shift: int,
    d: int,
) -> (r: (Seq<Seq<char>>, Seq<Seq<char>>, Seq<Seq<char>>))
    requires
        lined_up(hunks, d),
        hunks.len() > 0 ==> shares_end(a, b, hunks[0], shift),
        apply_hunks(a + z, hunks, shift) is Ok,
    ensures
        alike(r.0, a),
        alike(r.1, b),
        apply_hunks(a + z, hunks, shift) == Ok::<Seq<Seq<char>>, Seq<char>>(r.0 + r.2),
        apply_hunks(b + z, hunks, shift + b.len() - a.len()) == Ok::<Seq<Seq<char>>, Seq<char>>(
            r.1 + r.2,
        ),
    decreases hunks.len(),
{
    if hunks.len() == 0 {
        (a, b, z)
    } else {
        let h = hunks[0];
        let (a1, b1, z1) = lemma_step_shared(a, b, z, h, shift);
        let tail = hunks.drop_first();
        lemma_edges(h);
        lemma_takes_reversed(h);
        assert(hunks.len() > 1 ==> tail[0] == hunks[1]);
        if tail.len() > 0 {
            lemma_edges(tail[0]);
        }
        lemma_behind_shared(a1, b1, z1, tail, shift + growth(h), d + growth(h))
    }
}

/// Whether a hunk reaches into the end of `a` with its leading context at most,
/// and finds the same at the end of `b`.
spec fn shares_end(a: Seq<Seq<char>>, b: Seq<Seq<char>>, h: HunkModel, shift: int) -> bool {
    let m = a.len() - hunk_position(h) - shift;
    &&& m <= lead(h)
    &&& m <= b.len()
    &&& forall|j: int|
        a.len() - m <= j < a.len() ==> bare(#[trigger] a[j]) == bare(b[j - a.len() + b.len()])
}

proof fn lemma_step_shared(
    a: Seq<Seq<char>>,
    b: Seq<Seq<char>>,
    z: Seq<Seq<char>>,
    h: HunkModel,
    shift: int,
) -> (r: (Seq<Seq<char>>, Seq<Seq<char>>, Seq<Seq<char>>))
    requires
        counts_fit(h),
        shares_end(a, b, h, shift),
        apply_hunk(a + z, h, shift) is Ok,
    ensures
        alike(r.0, a),
        alike(r.1, b),
        apply_hunk(a + z, h, shift) == Ok::<Seq<Seq<char>>, Seq<char>>(r.0 + r.2),
        apply_hunk(b + z, h, shift + b.len() - a.len()) == Ok::<Seq<Seq<char>>, Seq<char>>(
            r.1 + r.2,
        ),
{
    let x = a + z;
    let y = b + z;
    let start = hunk_position(h) + shift;
    let place = start + b.len() - a.len();
    let want = hunk_takes(h);
    let n = want.len() as int;
    let post = postimage_of(h.lines);
    lemma_takes_reversed(h);
    lemma_edges(h);
    lemma_sides_agree(x, h, shift);
    assert forall|j: int| 0 <= j < want.len() implies bare(#[trigger] x[start + j]) == bare(
        y[place + j],
    ) by {
        if start + j < a.len() {
            assert(x[start + j] == a[start + j]);
            assert(y[place + j] == b[place + j]);
        } else {
            assert(x[start + j] == z[start + j - a.len()]);
            assert(y[place + j] == z[place + j - b.len()]);
        }
    }
    lemma_mismatch_moved(x, start, y, place, want, 0);
    let there = replaced(x, start, n, post);
    let other = replaced(y, place, n, post);
    let a1 = there.take(a.len() as int);
    let b1 = other.take(b.len() as int);
    let z1 = there.skip(a.len() as int);
    assert(there =~= a1 + z1);
    assert forall|i: int| 0 <= i < a1.len() implies bare(#[trigger] a1[i]) == bare(a[i]) by {
        if i >= start {
            assert(there[i] == post[i - start]);
            assert(post[i - start] == want[i - start]);
            assert(x[start + (i - start)] == a[i]);
        } else {
            assert(there[i] == x[i]);
        }
    }
    assert forall|i: int| 0 <= i < b1.len() implies bare(#[trigger] b1[i]) == bare(b[i]) by {
        if i >= place {
            let k = i - place;
            assert(other[i] == post[k]);
            assert(post[k] == want[k]);
            assert(x[start + k] == a[start + k]);
        } else {
            assert(other[i] == y[i]);
        }
    }
    lemma_tail_shared(a, b, z, start, n, post);
    assert(other =~= b1 + z1);
    (a1, b1, z1)
}

/// Behind `a` and `b` the same lines come out.
proof fn lemma_tail_shared(
    a: Seq<Seq<char>>,
    b: Seq<Seq<char>>,
    z: Seq<Seq<char>>,
    start: int,
    n: int,
    post: Seq<Seq<char>>,
)
    requires
        0 <= n,
        0 <= start,
        0 <= start + b.len() - a.len(),
        start + n <= a.len() + z.len(),
        a.len() <= start + n,
        a.len() <= start + post.len(),
    ensures
        replaced(b + z, start + b.len() - a.len(), n, post).skip(b.len() as int) == replaced(
            a + z,
            start,
            n,
            post,
        ).skip(a.len() as int),
{
    let there = replaced(a + z, start, n, post);
    let other = replaced(b + z, start + b.len() - a.len(), n, post);
    assert(other.skip(b.len() as int) =~= there.skip(a.len() as int));
}

/// One hunk undone among lines in which what is behind it may have changed.
proof fn lemma_undo_one(
    lines: Seq<Seq<char>>,
    h: HunkModel,
    shift: int,
    d: int,
    there: Seq<Seq<char>>,
    rest: Seq<Seq<char>>,
)
    requires
        counts_fit(h),
        hunk_position(reversed(h)) == hunk_position(h) + d,
        apply_hunk(lines, h, shift) is Ok,
        alike(there, lines.take(hunk_position(h) + shift) + postimage_of(h.lines)),
    ensures
        ({
            let front = lines.take(hunk_position(h) + shift + hunk_takes(h).len());
            let r = apply_hunk(there + rest, reversed(h), shift - d);
            r is Ok && alike(r->Ok_0, front + rest)
        }),
{
    lemma_takes_reversed(h);
    let start = hunk_position(h) + shift;
    let pre = preimage_of(h.lines);
    let post = postimage_of(h.lines);
    let front = lines.take(start + pre.len());
    let before = lines.take(start);
    let all = there + rest;
    lemma_sides_agree(lines, h, shift);
    lemma_first_mismatch(all, start, post, 0);
    let k = first_mismatch(all, start, post, 0);
    if k < post.len() {
        assert(all[start + k] == there[start + k]);
        assert((before + post)[start + k] == post[k]);
    }
    let r = replaced(all, start, post.len() as int, pre);
    assert forall|i: int| 0 <= i < r.len() implies bare(#[trigger] r[i]) == bare(
        (front + rest)[i],
    ) by {
        if i < start {
            assert(r[i] == there[i]);
            assert((before + post)[i] == lines[i]);
        } else if i < start + pre.len() {
            assert(r[i] == pre[i - start]);
            assert(front[i] == lines[start + (i - start)]);
        } else {
            assert(r[i] == rest[i - start - pre.len()]);
        }
    }
}

/// The first of several hunks undone: what is left is what the others do
/// without it.
proof fn lemma_undo_first(lines: Seq<Seq<char>>, hunks: Seq<HunkModel>, shift: int, d: int)
    requires
        hunks.len() > 0,
        lined_up(hunks, d),
        apply_hunks(lines, hunks, shift) is Ok,
    ensures
        ({
            let r = apply_hunk(
                apply_hunks(lines, hunks, shift)->Ok_0,
                reversed(hunks[0]),
                shift - d,
            );
            let others = apply_hunks(lines, hunks.drop_first(), shift);
            r is Ok && others is Ok && alike(others->Ok_0, r->Ok_0)
        }),
{
    let h = hunks[0];
    let tail = hunks.drop_first();
    let start = hunk_position(h) + shift;
    let post = postimage_of(h.lines);
    let n = hunk_takes(h).len() as int;
    let next = replaced(lines, start, n, post);
    assert(apply_hunk(lines, h, shift) == Ok::<Seq<Seq<char>>, Seq<char>>(next));
    let a = lines.take(start) + post;
    let front = lines.take(start + n);
    let z = lines.skip(start + n);
    assert(next =~= a + z);
    assert(lines =~= front + z);
    assert(hunks.len() > 1 ==> tail[0] == hunks[1]);
    if tail.len() > 0 {
        lemma_shares_end(lines, h, tail[0], shift);
    }
    let (a1, front1, rest) = lemma_behind_shared(
        a,
        front,
        z,
        tail,
        shift + growth(h),
        d + growth(h),
    );
    lemma_undo_one(lines, h, shift, d, a1, rest);
    let r = apply_hunk(a1 + rest, reversed(h), shift - d)->Ok_0;
    assert forall|i: int| 0 <= i < (front1 + rest).len() implies bare(
        #[trigger] (front1 + rest)[i],
    ) == bare(r[i]) by {
        assert(bare(r[i]) == bare((front + rest)[i]));
        if i < front.len() {
            assert(bare(front1[i]) == bare(front[i]));
        }
    }
}

/// A hunk that follows another shares context with it at most.
proof fn lemma_shares_end(lines: Seq<Seq<char>>, h: HunkModel, next: HunkModel, shift: int)
    requires
        counts_fit(h),
        follows(next, h),
        apply_hunk(lines, h, shift) is Ok,
    ensures
        shares_end(
            lines.take(hunk_position(h) + shift) + postimage_of(h.lines),
            lines.take(hunk_position(h) + shift + hunk_takes(h).len()),
            next,
            shift + growth(h),
        ),
{
    let start = hunk_position(h) + shift;
    let post = postimage_of(h.lines);
    let n = hunk_takes(h).len() as int;
    let a = lines.take(start) + post;
    let front = lines.take(start + n);
    lemma_sides_agree(lines, h, shift);
    lemma_edges(h);
    lemma_edges(next);
    lemma_takes_reversed(h);
    let m = a.len() - hunk_position(next) - shift - growth(h);
    assert forall|j: int| a.len() - m <= j < a.len() implies bare(#[trigger] a[j]) == bare(
        front[j - a.len() + front.len()],
    ) by {
        let k = j - start - post.len() + n;
        assert(a[j] == post[j - start]);
        assert(post[j - start] == hunk_takes(h)[k]);
        assert(bare(hunk_takes(h)[k]) == bare(lines[start + k]));
    }
}

/// Hunks turned round undo what the hunks did, but for carriage returns at line
/// ends, which matching leaves aside.
proof fn lemma_undo(lines: Seq<Seq<char>>, hunks: Seq<HunkModel>, shift: int, d: int)
    requires
        lined_up(hunks, d),
        apply_hunks(lines, hunks, shift) is Ok,
    ensures
        ({
            let back = apply_hunks(
                apply_hunks(lines, hunks, shift)->Ok_0,
                all_reversed(hunks),
                shift - d,
            );
            back is Ok && alike(back->Ok_0, lines)
        }),
    decreases hunks.len(),
{
    let back = all_reversed(hunks);
    if hunks.len() > 0 {
        let h = hunks[0];
        let tail = hunks.drop_first();
        let g = growth(h);
        let there = apply_hunks(lines, hunks, shift)->Ok_0;
        lemma_undo_first(lines, hunks, shift, d);
        let left = apply_hunk(there, reversed(h), shift - d)->Ok_0;
        lemma_undo(lines, tail, shift, d + g);
        lemma_alike(
            apply_hunks(lines, tail, shift)->Ok_0,
            left,
            all_reversed(tail),
            shift - d - g,
        );
        lemma_takes_reversed(h);
        assert(back[0] == reversed(h));
        assert(back.drop_first() =~= all_reversed(tail));
        assert(growth(reversed(h)) == -g);
        let end = apply_hunks(left, all_reversed(tail), shift - d - g)->Ok_0;
        let same = apply_hunks(
            apply_hunks(lines, tail, shift)->Ok_0,
            all_reversed(tail),
            shift - d - g,
        )->Ok_0;
        assert forall|i: int| 0 <= i < end.len() implies bare(#[trigger] end[i]) == bare(
            lines[i],
        ) by {
            assert(bare(same[i]) == bare(end[i]));
        }
    }
}

/// What the last of several hunks meets, and where it stands.
proof fn lemma_last_hunk(
    lines: Seq<Seq<char>>,
    hunks: Seq<HunkModel>,
    shift: int,
    d: int,
) -> (met: Seq<Seq<char>>)
    requires
        hunks.len() > 0,
        lined_up(hunks, d),
        apply_hunks(lines, hunks, shift) is Ok,
    ensures
        ({
            let h = hunks.last();
            let g = total_growth(hunks) - growth(h);
            &&& counts_fit(h)
            &&& apply_hunk(met, h, shift + g) == apply_hunks(lines, hunks, shift)
            &&& met.len() == lines.len() + g
            &&& hunk_position(reversed(h)) == hunk_position(h) + d + g
            &&& hunk_end(hunks[0]) <= hunk_end(h)
            &&& hunk_end(h) + shift < lines.len() ==> met.last() == lines.last()
        }),
    decreases hunks.len(),
{
    let h = hunks[0];
    let tail = hunks.drop_first();
    assert(apply_hunk(lines, h, shift) is Ok);
    let next = apply_hunk(lines, h, shift)->Ok_0;
    if tail.len() == 0 {
        assert(hunks.last() == h);
        assert(apply_hunks(next, tail, shift + growth(h)) == Ok::<Seq<Seq<char>>, Seq<char>>(next));
        assert(total_growth(tail) == 0);
        lines
    } else {
        assert(tail[0] == hunks[1]);
        assert(tail.last() == hunks.last());
        let met = lemma_last_hunk(next, tail, shift + growth(h), d + growth(h));
        lemma_hunk_growth(lines, h, shift);
        let last = hunks.last();
        lemma_edges(tail[0]);
        assert(counts_fit(tail[0])) by {
            reveal_with_fuel(lined_up, 2);
        }
        lemma_takes_reversed(tail[0]);
        assert(hunk_end(h) <= hunk_end(last));
        if hunk_end(last) + shift < lines.len() {
            assert(next.last() == lines.last());
        }
        met
    }
}

proof fn lemma_applied_free(lines: Seq<Seq<char>>, hunks: Seq<HunkModel>, shift: int, c: char)
    requires
        free_of(lines, c),
        forall|i: int|
            0 <= i < hunks.len() ==> free_of(#[trigger] postimage_of(hunks[i].lines), c),
        apply_hunks(lines, hunks, shift) is Ok,
    ensures
        free_of(apply_hunks(lines, hunks, shift)->Ok_0, c),
    decreases hunks.len(),
{
    if hunks.len() > 0 {
        let h = hunks[0];
        let tail = hunks.drop_first();
        let start = hunk_position(h) + shift;
        let n = hunk_takes(h).len() as int;
        let post = postimage_of(h.lines);
        let next = replaced(lines, start, n, post);
        assert(free_of(postimage_of(hunks[0].lines), c));
        assert(apply_hunk(lines, h, shift) == Ok::<Seq<Seq<char>>, Seq<char>>(next));
        assert forall|i: int| 0 <= i < next.len() implies !(#[trigger] next[i]).contains(c) by {
            if i < start {
                assert(next[i] == lines[i]);
            } else if i < start + post.len() {
                assert(next[i] == post[i - start]);
            } else {
                assert(next[i] == lines[i - post.len() + n]);
            }
        }
        assert forall|i: int| 0 <= i < tail.len() implies free_of(
            #[trigger] postimage_of(tail[i].lines),
            c,
        ) by {
            assert(tail[i] == hunks[i + 1]);
            assert(free_of(postimage_of(hunks[i + 1].lines), c));
        }
        lemma_applied_free(next, tail, shift + growth(h), c);
    }
}

/// The lines that hunks leave, and how the last of them ends.
proof fn lemma_end_after(before: LinesModel, hunks: Seq<HunkModel>)
    requires
        hunks.len() > 0,
        lined_up(hunks, 0),
        true_to_end(before, hunks.last()),
        before.ends_with_nl || (before.lines.len() > 0 && bare(before.lines.last()).len() > 0),
        apply_hunks(before.lines, hunks, 0) is Ok,
    ensures
        ({
            let there = apply_hunks(before.lines, hunks, 0)->Ok_0;
            let final_end = newline_after(before, hunks);
            &&& final_end || (there.len() > 0 && bare(there.last()).len() > 0)
            &&& newline_after(
                LinesModel { lines: there, ends_with_nl: final_end, crlf: false },
                all_reversed(hunks),
            ) == before.ends_with_nl
        }),
{
    let h = hunks.last();
    let met = lemma_last_hunk(before.lines, hunks, 0, 0);
    let g = total_growth(hunks) - growth(h);
    let there = apply_hunk(met, h, g)->Ok_0;
    let post = postimage_of(h.lines);
    let at = hunk_position(h) + g;
    lemma_takes_reversed(h);
    lemma_hunk_growth(met, h, g);
    assert(all_reversed(hunks).last() == reversed(h));
    assert(there == replaced(met, at, hunk_takes(h).len() as int, post));
    if reaches_end(h, before.lines.len()) {
        if post.len() > 0 {
            assert(there.last() == post.last());
        }
    } else {
        assert(at + hunk_takes(h).len() < met.len());
        assert(there.last() == met.last());
    }
}

pub proof fn lemma_bare(l: Seq<char>)
    ensures
        bare(bare(l)) == bare(l),
        bare(l.push('\r')) == bare(l),
        bare(l).len() > 0 ==> bare(l).last() != '\r',
        forall|c: char| bare(l).contains(c) ==> #[trigger] l.contains(c),
    decreases l.len(),
{
    assert(l.push('\r').drop_last() =~= l);
    if l.len() > 0 && l.last() == '\r' {
        let front = l.drop_last();
        lemma_bare(front);
        assert forall|c: char| bare(l).contains(c) implies #[trigger] l.contains(c) by {
            assert(front.contains(c));
            let i = choose|i: int| 0 <= i < front.len() && front[i] == c;
            assert(l[i] == c);
        }
    }
}

/// Whether no line ends with a carriage return.
pub open spec fn trimmed(lines: Seq<Seq<char>>) -> bool {
    forall|i: int| 0 <= i < lines.len() ==> bare(#[trigger] lines[i]) == lines[i]
}

/// A line as it stands in a blob with even line ends, without its newline.
pub open spec fn even_line(l: Seq<char>, ended: bool, crlf: bool) -> Seq<char> {
    if crlf && ended {
        bare(l).push('\r')
    } else {
        bare(l)
    }
}

/// Whether the lines of a file end evenly: all with one carriage return before
/// the newline, or none with any.
pub open spec fn ends_evenly(file: LinesModel) -> bool {
    forall|i: int|
        0 <= i < file.lines.len() ==> #[trigger] file.lines[i] == even_line(
            file.lines[i],
            i < file.lines.len() - 1 || file.ends_with_nl,
            file.crlf,
        )
}

/// The lines as they stand in a blob with even line ends.
pub open spec fn evened(ls: Seq<Seq<char>>, final_end: bool, crlf: bool) -> Seq<Seq<char>> {
    Seq::new(ls.len(), |i: int| even_line(ls[i], i < ls.len() - 1 || final_end, crlf))
}

/// Lines are read back alike.
proof fn lemma_evened_alike(ls: Seq<Seq<char>>, final_end: bool, crlf: bool)
    ensures
        alike(ls, evened(ls, final_end, crlf)),
{
    assert forall|i: int| 0 <= i < ls.len() implies bare(#[trigger] ls[i]) == bare(
        evened(ls, final_end, crlf)[i],
    ) by {
        lemma_bare(ls[i]);
        lemma_bare(bare(ls[i]));
    }
}

proof fn lemma_ended_evened(ls: Seq<Seq<char>>, crlf: bool)
    requires
        !crlf ==> trimmed(ls),
    ensures
        ended_lines(ls, crlf) == ended_lines(evened(ls, true, crlf), false),
    decreases ls.len(),
{
    reveal_strlit("\n");
    reveal_strlit("\r\n");
    if ls.len() > 0 {
        let front = ls.drop_last();
        let e = evened(ls, true, crlf);
        if !crlf {
            assert forall|i: int| 0 <= i < front.len() implies bare(#[trigger] front[i])
                == front[i] by {
                assert(front[i] == ls[i]);
            }
            assert(bare(ls[ls.len() - 1]) == ls.last());
        }
        lemma_ended_evened(front, crlf);
        assert(e.drop_last() =~= evened(front, true, crlf));
        assert(line_body(ls.last(), crlf) + line_end(crlf) =~= e.last() + line_end(false));
        assert(ended_lines(ls, crlf) =~= ended_lines(e, false));
    }
}

/// Writing lines writes them with even ends.
proof fn lemma_joined_evened(ls: Seq<Seq<char>>, final_end: bool, crlf: bool)
    requires
        !crlf ==> trimmed(ls),
    ensures
        joined(ls, final_end, crlf) == joined(evened(ls, final_end, crlf), final_end, false),
{
    reveal_strlit("\n");
    reveal_strlit("\r\n");
    if ls.len() > 0 {
        let front = ls.drop_last();
        let e = evened(ls, final_end, crlf);
        if !crlf {
            assert forall|i: int| 0 <= i < front.len() implies bare(#[trigger] front[i])
                == front[i] by {
                assert(front[i] == ls[i]);
            }
            assert(bare(ls[ls.len() - 1]) == ls.last());
        }
        lemma_ended_evened(front, crlf);
        assert(e.drop_last() =~= evened(front, true, crlf));
        if final_end {
            assert(line_body(ls.last(), crlf) + line_end(crlf) =~= e.last() + line_end(false));
        } else {
            assert(line_body(ls.last(), crlf) == e.last());
        }
        assert(joined(ls, final_end, crlf) =~= joined(e, final_end, false));
    }
}

/// Lines that are alike are written alike where the line ends bring the
/// carriage returns.
proof fn lemma_joined_alike(x: Seq<Seq<char>>, y: Seq<Seq<char>>, final_end: bool)
    requires
        alike(x, y),
    ensures
        joined(x, final_end, true) == joined(y, final_end, true),
{
    lemma_joined_evened(x, final_end, true);
    lemma_joined_evened(y, final_end, true);
    assert(evened(x, final_end, true) =~= evened(y, final_end, true));
}

/// Lines without carriage returns at their ends are written without any before
/// a newline.
proof fn lemma_joined_without(ls: Seq<Seq<char>>, final_end: bool)
    requires
        free_of(ls, '\n'),
        trimmed(ls),
    ensures
        !crlf_text(joined(ls, final_end, false)),
    decreases ls.len(),
{
    if ls.len() > 0 {
        let x = ls[0];
        let rest = ls.drop_first();
        assert(ls =~= seq![x] + rest);
        assert(!x.contains('\n'));
        assert(bare(x) == x);
        lemma_bare(x);
        lemma_joined_one(x);
        let all = joined(ls, final_end, false);
        let after = joined(rest, final_end, false);
        if rest.len() == 0 {
            assert(ls =~= seq![x]);
        } else {
            assert forall|i: int| 0 <= i < rest.len() implies !(#[trigger] rest[i]).contains('\n')
                && bare(rest[i]) == rest[i] by {
                assert(rest[i] == ls[i + 1]);
            }
            lemma_joined_without(rest, final_end);
            lemma_joined_front(x, rest, final_end);
        }
        if crlf_text(all) {
            let i = choose|i: int|
                0 <= i < all.len() - 1 && #[trigger] all[i] == '\r' && all[i + 1] == '\n';
            if i + 1 < x.len() {
                assert(x[i + 1] == '\n');
            } else if i + 1 == x.len() {
                assert(x.last() == '\r');
            } else if i > x.len() {
                let k = i - x.len() - 1;
                assert(after[k] == '\r' && after[k + 1] == '\n');
            }
        }
    }
}

/// A blob of UTF-8 text with even line ends is what its lines say.
proof fn lemma_even_blob(b: Seq<u8>)
    requires
        vstd::utf8::valid_utf8(b),
        ends_evenly(file_lines(b)),
    ensures
        ({
            let file = file_lines(b);
            &&& free_of(file.lines, '\n')
            &&& !file.crlf ==> trimmed(file.lines)
            &&& file.ends_with_nl || (file.lines.len() > 0 && bare(file.lines.last()).len() > 0)
            &&& vstd::utf8::encode_utf8(joined(file.lines, file.ends_with_nl, file.crlf)) == b
        }),
{
    let file = file_lines(b);
    if b.len() == 0 {
        assert(b =~= Seq::<u8>::empty());
    } else {
        let t = vstd::utf8::decode_utf8(b);
        vstd::utf8::decode_utf8_encode_utf8(b);
        assert(t.len() > 0);
        lemma_rows_join(t);
        assert(file.lines == rows(t));
        assert forall|i: int| 0 <= i < file.lines.len() implies !(#[trigger] file.lines[i]).contains(
            '\n',
        ) && (!file.crlf ==> bare(file.lines[i]) == file.lines[i]) by {
            let l = rows(t)[i];
            if l.contains('\n') {
                let j = choose|j: int| 0 <= j < l.len() && l[j] == '\n';
                assert(rows(t)[i][j] == '\n');
            }
        }
        assert(evened(file.lines, file.ends_with_nl, file.crlf) =~= file.lines);
        lemma_joined_evened(file.lines, file.ends_with_nl, file.crlf);
        if !file.ends_with_nl {
            assert(file.lines[file.lines.len() - 1] == bare(file.lines.last()));
        }
    }
}

/// Lines that were written as a blob are its lines, with even ends.
pub proof fn lemma_written_blob(ls: Seq<Seq<char>>, final_end: bool, crlf: bool)
    requires
        free_of(ls, '\n'),
        !crlf ==> trimmed(ls),
        final_end || (ls.len() > 0 && bare(ls.last()).len() > 0),
    ensures
        ({
            let r = file_lines(vstd::utf8::encode_utf8(joined(ls, final_end, crlf)));
            &&& r.lines == evened(ls, final_end, crlf)
            &&& r.ends_with_nl == final_end
            &&& !crlf ==> !r.crlf
        }),
{
    let t = joined(ls, final_end, crlf);
    let b = vstd::utf8::encode_utf8(t);
    let e = evened(ls, final_end, crlf);
    if ls.len() == 0 {
        assert(b =~= Seq::<u8>::empty());
        assert(e =~= Seq::<Seq<char>>::empty());
    } else {
        vstd::utf8::encode_utf8_valid_utf8(t);
        vstd::utf8::encode_utf8_decode_utf8(t);
        lemma_joined_evened(ls, final_end, crlf);
        assert forall|i: int| 0 <= i < e.len() implies !(#[trigger] e[i]).contains('\n') by {
            assert(!ls[i].contains('\n'));
            lemma_bare(ls[i]);
            if e[i].contains('\n') {
                let j = choose|j: int| 0 <= j < e[i].len() && e[i][j] == '\n';
                assert(bare(ls[i])[j] == '\n');
            }
        }
        lemma_join_rows(e, final_end);
        if b.len() == 0 {
            assert(vstd::utf8::decode_utf8(b) =~= Seq::<char>::empty());
        }
        if !crlf {
            assert(e =~= ls);
            lemma_joined_without(ls, final_end);
            if has_crlf(b) {
                lemma_crlf_bytes(t);
            }
        }
        assert(file_lines(b).lines == rows(t));
    }
}

proof fn lemma_images_trimmed(lines: Seq<LineModel>)
    requires
        forall|i: int|
            0 <= i < lines.len() ==> bare((#[trigger] lines[i]).text()) == lines[i].text(),
    ensures
        trimmed(preimage_of(lines)),
        trimmed(postimage_of(lines)),
    decreases lines.len(),
{
    if lines.len() > 0 {
        let front = lines.drop_last();
        assert forall|i: int| 0 <= i < front.len() implies bare((#[trigger] front[i]).text())
            == front[i].text() by {
            assert(front[i] == lines[i]);
        }
        lemma_images_trimmed(front);
        assert(bare(lines[lines.len() - 1].text()) == lines.last().text());
    }
}

proof fn lemma_applied_trimmed(lines: Seq<Seq<char>>, hunks: Seq<HunkModel>, shift: int)
    requires
        trimmed(lines),
        forall|i: int|
            0 <= i < hunks.len() ==> trimmed(#[trigger] postimage_of(hunks[i].lines)),
        apply_hunks(lines, hunks, shift) is Ok,
    ensures
        trimmed(apply_hunks(lines, hunks, shift)->Ok_0),
    decreases hunks.len(),
{
    if hunks.len() > 0 {
        let h = hunks[0];
        let tail = hunks.drop_first();
        let start = hunk_position(h) + shift;
        let n = hunk_takes(h).len() as int;
        let post = postimage_of(h.lines);
        let next = replaced(lines, start, n, post);
        assert(trimmed(postimage_of(hunks[0].lines)));
        assert(apply_hunk(lines, h, shift) == Ok::<Seq<Seq<char>>, Seq<char>>(next));
        assert forall|i: int| 0 <= i < next.len() implies bare(#[trigger] next[i]) == next[i] by {
            if i < start {
                assert(next[i] == lines[i]);
            } else if i < start + post.len() {
                assert(next[i] == post[i - start]);
            } else {
                assert(next[i] == lines[i - post.len() + n]);
            }
        }
        assert forall|i: int| 0 <= i < tail.len() implies trimmed(
            #[trigger] postimage_of(tail[i].lines),
        ) by {
            assert(tail[i] == hunks[i + 1]);
            assert(trimmed(postimage_of(hunks[i + 1].lines)));
        }
        lemma_applied_trimmed(next, tail, shift + growth(h));
    }
}

/// What several hunks leave, and what they leave turned round, in a file
/// without carriage returns at line ends.
proof fn lemma_both_trimmed(lines: Seq<Seq<char>>, hunks: Seq<HunkModel>)
    requires
        trimmed(lines),
        lined_up(hunks, 0),
        forall|i: int| 0 <= i < hunks.len() ==> line_texts(#[trigger] hunks[i], false),
        apply_hunks(lines, hunks, 0) is Ok,
        apply_hunks(apply_hunks(lines, hunks, 0)->Ok_0, all_reversed(hunks), 0) is Ok,
    ensures
        trimmed(apply_hunks(lines, hunks, 0)->Ok_0),
        trimmed(apply_hunks(apply_hunks(lines, hunks, 0)->Ok_0, all_reversed(hunks), 0)->Ok_0),
{
    let back = all_reversed(hunks);
    assert forall|i: int| 0 <= i < hunks.len() implies trimmed(
        #[trigger] postimage_of(hunks[i].lines),
    ) by {
        assert(line_texts(hunks[i], false));
        lemma_images_trimmed(hunks[i].lines);
    }
    assert forall|i: int| 0 <= i < back.len() implies trimmed(
        #[trigger] postimage_of(back[i].lines),
    ) by {
        assert(line_texts(hunks[i], false));
        lemma_images_trimmed(hunks[i].lines);
        law_reverse_exchanges_sides(hunks[i].lines);
        assert(back[i] == reversed(hunks[i]));
    }
    lemma_applied_trimmed(lines, hunks, 0);
    lemma_applied_trimmed(apply_hunks(lines, hunks, 0)->Ok_0, back, 0);
}

/// Unstaging what was staged restores the blob, byte for byte.
///
/// The blob is UTF-8 text whose lines end evenly: other carriage returns at
/// line ends are written back as the line ends of the whole file. Where they
/// are CRLF, one of them is still there once the hunks are staged.
pub proof fn law_unstage_restores_blob(b: Seq<u8>, f: FileModel)
    requires
        !f.binary && !f.added && !f.deleted,
        vstd::utf8::valid_utf8(b),
        ends_evenly(file_lines(b)),
        lined_up(selected_hunks(f.hunks, PatchApplyMode::Stage), 0),
        forall|i: int|
            0 <= i < selected_hunks(f.hunks, PatchApplyMode::Stage).len() ==> line_texts(
                #[trigger] selected_hunks(f.hunks, PatchApplyMode::Stage)[i],
                has_crlf(b),
            ),
        any_used(f.hunks) ==> true_to_end(
            file_lines(b),
            selected_hunks(f.hunks, PatchApplyMode::Stage).last(),
        ),
        applied(b, f, PatchApplyMode::Stage) is Ok,
        has_crlf(b) ==> has_crlf(applied(b, f, PatchApplyMode::Stage)->Ok_0.bytes->0),
    ensures
        ({
            let staged = applied(b, f, PatchApplyMode::Stage)->Ok_0;
            &&& staged.bytes is Some
            &&& applied(staged.bytes->0, f, PatchApplyMode::ResetHead) matches Ok(r)
            &&& r.bytes == Some(b)
        }),
{
    let hunks = selected_hunks(f.hunks, PatchApplyMode::Stage);
    let back = selected_hunks(f.hunks, PatchApplyMode::ResetHead);
    lemma_selected_reversed(f.hunks);
    assert(back.len() == hunks.len());
    if hunks.len() > 0 {
        assert(any_used(f.hunks)) by {
            if !any_used(f.hunks) {
                lemma_none_selected(f.hunks, PatchApplyMode::Stage);
            }
        }
        assert(b.len() == 0 ==> !has_crlf(b));
        assert(file_lines(b).crlf == has_crlf(b));
        let before = file_lines(b);
        let there = apply_hunks(before.lines, hunks, 0)->Ok_0;
        let final_end = newline_after(before, hunks);
        let staged = vstd::utf8::encode_utf8(joined(there, final_end, before.crlf));
        lemma_back_again(b, hunks);
        assert(applied(b, f, PatchApplyMode::Stage)->Ok_0.bytes == Some(staged));
    }
}

/// The lines and the final newline that hunks and the same hunks turned round
/// leave.
proof fn lemma_back_again(b: Seq<u8>, hunks: Seq<HunkModel>)
    requires
        hunks.len() > 0,
        vstd::utf8::valid_utf8(b),
        ends_evenly(file_lines(b)),
        lined_up(hunks, 0),
        forall|i: int|
            0 <= i < hunks.len() ==> line_texts(#[trigger] hunks[i], file_lines(b).crlf),
        true_to_end(file_lines(b), hunks.last()),
        apply_hunks(file_lines(b).lines, hunks, 0) is Ok,
        file_lines(b).crlf ==> has_crlf(
            vstd::utf8::encode_utf8(
                joined(
                    apply_hunks(file_lines(b).lines, hunks, 0)->Ok_0,
                    newline_after(file_lines(b), hunks),
                    true,
                ),
            ),
        ),
    ensures
        ({
            let before = file_lines(b);
            let staged = file_lines(
                vstd::utf8::encode_utf8(
                    joined(
                        apply_hunks(before.lines, hunks, 0)->Ok_0,
                        newline_after(before, hunks),
                        before.crlf,
                    ),
                ),
            );
            let back = all_reversed(hunks);
            let r = apply_hunks(staged.lines, back, 0);
            &&& r is Ok
            &&& vstd::utf8::encode_utf8(
                joined(r->Ok_0, newline_after(staged, back), staged.crlf),
            ) == b
        }),
{
    let before = file_lines(b);
    let crlf = before.crlf;
    let back = all_reversed(hunks);
    let there = apply_hunks(before.lines, hunks, 0)->Ok_0;
    let final_end = newline_after(before, hunks);
    lemma_even_blob(b);
    assert forall|i: int| 0 <= i < hunks.len() implies free_of(
        #[trigger] postimage_of(hunks[i].lines),
        '\n',
    ) by {
        assert(line_texts(hunks[i], crlf));
        lemma_images_free(hunks[i].lines, '\n');
    }
    lemma_applied_free(before.lines, hunks, 0, '\n');
    lemma_end_after(before, hunks);
    lemma_undo(before.lines, hunks, 0, 0);
    let undone = apply_hunks(there, back, 0)->Ok_0;
    if !crlf {
        lemma_both_trimmed(before.lines, hunks);
    }
    lemma_written_blob(there, final_end, crlf);
    let bytes = vstd::utf8::encode_utf8(joined(there, final_end, crlf));
    let staged = file_lines(bytes);
    assert(bytes.len() == 0 ==> !has_crlf(bytes));
    assert(staged.crlf == crlf);
    lemma_evened_alike(there, final_end, crlf);
    lemma_alike(there, staged.lines, back, 0);
    let r = apply_hunks(staged.lines, back, 0)->Ok_0;
    assert(newline_after(staged, back) == before.ends_with_nl);
    assert forall|i: int| 0 <= i < r.len() implies bare(#[trigger] r[i]) == bare(
        before.lines[i],
    ) by {
        assert(bare(undone[i]) == bare(r[i]));
    }
    if crlf {
        lemma_joined_alike(r, before.lines, before.ends_with_nl);
    } else {
        assert(staged.lines =~= there);
        assert(r =~= before.lines);
    }
}

/// Unstaging one staged hunk restores the blob: the plainest case, in which
/// both sides start at the same line and end with a newline.
pub proof fn law_unstage_restores_one_hunk(b: Seq<u8>, f: FileModel, h: HunkModel)
    requires
        !f.binary && !f.added && !f.deleted,
        f.hunks == seq![h],
        h.use_decision is Use,
        h.old_start == h.new_start,
        h.old_start >= 1,
        counts_fit(h),
        h.old_lines >= 1 && h.new_lines >= 1,
        !h.no_newline_old && !h.no_newline_new,
        line_texts(h, false),
        vstd::utf8::valid_utf8(b),
        !has_crlf(b),
        ends_evenly(file_lines(b)),
        file_lines(b).ends_with_nl,
        applied(b, f, PatchApplyMode::Stage) is Ok,
    ensures
        ({
            let staged = applied(b, f, PatchApplyMode::Stage)->Ok_0;
            &&& staged.bytes is Some
            &&& applied(staged.bytes->0, f, PatchApplyMode::ResetHead) matches Ok(r)
            &&& r.bytes == Some(b)
        }),
{
    reveal_with_fuel(selected_hunks, 2);
    reveal_with_fuel(lined_up, 2);
    assert(f.hunks.drop_last() =~= Seq::<HunkModel>::empty());
    let hunks = selected_hunks(f.hunks, PatchApplyMode::Stage);
    assert(hunks =~= seq![h]);
    law_unstage_restores_blob(b, f);
}

} // verus!
