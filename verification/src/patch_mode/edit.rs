//! Manual hunk edit buffer (`e`) for patch mode.
//!
//! The buffer text matches Git 2.54 `add-patch.c` (`edit_hunk_manually`): a
//! commented header, the current hunk, then the commented footer. Comment
//! lines start with `#` and are stripped on read-back. An empty remaining
//! hunk aborts the edit and leaves the original hunk unchanged.

use vstd::prelude::*;
use vstd::slice::slice_subrange;
use vstd::string::*;

use super::apply::{apply_selected_hunks_to_blob, PatchApplyError, PatchApplyMode};
use super::model;
use super::model::{
    new_lines_in, old_lines_in, parse_hunk_header, plain_header_text, push_lines_text,
    FileDiff, Hunk, HunkLine, HunkUse, ParseError,
};
use crate::text;
use crate::text::{chars_of, copy_chars, cut_lines, starts, suffix_after, text_of};

verus! {

/// First line of Git's hunk-edit buffer (including the `# ` prefix).
pub const MANUAL_HUNK_HEADER: &'static str = "# Manual hunk edit mode -- see bottom for a quick guide.";

/// Prompt shown when the edited hunk does not apply (Git wording, trailing space).
pub const EDIT_RETRY_PROMPT: &'static str =
    "Your edited hunk does not apply. Edit again (saying \"no\" discards!) [y/n]? ";

pub const CANNOT_EDIT: &'static str = "Sorry, cannot edit this hunk";

pub const FOOTER: &'static str = "# ---\n# To remove '-' lines, make them ' ' lines (context).\n# To remove '+' lines, delete them.\n# Lines starting with # will be removed.\n# If the patch applies cleanly, the edited hunk will immediately be marked for staging.\n# If it does not apply cleanly, you will be given an opportunity to\n# edit again. If all lines of the hunk are removed, then the edit is\n# aborted and the hunk is left unchanged.\n";

/// Outcome of reading the editor buffer back.
#[derive(Debug, PartialEq, Eq)]
pub enum EditedHunk {
    /// Every non-comment line was removed — Git leaves the hunk unchanged.
    Abandoned,
    Hunk(Hunk),
}

/// What an [`EditedHunk`] says.
pub enum EditedModel {
    Abandoned,
    Hunk(model::HunkModel),
}

impl View for EditedHunk {
    type V = EditedModel;

    open spec fn view(&self) -> EditedModel {
        match self {
            EditedHunk::Abandoned => EditedModel::Abandoned,
            EditedHunk::Hunk(h) => EditedModel::Hunk(h@),
        }
    }
}

impl Clone for EditedHunk {
    fn clone(&self) -> (r: Self)
        ensures
            r@ == self@,
    {
        match self {
            EditedHunk::Abandoned => EditedHunk::Abandoned,
            EditedHunk::Hunk(h) => EditedHunk::Hunk(h.clone()),
        }
    }
}

/// A hunk can be edited where it holds anything and its file is not deleted.
pub open spec fn editable(f: model::FileModel, h: model::HunkModel) -> bool {
    !f.deleted && (h.header.len() > 0 || h.lines.len() > 0)
}

/// Deletion files and synthetic mode-only hunks cannot be edited (Git
/// `ALLOW_EDIT`: `!deleted` and `hunk_index + 1 > mode_change`).
pub fn is_editable(file: &FileDiff, hunk: &Hunk) -> (r: bool)
    ensures
        r == editable(file@, hunk@),
{
    let empty_header = hunk.header.as_str().unicode_len() == 0;
    !file.deleted && (!empty_header || hunk.lines.len() > 0)
}

/// The buffer that the editor opens for `h`.
pub open spec fn edit_buffer(h: model::HunkModel) -> Seq<char> {
    MANUAL_HUNK_HEADER@.push('\n') + (if h.header.len() > 0 {
        model::with_newline(h.header)
    } else {
        Seq::empty()
    }) + model::lines_text(h.lines) + model::no_newline_mark(
        h.no_newline_old || h.no_newline_new,
    ) + FOOTER@
}

/// Git 2.54 `edit_hunk_manually` buffer for `hunk`.
pub fn format_edit_buffer(hunk: &Hunk) -> (r: String)
    ensures
        r@ == edit_buffer(hunk@),
{
    let mut out = MANUAL_HUNK_HEADER.to_owned();
    out.push('\n');
    if hunk.header.as_str().unicode_len() > 0 {
        model::push_with_newline(&mut out, hunk.header.as_str());
    } else {
        assert(out@ + Seq::<char>::empty() =~= out@);
    }
    push_lines_text(&mut out, hunk.lines.as_slice());
    model::push_mark(&mut out, hunk.no_newline_old || hunk.no_newline_new);
    out.append(FOOTER);
    out
}

/// The lines of an edited buffer that are no comments, without carriage
/// returns at their ends.
pub open spec fn kept_rows(rows: Seq<Seq<char>>) -> Seq<Seq<char>>
    decreases rows.len(),
{
    if rows.len() == 0 {
        Seq::empty()
    } else {
        let l = text::trim_end_char(rows.last(), '\r');
        if l.len() > 0 && l[0] == '#' {
            kept_rows(rows.drop_last())
        } else {
            kept_rows(rows.drop_last()).push(l)
        }
    }
}

/// Whether every row is blank.
pub open spec fn all_blank(rows: Seq<Seq<char>>) -> bool {
    forall|i: int| 0 <= i < rows.len() ==> text::is_blank(#[trigger] rows[i])
}

/// Whether a row is a hunk header.
pub open spec fn is_header_row(l: Seq<char>) -> bool {
    "@@ "@.is_prefix_of(l) || l == "@@"@
}

/// The hunk with one more row of the edited body.
pub open spec fn with_row(h: model::HunkModel, l: Seq<char>) -> Result<
    model::HunkModel,
    model::ParseErrorModel,
> {
    if l == "\\ No newline at end of file"@ {
        if h.lines.len() > 0 && h.lines.last() is Insert {
            Ok(model::HunkModel { no_newline_new: true, ..h })
        } else {
            Ok(model::HunkModel { no_newline_old: true, ..h })
        }
    } else if l.len() == 0 {
        Ok(h)
    } else if l[0] == ' ' {
        Ok(
            model::HunkModel {
                lines: h.lines.push(model::LineModel::Context(l.drop_first())),
                ..h
            },
        )
    } else if l[0] == '-' {
        Ok(
            model::HunkModel {
                lines: h.lines.push(model::LineModel::Delete(l.drop_first())),
                ..h
            },
        )
    } else if l[0] == '+' {
        Ok(
            model::HunkModel {
                lines: h.lines.push(model::LineModel::Insert(l.drop_first())),
                ..h
            },
        )
    } else {
        Err(model::ParseErrorModel::BadHunkLine(l))
    }
}

/// The hunk with all rows of the edited body. The first row that is no hunk
/// line ends it.
pub open spec fn with_rows(h: model::HunkModel, rows: Seq<Seq<char>>) -> Result<
    model::HunkModel,
    model::ParseErrorModel,
>
    decreases rows.len(),
{
    if rows.len() == 0 {
        Ok(h)
    } else {
        match with_row(h, rows[0]) {
            Ok(next) => with_rows(next, rows.drop_first()),
            Err(e) => Err(e),
        }
    }
}

/// What stands behind the second ` @@` of a header.
pub open spec fn header_suffix(header: Seq<char>) -> Seq<char> {
    match text::after_text(header, " @@"@) {
        None => Seq::empty(),
        Some(t) => match text::after_text(t, " @@"@) {
            None => Seq::empty(),
            Some(u) => u,
        },
    }
}

/// The hunk with its counts and header made to fit its lines.
pub open spec fn recounted(h: model::HunkModel, suffix: Seq<char>) -> model::HunkModel {
    let old_lines = model::old_count(h.lines) as int;
    let new_lines = model::new_count(h.lines) as int;
    model::HunkModel {
        old_lines,
        new_lines,
        header: model::plain_header(h.old_start, old_lines, h.new_start, new_lines) + suffix,
        ..h
    }
}

/// The hunk whose lines an edit fills in: its position comes from the header
/// that the edit keeps, or from the original's, or from the original itself
/// where that has none.
pub open spec fn edit_base(header: Seq<char>, original: model::HunkModel) -> Result<
    model::HunkModel,
    model::ParseErrorModel,
> {
    if "@@"@.is_prefix_of(header) {
        model::hunk_header(header)
    } else {
        Ok(
            model::HunkModel {
                lines: Seq::empty(),
                no_newline_old: false,
                no_newline_new: false,
                use_decision: HunkUse::Undecided,
                ..original
            },
        )
    }
}

/// What an edited buffer says.
pub open spec fn edited(t: Seq<char>, original: model::HunkModel) -> Result<
    EditedModel,
    model::ParseErrorModel,
> {
    let kept = kept_rows(text::lines(t));
    if all_blank(kept) {
        Ok(EditedModel::Abandoned)
    } else {
        let (header, body) = if is_header_row(kept[0]) {
            (kept[0], kept.drop_first())
        } else {
            (original.header, kept)
        };
        match edit_base(header, original) {
            Err(e) => Err(e),
            Ok(base) => match with_rows(base, body) {
                Err(e) => Err(e),
                Ok(h) => Ok(EditedModel::Hunk(recounted(h, header_suffix(original.header)))),
            },
        }
    }
}

fn keep_rows(t: &str) -> (r: Vec<Vec<char>>)
    ensures
        text::char_views(r@) == kept_rows(text::lines(t@)),
{
    let cs = chars_of(t);
    let rows = cut_lines(cs.as_slice());
    let ghost m = text::char_views(rows@);
    let mut out: Vec<Vec<char>> = Vec::new();
    let mut i: usize = 0;
    assert(text::char_views(out@) =~= kept_rows(m.take(0)));
    while i < rows.len()
        invariant
            i <= rows.len(),
            m == text::char_views(rows@),
            text::char_views(out@) == kept_rows(m.take(i as int)),
        decreases rows.len() - i,
    {
        assert(m.take(i + 1).drop_last() =~= m.take(i as int));
        let ghost before = text::char_views(out@);
        let l = text::trimmed_end_char(rows[i].as_slice(), '\r');
        if !(l.len() > 0 && l[0] == '#') {
            out.push(copy_chars(l));
            assert(text::char_views(out@) =~= before.push(l@));
        }
        i += 1;
    }
    assert(m.take(i as int) =~= m);
    out
}

fn rows_blank(rows: &[Vec<char>]) -> (r: bool)
    ensures
        r == all_blank(text::char_views(rows@)),
{
    let ghost m = text::char_views(rows@);
    let mut i: usize = 0;
    while i < rows.len()
        invariant
            i <= rows.len(),
            m == text::char_views(rows@),
            forall|j: int| 0 <= j < i ==> text::is_blank(#[trigger] m[j]),
        decreases rows.len() - i,
    {
        let t = text::trimmed(rows[i].as_slice());
        proof {
            text::lemma_trim_blank(rows@[i as int]@);
            assert(m[i as int] == rows@[i as int]@);
        }
        if t.len() > 0 {
            return false;
        }
        i += 1;
    }
    true
}

fn push_row(h: &mut Hunk, l: &[char]) -> (r: Result<(), ParseError>)
    ensures
        (match r {
            Ok(_) => with_row(old(h)@, l@) == Ok::<model::HunkModel, model::ParseErrorModel>(
                final(h)@,
            ),
            Err(e) => with_row(old(h)@, l@) == Err::<model::HunkModel, model::ParseErrorModel>(
                e@,
            ),
        }),
{
    let ghost before = h@;
    let whole = text_of(l);
    if text::same(whole.as_str(), "\\ No newline at end of file") {
        let n = h.lines.len();
        let after_insert = n > 0 && match &h.lines[n - 1] {
            HunkLine::Insert(_) => true,
            _ => false,
        };
        if after_insert {
            h.no_newline_new = true;
        } else {
            h.no_newline_old = true;
        }
        return Ok(());
    }
    if l.len() == 0 {
        return Ok(());
    }
    let rest = slice_subrange(l, 1, l.len());
    assert(rest@ =~= l@.drop_first());
    let line = if l[0] == ' ' {
        HunkLine::Context(text_of(rest))
    } else if l[0] == '-' {
        HunkLine::Delete(text_of(rest))
    } else if l[0] == '+' {
        HunkLine::Insert(text_of(rest))
    } else {
        return Err(ParseError::BadHunkLine(whole));
    };
    let ghost m = line@;
    h.lines.push(line);
    assert(h@.lines =~= before.lines.push(m));
    Ok(())
}

fn header_tail(header: &str) -> (r: String)
    ensures
        r@ == header_suffix(header@),
{
    let cs = chars_of(header);
    match suffix_after(cs.as_slice(), " @@") {
        None => String::new(),
        Some(t) => match suffix_after(t, " @@") {
            None => String::new(),
            Some(u) => text_of(u),
        },
    }
}

fn edit_start(header: &[char], original: &Hunk) -> (r: Result<Hunk, ParseError>)
    ensures
        (match r {
            Ok(h) => edit_base(header@, original@) == Ok::<
                model::HunkModel,
                model::ParseErrorModel,
            >(h@),
            Err(e) => edit_base(header@, original@) == Err::<
                model::HunkModel,
                model::ParseErrorModel,
            >(e@),
        }),
{
    if starts(header, "@@") {
        parse_hunk_header(header)
    } else {
        let h = Hunk {
            old_start: original.old_start,
            old_lines: original.old_lines,
            new_start: original.new_start,
            new_lines: original.new_lines,
            header: original.header.clone(),
            lines: Vec::new(),
            no_newline_old: false,
            no_newline_new: false,
            use_decision: HunkUse::Undecided,
        };
        assert(h@.lines =~= Seq::<model::LineModel>::empty());
        Ok(h)
    }
}

/// Strip `#` comment lines and rebuild a hunk. Empty remainder is [`EditedHunk::Abandoned`].
pub fn parse_edited_buffer(text: &str, original: &Hunk) -> (r: Result<EditedHunk, ParseError>)
    ensures
        (match r {
            Ok(h) => edited(text@, original@) == Ok::<EditedModel, model::ParseErrorModel>(h@),
            Err(e) => edited(text@, original@) == Err::<EditedModel, model::ParseErrorModel>(e@),
        }),
{
    let kept = keep_rows(text);
    let ghost m = text::char_views(kept@);
    if rows_blank(kept.as_slice()) {
        return Ok(EditedHunk::Abandoned);
    }
    assert(m.len() == kept@.len());
    assert(m.len() > 0);
    assert(m[0] == kept@[0]@);
    let first = text_of(kept[0].as_slice());
    let has_header = starts(kept[0].as_slice(), "@@ ") || text::same(first.as_str(), "@@");
    let own = chars_of(original.header.as_str());
    let skip: usize = if has_header {
        1
    } else {
        0
    };
    let base = if has_header {
        edit_start(kept[0].as_slice(), original)
    } else {
        edit_start(own.as_slice(), original)
    };
    let mut parsed = match base {
        Ok(h) => h,
        Err(e) => {
            return Err(e);
        },
    };
    let ghost start = parsed@;
    let ghost body = if has_header {
        m.drop_first()
    } else {
        m
    };
    assert(body =~= m.skip(skip as int));
    let mut i: usize = skip;
    while i < kept.len()
        invariant
            skip <= i <= kept.len(),
            m == text::char_views(kept@),
            with_rows(parsed@, m.skip(i as int)) == with_rows(start, body),
            edited(text@, original@) == (match with_rows(start, body) {
                Err(e) => Err::<EditedModel, model::ParseErrorModel>(e),
                Ok(h) => Ok(EditedModel::Hunk(recounted(h, header_suffix(original@.header)))),
            }),
        decreases kept.len() - i,
    {
        assert(m.skip(i as int).drop_first() =~= m.skip(i + 1));
        assert(m.skip(i as int)[0] == kept@[i as int]@);
        match push_row(&mut parsed, kept[i].as_slice()) {
            Ok(_) => {},
            Err(e) => {
                return Err(e);
            },
        }
        i += 1;
    }
    let ghost filled = parsed@;
    assert(with_rows(start, body) == Ok::<model::HunkModel, model::ParseErrorModel>(filled));
    parsed.old_lines = old_lines_in(parsed.lines.as_slice());
    parsed.new_lines = new_lines_in(parsed.lines.as_slice());
    let mut header = plain_header_text(
        parsed.old_start,
        parsed.old_lines,
        parsed.new_start,
        parsed.new_lines,
    );
    header.append(header_tail(original.header.as_str()).as_str());
    parsed.header = header;
    assert(parsed@ =~= recounted(filled, header_suffix(original@.header)));
    Ok(EditedHunk::Hunk(parsed))
}

/// The file with `h` in place of its hunk at `idx`, marked for use.
pub open spec fn with_trial(f: model::FileModel, idx: int, h: model::HunkModel) -> model::FileModel {
    if 0 <= idx < f.hunks.len() {
        model::FileModel {
            hunks: f.hunks.update(idx, model::HunkModel { use_decision: HunkUse::Use, ..h }),
            ..f
        }
    } else {
        f
    }
}

/// Apply-check the file with `edited` substituting the hunk at `hunk_idx`.
pub fn edited_hunk_applies(
    file: &FileDiff,
    hunk_idx: usize,
    edited: &Hunk,
    old_bytes: &[u8],
) -> (r: Result<(), PatchApplyError>)
    ensures
        ({
            let trial = super::apply::applied(
                old_bytes@,
                with_trial(file@, hunk_idx as int, edited@),
                PatchApplyMode::Stage,
            );
            match r {
                Ok(_) => trial is Ok,
                Err(e) => trial matches Err(m) && m == e@,
            }
        }),
{
    let mut trial = file.clone();
    let ghost before = trial@;
    if hunk_idx < trial.hunks.len() {
        let mut h = edited.clone();
        h.use_decision = HunkUse::Use;
        trial.hunks[hunk_idx] = h;
    }
    assert(before.hunks == file@.hunks);
    assert(trial@.hunks =~= with_trial(file@, hunk_idx as int, edited@).hunks);
    assert(trial@ == with_trial(file@, hunk_idx as int, edited@));
    match apply_selected_hunks_to_blob(old_bytes, &trial, PatchApplyMode::Stage) {
        Ok(_) => Ok(()),
        Err(e) => Err(e),
    }
}

/// `value` as one word of a shell command line.
pub fn shell_single_quote(value: &str) -> (r: String)
    ensures
        r@ == seq!['\''] + text::replace_char(value@, '\'', "'\\''"@) + seq!['\''],
{
    let mut out = String::new();
    out.push('\'');
    let cs = chars_of(value);
    text::push_replaced(&mut out, cs.as_slice(), '\'', "'\\''");
    out.push('\'');
    assert(out@ =~= seq!['\''] + text::replace_char(value@, '\'', "'\\''"@) + seq!['\'']);
    out
}

} // verus!
