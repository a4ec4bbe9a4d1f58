//! What applying the selected hunks of a file makes of a blob.

use vstd::prelude::*;

use super::apply;
use super::apply::{ApplyErrorModel, BlobModel, PatchApplyMode};
use super::model::{FileModel, HunkModel, HunkUse, LineModel};
use super::parse_laws::rows_text;

verus! {

/// Whether hunk `i` of a file is marked for use.
pub open spec fn uses(f: FileModel, i: int) -> bool {
    0 <= i < f.hunks.len() && f.hunks[i].use_decision == HunkUse::Use
}

//// Files that come and go

/// With a hunk marked for use, the path leaves the index exactly where the
/// side that the selection leads to has no file: for unstaging where the patch
/// adds the file, for staging and for a reverse patch where it deletes it.
pub proof fn law_path_leaves_with_its_file(b: Seq<u8>, f: FileModel, i: int)
    requires
        uses(f, i),
        !f.binary,
    ensures
        (apply::applied(b, f, PatchApplyMode::ResetHead) matches Ok(r) && r.bytes is None)
            <==> f.added,
        (apply::applied(b, f, PatchApplyMode::Stage) matches Ok(r) && r.bytes is None)
            <==> f.deleted,
        (apply::applied(b, f, PatchApplyMode::ResetNotHead) matches Ok(r) && r.bytes is None)
            <==> f.deleted,
        f.added ==> apply::applied(b, f, PatchApplyMode::ResetHead) == Ok::<
            BlobModel,
            ApplyErrorModel,
        >(BlobModel { bytes: None, mode: None }),
        f.deleted ==> apply::applied(b, f, PatchApplyMode::Stage) == Ok::<
            BlobModel,
            ApplyErrorModel,
        >(BlobModel { bytes: None, mode: None }),
{
    assert(f.hunks[i].use_decision is Use);
    assert(apply::any_used(f.hunks));
}

/// The lines of a text as a file of its own: each with a newline behind it,
/// the last one with or without.
pub open spec fn as_file(lines: Seq<Seq<char>>, ended: bool) -> Seq<u8> {
    vstd::utf8::encode_utf8(
        if ended || lines.len() == 0 {
            rows_text(lines)
        } else {
            rows_text(lines).drop_last()
        },
    )
}

/// The texts of lines.
pub open spec fn texts_of(lines: Seq<LineModel>) -> Seq<Seq<char>> {
    lines.map_values(|l: LineModel| l.text())
}

/// The lines that the old side of a hunk has.
pub open spec fn old_side(lines: Seq<LineModel>) -> Seq<Seq<char>> {
    texts_of(lines.filter(|l: LineModel| !(l is Insert)))
}

/// The lines that the new side of a hunk has.
pub open spec fn new_side(lines: Seq<LineModel>) -> Seq<Seq<char>> {
    texts_of(lines.filter(|l: LineModel| !(l is Delete)))
}

pub proof fn lemma_sides(lines: Seq<LineModel>)
    ensures
        apply::preimage_of(lines) == old_side(lines),
        apply::postimage_of(lines) == new_side(lines),
    decreases lines.len(),
{
    reveal(Seq::filter);
    if lines.len() > 0 {
        let front = lines.drop_last();
        let last = lines.last();
        lemma_sides(front);
        let a = |l: LineModel| !(l is Insert);
        let b = |l: LineModel| !(l is Delete);
        assert(texts_of(front.filter(a).push(last)) =~= texts_of(front.filter(a)).push(
            last.text(),
        ));
        assert(texts_of(front.filter(b).push(last)) =~= texts_of(front.filter(b)).push(
            last.text(),
        ));
        assert(apply::preimage_of(lines) =~= old_side(lines));
        assert(apply::postimage_of(lines) =~= new_side(lines));
    } else {
        assert(lines.filter(|l: LineModel| !(l is Insert)) =~= Seq::<LineModel>::empty());
        assert(lines.filter(|l: LineModel| !(l is Delete)) =~= Seq::<LineModel>::empty());
        assert(apply::preimage_of(lines) =~= old_side(lines));
        assert(apply::postimage_of(lines) =~= new_side(lines));
    }
}

proof fn lemma_ended(lines: Seq<Seq<char>>)
    ensures
        apply::ended_lines(lines, false) == rows_text(lines),
    decreases lines.len(),
{
    reveal_strlit("\n");
    assert(apply::line_end(false) =~= seq!['\n']);
    if lines.len() > 0 {
        lemma_ended(lines.drop_last());
        assert(apply::ended_lines(lines, false) =~= rows_text(lines));
    }
}

/// Lines are written as a file of their own.
proof fn lemma_file(lines: Seq<Seq<char>>, ended: bool)
    ensures
        vstd::utf8::encode_utf8(apply::joined(lines, ended, false)) == as_file(lines, ended),
{
    reveal_strlit("\n");
    assert(apply::line_end(false) =~= seq!['\n']);
    if lines.len() > 0 {
        lemma_ended(lines.drop_last());
        let most = rows_text(lines.drop_last()) + lines.last();
        assert(apply::joined(lines, true, false) =~= most.push('\n'));
        assert(apply::joined(lines, false, false) =~= most);
        assert(most.push('\n').drop_last() =~= most);
    }
}

/// The selection of a file with one hunk that is marked for use.
proof fn lemma_one_hunk(f: FileModel, h: HunkModel)
    requires
        f.hunks == seq![h],
        h.use_decision == HunkUse::Use,
    ensures
        apply::any_used(f.hunks),
        apply::selected_hunks(f.hunks, PatchApplyMode::Stage) == seq![h],
        apply::selected_hunks(f.hunks, PatchApplyMode::ResetNotHead) == seq![h],
        apply::selected_hunks(f.hunks, PatchApplyMode::ResetHead) == seq![apply::reversed(h)],
{
    reveal_with_fuel(apply::selected_hunks, 2);
    assert(f.hunks[0].use_decision is Use);
    assert(f.hunks.drop_last() =~= Seq::<HunkModel>::empty());
    assert(apply::selected_hunks(f.hunks, PatchApplyMode::Stage) =~= seq![h]);
    assert(apply::selected_hunks(f.hunks, PatchApplyMode::ResetNotHead) =~= seq![h]);
    assert(apply::selected_hunks(f.hunks, PatchApplyMode::ResetHead) =~= seq![apply::reversed(h)]);
}

proof fn lemma_apply_one(lines: Seq<Seq<char>>, h: HunkModel)
    ensures
        apply::apply_hunks(lines, seq![h], 0) == apply::apply_hunk(lines, h, 0),
{
    reveal_with_fuel(apply::apply_hunks, 2);
    assert(seq![h].drop_first() =~= Seq::<HunkModel>::empty());
}

/// Into an empty blob goes the new side of a hunk without an old side.
proof fn lemma_into_nothing(h: HunkModel)
    requires
        h.old_start == 0,
        h.old_lines == 0,
    ensures
        apply::apply_hunks(Seq::empty(), seq![h], 0) == Ok::<Seq<Seq<char>>, Seq<char>>(
            apply::postimage_of(h.lines),
        ),
{
    let none = Seq::<Seq<char>>::empty();
    lemma_apply_one(none, h);
    apply::lemma_first_mismatch(none, 0, apply::hunk_takes(h), 0);
    assert(apply::replaced(none, 0, 0, apply::postimage_of(h.lines)) =~= apply::postimage_of(
        h.lines,
    ));
}

/// Unstaging a deletion gives back, from nothing, the lines that the patch
/// deletes.
pub proof fn law_unstaged_deletion_is_undone(f: FileModel, h: HunkModel)
    requires
        !f.binary,
        !f.added,
        f.hunks == seq![h],
        h.use_decision == HunkUse::Use,
        h.new_start == 0,
        h.new_lines == 0,
        forall|i: int| 0 <= i < h.lines.len() ==> #[trigger] h.lines[i] is Delete,
    ensures
        apply::applied(Seq::empty(), f, PatchApplyMode::ResetHead) matches Ok(r) && r.bytes == Some(
            as_file(texts_of(h.lines), !h.no_newline_old),
        ),
{
    let back = apply::reversed(h);
    lemma_one_hunk(f, h);
    lemma_into_nothing(back);
    apply::law_reverse_exchanges_sides(h.lines);
    lemma_sides(h.lines);
    lemma_all_kept(h.lines, |l: LineModel| !(l is Insert));
    lemma_file(texts_of(h.lines), !h.no_newline_old);
    assert(seq![back].last() == back);
}

/// Staging a new file makes, of nothing, the lines that the patch inserts, and
/// so does applying a reverse patch.
pub proof fn law_staged_addition_is_its_lines(f: FileModel, h: HunkModel)
    requires
        !f.binary,
        !f.deleted,
        f.hunks == seq![h],
        h.use_decision == HunkUse::Use,
        h.old_start == 0,
        h.old_lines == 0,
        forall|i: int| 0 <= i < h.lines.len() ==> #[trigger] h.lines[i] is Insert,
    ensures
        apply::applied(Seq::empty(), f, PatchApplyMode::Stage) matches Ok(r) && r.bytes == Some(
            as_file(texts_of(h.lines), !h.no_newline_new),
        ),
        apply::applied(Seq::empty(), f, PatchApplyMode::ResetNotHead) matches Ok(r) && r.bytes
            == Some(as_file(texts_of(h.lines), !h.no_newline_new)),
{
    lemma_one_hunk(f, h);
    lemma_into_nothing(h);
    lemma_sides(h.lines);
    lemma_all_kept(h.lines, |l: LineModel| !(l is Delete));
    lemma_file(texts_of(h.lines), !h.no_newline_new);
    assert(seq![h].last() == h);
}

proof fn lemma_all_kept(lines: Seq<LineModel>, p: spec_fn(LineModel) -> bool)
    requires
        forall|i: int| 0 <= i < lines.len() ==> p(#[trigger] lines[i]),
    ensures
        lines.filter(p) == lines,
    decreases lines.len(),
{
    reveal(Seq::filter);
    if lines.len() > 0 {
        let front = lines.drop_last();
        assert forall|i: int| 0 <= i < front.len() implies p(#[trigger] front[i]) by {
            assert(front[i] == lines[i]);
        }
        lemma_all_kept(front, p);
        assert(p(lines[lines.len() - 1]));
        assert(front.push(lines.last()) =~= lines);
    }
}

//// One hunk

/// Whether texts are lines: they hold no line ends.
pub open spec fn are_lines(lines: Seq<Seq<char>>) -> bool {
    forall|i: int|
        0 <= i < lines.len() ==> !(#[trigger] lines[i]).contains('\n') && !lines[i].contains('\r')
}

/// Whether the lines of `part` stand in `lines` from position `at` on.
pub open spec fn stand_at(lines: Seq<Seq<char>>, at: int, part: Seq<Seq<char>>) -> bool {
    0 <= at && at + part.len() <= lines.len() && lines.subrange(at, at + part.len()) == part
}

proof fn lemma_bare_lines(lines: Seq<Seq<char>>)
    requires
        are_lines(lines),
    ensures
        apply::trimmed(lines),
        apply::free_of(lines, '\n'),
{
    assert forall|i: int| 0 <= i < lines.len() implies apply::bare(#[trigger] lines[i])
        == lines[i] by {
        if lines[i].len() > 0 {
            assert(lines[i].contains(lines[i].last()));
        }
    }
}

/// A file of lines is read as those lines.
proof fn lemma_read_file(lines: Seq<Seq<char>>)
    requires
        are_lines(lines),
    ensures
        apply::file_lines(as_file(lines, true)) == (apply::LinesModel {
            lines,
            ends_with_nl: true,
            crlf: false,
        }),
{
    lemma_bare_lines(lines);
    lemma_file(lines, true);
    apply::lemma_written_blob(lines, true, false);
    assert(apply::evened(lines, true, false) =~= lines);
}

/// Where an old side stands is where nothing mismatches.
proof fn lemma_match(lines: Seq<Seq<char>>, at: int, part: Seq<Seq<char>>)
    requires
        are_lines(lines),
        are_lines(part),
        0 <= at,
        at + part.len() <= lines.len(),
    ensures
        stand_at(lines, at, part) <==> apply::first_mismatch(lines, at, part, 0) == part.len(),
{
    lemma_bare_lines(lines);
    lemma_bare_lines(part);
    apply::lemma_first_mismatch(lines, at, part, 0);
    let k = apply::first_mismatch(lines, at, part, 0);
    let sub = lines.subrange(at, at + part.len());
    if k == part.len() {
        assert forall|j: int| 0 <= j < part.len() implies sub[j] == part[j] by {
            assert(apply::bare(lines[at + j]) == apply::bare(part[j]));
            assert(lines[at + j] == sub[j]);
        }
        assert(sub =~= part);
    } else {
        assert(sub[k] == lines[at + k]);
        assert(apply::bare(lines[at + k]) == lines[at + k]);
        assert(apply::bare(part[k]) == part[k]);
    }
}

/// A hunk is applied where its old side stands at the line that it names: its
/// new side takes the place of its old side, and nothing else changes. Where it
/// does not stand there, the file's path is reported.
pub proof fn law_hunk_replaces_its_old_side(
    lines: Seq<Seq<char>>,
    f: FileModel,
    h: HunkModel,
    mode: PatchApplyMode,
)
    requires
        !f.binary,
        !f.deleted,
        mode is Stage || mode is ResetNotHead,
        f.hunks == seq![h],
        h.use_decision == HunkUse::Use,
        h.old_start >= 1,
        h.old_lines > 0,
        !h.no_newline_new,
        are_lines(lines),
        are_lines(old_side(h.lines)),
    ensures
        ({
            let at = h.old_start - 1;
            let end = at + old_side(h.lines).len();
            let r = apply::applied(as_file(lines, true), f, mode);
            if stand_at(lines, at, old_side(h.lines)) {
                r matches Ok(b) && b.bytes == Some(
                    as_file(lines.take(at) + new_side(h.lines) + lines.skip(end), true),
                )
            } else {
                r matches Err(ApplyErrorModel::HunkDoesNotApply { path, .. }) && path == f.path
            }
        }),
{
    let at = h.old_start - 1;
    let pre = old_side(h.lines);
    lemma_one_hunk(f, h);
    lemma_read_file(lines);
    lemma_sides(h.lines);
    lemma_apply_one(lines, h);
    if at + pre.len() <= lines.len() {
        lemma_match(lines, at, pre);
        apply::lemma_first_mismatch(lines, at, pre, 0);
        lemma_file(lines.take(at) + new_side(h.lines) + lines.skip(at + pre.len()), true);
    }
    assert(seq![h].last() == h);
}

/// Unstaging a hunk puts its old side in the place of its new side, which has
/// to stand at the line that the hunk names for it.
pub proof fn law_unstaged_hunk_restores_its_old_side(
    lines: Seq<Seq<char>>,
    f: FileModel,
    h: HunkModel,
)
    requires
        !f.binary,
        !f.added,
        f.hunks == seq![h],
        h.use_decision == HunkUse::Use,
        h.new_start >= 1,
        h.new_lines > 0,
        !h.no_newline_old,
        are_lines(lines),
        are_lines(new_side(h.lines)),
    ensures
        ({
            let at = h.new_start - 1;
            let end = at + new_side(h.lines).len();
            let r = apply::applied(as_file(lines, true), f, PatchApplyMode::ResetHead);
            if stand_at(lines, at, new_side(h.lines)) {
                r matches Ok(b) && b.bytes == Some(
                    as_file(lines.take(at) + old_side(h.lines) + lines.skip(end), true),
                )
            } else {
                r matches Err(ApplyErrorModel::HunkDoesNotApply { path, .. }) && path == f.path
            }
        }),
{
    let back = apply::reversed(h);
    let at = h.new_start - 1;
    let pre = new_side(h.lines);
    lemma_one_hunk(f, h);
    lemma_read_file(lines);
    lemma_sides(h.lines);
    apply::law_reverse_exchanges_sides(h.lines);
    lemma_apply_one(lines, back);
    if at + pre.len() <= lines.len() {
        lemma_match(lines, at, pre);
        apply::lemma_first_mismatch(lines, at, pre, 0);
        lemma_file(lines.take(at) + old_side(h.lines) + lines.skip(at + pre.len()), true);
    }
    assert(seq![back].last() == back);
}

/// A hunk without an old side puts its new side behind the line that it names,
/// where the file has that line.
pub proof fn law_hunk_inserts_behind_its_line(
    lines: Seq<Seq<char>>,
    f: FileModel,
    h: HunkModel,
    mode: PatchApplyMode,
)
    requires
        !f.binary,
        !f.deleted,
        mode is Stage || mode is ResetNotHead,
        f.hunks == seq![h],
        h.use_decision == HunkUse::Use,
        h.old_start >= 0,
        h.old_lines == 0,
        !h.no_newline_new,
        are_lines(lines),
    ensures
        ({
            let at = h.old_start;
            let r = apply::applied(as_file(lines, true), f, mode);
            if at <= lines.len() {
                r matches Ok(b) && b.bytes == Some(
                    as_file(lines.take(at) + new_side(h.lines) + lines.skip(at), true),
                )
            } else {
                r matches Err(ApplyErrorModel::HunkDoesNotApply { path, .. }) && path == f.path
            }
        }),
{
    let at = h.old_start;
    lemma_one_hunk(f, h);
    lemma_read_file(lines);
    lemma_sides(h.lines);
    lemma_apply_one(lines, h);
    apply::lemma_first_mismatch(lines, at, apply::hunk_takes(h), 0);
    lemma_file(lines.take(at) + new_side(h.lines) + lines.skip(at), true);
    assert(seq![h].last() == h);
}

/// The mark for a missing final newline takes the newline from the end of what
/// is written.
pub proof fn law_mark_takes_the_final_newline(
    lines: Seq<Seq<char>>,
    f: FileModel,
    h: HunkModel,
)
    requires
        !f.binary,
        !f.deleted,
        f.hunks == seq![h],
        h.use_decision == HunkUse::Use,
        h.old_start >= 1,
        h.old_lines > 0,
        h.no_newline_new,
        are_lines(lines),
        are_lines(old_side(h.lines)),
        stand_at(lines, h.old_start - 1, old_side(h.lines)),
    ensures
        apply::applied(as_file(lines, true), f, PatchApplyMode::Stage) matches Ok(b) && b.bytes
            == Some(
            as_file(
                lines.take(h.old_start - 1) + new_side(h.lines) + lines.skip(
                    h.old_start - 1 + old_side(h.lines).len(),
                ),
                false,
            ),
        ),
{
    let at = h.old_start - 1;
    let pre = old_side(h.lines);
    lemma_one_hunk(f, h);
    lemma_read_file(lines);
    lemma_sides(h.lines);
    lemma_apply_one(lines, h);
    lemma_match(lines, at, pre);
    apply::lemma_first_mismatch(lines, at, pre, 0);
    lemma_file(lines.take(at) + new_side(h.lines) + lines.skip(at + pre.len()), false);
    assert(seq![h].last() == h);
}

//// Selections

proof fn lemma_selected_add(a: Seq<HunkModel>, b: Seq<HunkModel>, mode: PatchApplyMode)
    ensures
        apply::selected_hunks(a + b, mode) == apply::selected_hunks(a, mode)
            + apply::selected_hunks(b, mode),
    decreases b.len(),
{
    if b.len() == 0 {
        assert(a + b =~= a);
        assert(apply::selected_hunks(a, mode) + apply::selected_hunks(b, mode)
            =~= apply::selected_hunks(a, mode));
    } else {
        assert((a + b).drop_last() =~= a + b.drop_last());
        lemma_selected_add(a, b.drop_last(), mode);
        assert(apply::selected_hunks(a + b, mode) =~= apply::selected_hunks(a, mode)
            + apply::selected_hunks(b, mode));
    }
}

/// What is made of a blob.
pub open spec fn bytes_of(r: Result<BlobModel, ApplyErrorModel>) -> Result<
    Option<Seq<u8>>,
    ApplyErrorModel,
> {
    match r {
        Ok(b) => Ok(b.bytes),
        Err(e) => Err(e),
    }
}

/// A hunk that is not marked for use changes nothing: the blob becomes what it
/// would become without that hunk.
pub proof fn law_unmarked_hunk_changes_nothing(
    b: Seq<u8>,
    f: FileModel,
    front: Seq<HunkModel>,
    h: HunkModel,
    back: Seq<HunkModel>,
    mode: PatchApplyMode,
)
    requires
        h.use_decision != HunkUse::Use,
        f.hunks == front + seq![h] + back,
    ensures
        bytes_of(apply::applied(b, f, mode)) == bytes_of(
            apply::applied(b, FileModel { hunks: front + back, ..f }, mode),
        ),
{
    let rest = front + back;
    reveal_with_fuel(apply::selected_hunks, 2);
    assert(seq![h].drop_last() =~= Seq::<HunkModel>::empty());
    assert(apply::selected_hunks(seq![h], mode) =~= Seq::<HunkModel>::empty());
    lemma_selected_add(front + seq![h], back, mode);
    lemma_selected_add(front, seq![h], mode);
    lemma_selected_add(front, back, mode);
    assert(apply::selected_hunks(f.hunks, mode) =~= apply::selected_hunks(rest, mode));
    assert(apply::any_used(f.hunks) == apply::any_used(rest)) by {
        if apply::any_used(f.hunks) {
            let i = choose|i: int|
                0 <= i < f.hunks.len() && (#[trigger] f.hunks[i]).use_decision is Use;
            if i < front.len() {
                assert(rest[i] == f.hunks[i]);
            } else {
                assert(rest[i - 1] == f.hunks[i]);
            }
        }
        if apply::any_used(rest) {
            let i = choose|i: int| 0 <= i < rest.len() && (#[trigger] rest[i]).use_decision is Use;
            if i < front.len() {
                assert(rest[i] == f.hunks[i]);
            } else {
                assert(rest[i] == f.hunks[i + 1]);
            }
        }
    }
    if rest.len() == 0 {
        assert(!apply::any_used(rest));
        assert(apply::selected_hunks(rest, mode).len() == 0);
    }
}

/// A change of mode goes with the selection: with a hunk in use, or without
/// any hunks, the mode is that of the side that the selection leads to; with
/// hunks of which none is in use it is that of the old side.
pub proof fn law_mode_goes_with_the_selection(
    b: Seq<u8>,
    f: FileModel,
    mode: PatchApplyMode,
    old_mode: u32,
    new_mode: u32,
)
    requires
        !f.binary,
        f.mode_change,
        f.old_mode == Some(old_mode),
        f.new_mode == Some(new_mode),
    ensures
        f.hunks.len() == 0 ==> apply::applied(b, f, mode) == Ok::<BlobModel, ApplyErrorModel>(
            BlobModel {
                bytes: Some(b),
                mode: Some(
                    if mode is ResetHead {
                        old_mode
                    } else {
                        new_mode
                    },
                ),
            },
        ),
        forall|i: int| #[trigger]
            uses(f, i) ==> (apply::applied(b, f, mode) matches Ok(r) ==> r.bytes is Some ==> r.mode
                == Some(
                if mode is ResetHead {
                    old_mode
                } else {
                    new_mode
                },
            )),
        f.hunks.len() > 0 && (forall|i: int| !#[trigger] uses(f, i)) ==> apply::applied(b, f, mode)
            == Ok::<BlobModel, ApplyErrorModel>(
            BlobModel { bytes: Some(b), mode: Some(old_mode) },
        ),
{
    assert forall|i: int| #[trigger] uses(f, i) implies apply::selected_hunks(f.hunks, mode).len()
        > 0 by {
        lemma_selected_some(f.hunks, mode, i);
    }
    if forall|i: int| !#[trigger] uses(f, i) {
        assert(!apply::any_used(f.hunks)) by {
            if apply::any_used(f.hunks) {
                let i = choose|i: int|
                    0 <= i < f.hunks.len() && (#[trigger] f.hunks[i]).use_decision is Use;
                assert(uses(f, i));
            }
        }
        apply::law_nothing_selected_keeps_blob(b, f, mode);
        assert forall|i: int| 0 <= i < f.hunks.len() implies !((
        #[trigger] f.hunks[i]).use_decision is Use) by {
            assert(!uses(f, i));
        }
        lemma_selected_none(f.hunks, mode);
    }
    if f.hunks.len() == 0 {
        assert(!apply::any_skipped(f.hunks));
    }
}

/// Without a change of mode the blob keeps the one that the patch gives.
pub proof fn law_mode_stays(b: Seq<u8>, f: FileModel, mode: PatchApplyMode, m: u32)
    requires
        !f.binary,
        !f.mode_change,
        f.old_mode == Some(m),
        f.new_mode == Some(m),
    ensures
        apply::applied(b, f, mode) matches Ok(r) ==> r.bytes is Some ==> r.mode == Some(m),
{
}

proof fn lemma_selected_some(hunks: Seq<HunkModel>, mode: PatchApplyMode, i: int)
    requires
        0 <= i < hunks.len(),
        hunks[i].use_decision == HunkUse::Use,
    ensures
        apply::selected_hunks(hunks, mode).len() > 0,
    decreases hunks.len(),
{
    if i < hunks.len() - 1 {
        assert(hunks.drop_last()[i] == hunks[i]);
        lemma_selected_some(hunks.drop_last(), mode, i);
    }
}

proof fn lemma_selected_none(hunks: Seq<HunkModel>, mode: PatchApplyMode)
    requires
        forall|i: int| 0 <= i < hunks.len() ==> !((#[trigger] hunks[i]).use_decision is Use),
    ensures
        apply::selected_hunks(hunks, mode).len() == 0,
    decreases hunks.len(),
{
    if hunks.len() > 0 {
        let front = hunks.drop_last();
        assert forall|i: int| 0 <= i < front.len() implies !((
        #[trigger] front[i]).use_decision is Use) by {
            assert(front[i] == hunks[i]);
        }
        lemma_selected_none(front, mode);
        assert(!(hunks[hunks.len() - 1].use_decision is Use));
    }
}

} // verus!
