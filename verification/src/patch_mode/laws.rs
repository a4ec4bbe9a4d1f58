//! What holds of patches, hunks and sessions as a whole.

use vstd::prelude::*;

use super::apply;
use super::edit;
use super::model;
use super::model::{FileModel, HunkModel, HunkUse, LineModel, ScanModel, SectionModel};
use super::session;
use super::session::{
    EventModel, OptionsModel, RequestModel, SessionAction, SessionModel, SessionPhase, StepModel,
};
use crate::text;

verus! {

//// Splitting

/// The changed lines of a hunk, in order.
pub open spec fn changes(lines: Seq<LineModel>) -> Seq<LineModel>
    decreases lines.len(),
{
    if lines.len() == 0 {
        Seq::empty()
    } else if lines.last().is_change() {
        changes(lines.drop_last()).push(lines.last())
    } else {
        changes(lines.drop_last())
    }
}

/// The changed lines of hunks, in order.
pub open spec fn changes_of(hunks: Seq<HunkModel>) -> Seq<LineModel>
    decreases hunks.len(),
{
    if hunks.len() == 0 {
        Seq::empty()
    } else {
        changes_of(hunks.drop_last()) + changes(hunks.last().lines)
    }
}

proof fn lemma_changes_add(a: Seq<LineModel>, b: Seq<LineModel>)
    ensures
        changes(a + b) == changes(a) + changes(b),
    decreases b.len(),
{
    if b.len() == 0 {
        assert(a + b =~= a);
        assert(changes(a) + changes(b) =~= changes(a));
    } else {
        lemma_changes_add(a, b.drop_last());
        assert((a + b).drop_last() =~= a + b.drop_last());
        assert((a + b).last() == b.last());
        assert(changes(a + b) =~= changes(a) + changes(b));
    }
}

proof fn lemma_no_changes(lines: Seq<LineModel>)
    requires
        forall|i: int| 0 <= i < lines.len() ==> (#[trigger] lines[i]) is Context,
    ensures
        changes(lines) == Seq::<LineModel>::empty(),
    decreases lines.len(),
{
    if lines.len() > 0 {
        lemma_no_changes(lines.drop_last());
    }
}

proof fn lemma_all_changes(lines: Seq<LineModel>)
    requires
        forall|i: int| 0 <= i < lines.len() ==> (#[trigger] lines[i]).is_change(),
    ensures
        changes(lines) == lines,
    decreases lines.len(),
{
    if lines.len() > 0 {
        lemma_all_changes(lines.drop_last());
        assert(lines.drop_last().push(lines.last()) =~= lines);
    }
}

proof fn lemma_piece_changes(h: HunkModel, r: (int, int))
    requires
        0 <= r.0 < r.1 <= h.lines.len(),
        r.1 == model::island_end(h.lines, r.0),
        h.lines[r.0].is_change(),
    ensures
        changes(model::split_piece(h, r).lines) == h.lines.subrange(r.0, r.1),
        model::islands(model::split_piece(h, r).lines).len() == 1,
{
    let l = h.lines;
    let s = model::context_start(l, r.0);
    let e = model::context_end(l, r.1);
    model::lemma_context_start(l, r.0);
    model::lemma_context_end(l, r.1);
    model::lemma_island_end(l, r.0);
    let a = l.subrange(s, r.0);
    let b = l.subrange(r.0, r.1);
    let c = l.subrange(r.1, e);
    let p = l.subrange(s, e);
    assert(p =~= a + b + c);
    lemma_no_changes(a);
    lemma_all_changes(b);
    lemma_no_changes(c);
    lemma_changes_add(a, b);
    lemma_changes_add(a + b, c);
    assert(changes(p) =~= b);
    lemma_skip_context(p, 0, r.0 - s);
    lemma_island_stops(p, r.0 - s, r.1 - s);
    lemma_skip_context(p, r.1 - s, p.len() as int);
    assert(model::islands(p) =~= seq![(r.0 - s, r.1 - s)]);
}

proof fn lemma_skip_context(l: Seq<LineModel>, i: int, j: int)
    requires
        0 <= i <= j <= l.len(),
        forall|k: int| i <= k < j ==> (#[trigger] l[k]) is Context,
    ensures
        model::islands_from(l, i) == model::islands_from(l, j),
    decreases j - i,
{
    if i < j {
        assert(l[i] is Context);
        lemma_skip_context(l, i + 1, j);
    }
}

proof fn lemma_island_stops(l: Seq<LineModel>, i: int, j: int)
    requires
        0 <= i <= j <= l.len(),
        forall|k: int| i <= k < j ==> (#[trigger] l[k]).is_change(),
        j < l.len() ==> l[j] is Context,
    ensures
        model::island_end(l, i) == j,
    decreases j - i,
{
    if i < j {
        assert(l[i].is_change());
        lemma_island_stops(l, i + 1, j);
    }
}

/// The changed lines that lie in ranges, in order.
spec fn covered(l: Seq<LineModel>, rs: Seq<(int, int)>) -> Seq<LineModel>
    decreases rs.len(),
{
    if rs.len() == 0 {
        Seq::empty()
    } else {
        l.subrange(rs[0].0, rs[0].1) + covered(l, rs.drop_first())
    }
}

proof fn lemma_islands_cover(l: Seq<LineModel>, i: int)
    requires
        0 <= i <= l.len(),
    ensures
        covered(l, model::islands_from(l, i)) == changes(l.skip(i)),
    decreases l.len() - i,
{
    if i == l.len() {
        assert(l.skip(i) =~= Seq::<LineModel>::empty());
    } else if l[i].is_change() {
        model::lemma_island_end(l, i);
        let e = model::island_end(l, i);
        let rest = model::islands_from(l, e);
        let all = model::islands_from(l, i);
        assert(all =~= seq![(i, e)] + rest);
        assert(all.drop_first() =~= rest);
        lemma_islands_cover(l, e);
        let b = l.subrange(i, e);
        lemma_all_changes(b);
        lemma_changes_add(b, l.skip(e));
        assert(b + l.skip(e) =~= l.skip(i));
    } else {
        lemma_islands_cover(l, i + 1);
        let a = seq![l[i]];
        lemma_no_changes(a);
        lemma_changes_add(a, l.skip(i + 1));
        assert(a + l.skip(i + 1) =~= l.skip(i));
        assert(changes(a) + changes(l.skip(i + 1)) =~= changes(l.skip(i + 1)));
    }
}

proof fn lemma_covered_last(l: Seq<LineModel>, rs: Seq<(int, int)>)
    requires
        rs.len() > 0,
    ensures
        covered(l, rs) == covered(l, rs.drop_last()) + l.subrange(rs.last().0, rs.last().1),
    decreases rs.len(),
{
    if rs.len() == 1 {
        assert(rs.drop_first() =~= Seq::<(int, int)>::empty());
        assert(rs.drop_last() =~= Seq::<(int, int)>::empty());
        assert(covered(l, rs) =~= covered(l, rs.drop_last()) + l.subrange(
            rs.last().0,
            rs.last().1,
        ));
    } else {
        lemma_covered_last(l, rs.drop_first());
        assert(rs.drop_first().drop_last() =~= rs.drop_last().drop_first());
        assert(covered(l, rs) =~= covered(l, rs.drop_last()) + l.subrange(
            rs.last().0,
            rs.last().1,
        ));
    }
}

proof fn lemma_pieces_changes(h: HunkModel, rs: Seq<(int, int)>)
    requires
        forall|k: int|
            0 <= k < rs.len() ==> 0 <= (#[trigger] rs[k]).0 < rs[k].1 <= h.lines.len() && rs[k].1
                == model::island_end(h.lines, rs[k].0) && h.lines[rs[k].0].is_change(),
    ensures
        changes_of(rs.map_values(|r: (int, int)| model::split_piece(h, r))) == covered(
            h.lines,
            rs,
        ),
    decreases rs.len(),
{
    let pieces = rs.map_values(|r: (int, int)| model::split_piece(h, r));
    if rs.len() > 0 {
        let front = rs.drop_last();
        assert forall|k: int| 0 <= k < front.len() implies 0 <= (#[trigger] front[k]).0
            < front[k].1 <= h.lines.len() && front[k].1 == model::island_end(
            h.lines,
            front[k].0,
        ) && h.lines[front[k].0].is_change() by {
            assert(front[k] == rs[k]);
        }
        lemma_pieces_changes(h, front);
        assert(pieces.drop_last() =~= front.map_values(
            |r: (int, int)| model::split_piece(h, r),
        ));
        let last = rs[rs.len() - 1];
        assert(pieces.last() == model::split_piece(h, last));
        lemma_piece_changes(h, last);
        lemma_covered_last(h.lines, rs);
    }
}

/// Splitting a hunk loses no changed line, adds none and keeps their order.
pub proof fn law_split_keeps_changes(h: HunkModel)
    requires
        model::split_pieces(h) is Some,
    ensures
        changes_of(model::split_pieces(h)->0) == changes(h.lines),
{
    let rs = model::islands(h.lines);
    assert forall|k: int| 0 <= k < rs.len() implies 0 <= (#[trigger] rs[k]).0 < rs[k].1
        <= h.lines.len() && rs[k].1 == model::island_end(h.lines, rs[k].0)
        && h.lines[rs[k].0].is_change() by {
        model::lemma_islands_in_range(h.lines, 0, k);
    }
    lemma_pieces_changes(h, rs);
    lemma_islands_cover(h.lines, 0);
    assert(h.lines.skip(0) =~= h.lines);
}

/// The parts of a split hunk cannot be split again.
pub proof fn law_split_goes_to_the_end(h: HunkModel, k: int)
    requires
        model::split_pieces(h) is Some,
        0 <= k < model::split_pieces(h)->0.len(),
    ensures
        model::split_pieces(model::split_pieces(h)->0[k]) is None,
        model::split_pieces(h)->0[k].use_decision is Undecided,
{
    model::lemma_islands_in_range(h.lines, 0, k);
    lemma_piece_changes(h, model::islands(h.lines)[k]);
}

/// Behind an island stand the islands that follow it.
proof fn lemma_islands_behind(l: Seq<LineModel>, i: int, k: int)
    requires
        0 <= i <= l.len(),
        0 <= k < model::islands_from(l, i).len(),
    ensures
        model::islands_from(l, model::islands_from(l, i)[k].1).len() == model::islands_from(
            l,
            i,
        ).len() - k - 1,
    decreases l.len() - i,
{
    if i < l.len() {
        if l[i].is_change() {
            model::lemma_island_end(l, i);
            let e = model::island_end(l, i);
            let rest = model::islands_from(l, e);
            assert(model::islands_from(l, i) == seq![(i, e)] + rest);
            if k > 0 {
                assert(model::islands_from(l, i)[k] == rest[k - 1]);
                lemma_islands_behind(l, e, k - 1);
            }
        } else {
            lemma_islands_behind(l, i + 1, k);
        }
    }
}

/// Context reaches the end of a hunk exactly where no island follows.
proof fn lemma_context_to_the_end(l: Seq<LineModel>, i: int)
    requires
        0 <= i <= l.len(),
    ensures
        model::context_end(l, i) == l.len() <==> model::islands_from(l, i).len() == 0,
    decreases l.len() - i,
{
    model::lemma_context_end(l, i);
    if i < l.len() && l[i] is Context {
        lemma_context_to_the_end(l, i + 1);
    }
}

/// The marks for a missing final newline stay with the last part of a split
/// hunk, and no other part has one.
pub proof fn law_split_keeps_marks_at_the_end(h: HunkModel, k: int)
    requires
        model::split_pieces(h) is Some,
        0 <= k < model::split_pieces(h)->0.len(),
    ensures
        ({
            let parts = model::split_pieces(h)->0;
            &&& parts[k].no_newline_old <==> h.no_newline_old && k == parts.len() - 1
            &&& parts[k].no_newline_new <==> h.no_newline_new && k == parts.len() - 1
        }),
{
    let r = model::islands(h.lines)[k];
    model::lemma_islands_in_range(h.lines, 0, k);
    lemma_islands_behind(h.lines, 0, k);
    lemma_context_to_the_end(h.lines, r.1);
}

/// The counts of the parts of a split hunk are those of their lines.
pub proof fn law_split_counts_fit(h: HunkModel, k: int)
    requires
        model::split_pieces(h) is Some,
        0 <= k < model::split_pieces(h)->0.len(),
    ensures
        ({
            let p = model::split_pieces(h)->0[k];
            &&& p.old_lines == model::old_count(p.lines)
            &&& p.new_lines == model::new_count(p.lines)
            &&& p.header == model::plain_header(
                p.old_start,
                p.old_lines,
                p.new_start,
                p.new_lines,
            )
        }),
{
}

//// Splitting and applying

/// The lines of a file in which the first `c` lines of a hunk are applied at
/// `start`.
spec fn partly(lines: Seq<Seq<char>>, h: HunkModel, start: int, c: int) -> Seq<Seq<char>> {
    lines.take(start) + apply::postimage_of(h.lines.take(c)) + lines.skip(
        start + apply::preimage_of(h.lines.take(c)).len(),
    )
}

/// Whether the old side of a hunk stands at `start`, carriage returns at line
/// ends left aside.
spec fn stands_at(lines: Seq<Seq<char>>, h: HunkModel, start: int) -> bool {
    let pre = apply::preimage_of(h.lines);
    &&& 0 <= start
    &&& start + pre.len() <= lines.len()
    &&& forall|k: int|
        0 <= k < pre.len() ==> apply::bare(lines[start + k]) == apply::bare(#[trigger] pre[k])
}

/// A part of a hunk applies where what is before it, up to a place in its
/// leading context, is applied.
proof fn lemma_part_applies(
    lines: Seq<Seq<char>>,
    h: HunkModel,
    start: int,
    i: int,
    c: int,
    e: int,
    part: HunkModel,
    shift: int,
)
    requires
        0 <= i <= c <= e <= h.lines.len(),
        forall|k: int| i <= k < c ==> (#[trigger] h.lines[k]) is Context,
        stands_at(lines, h, start),
        part.lines == h.lines.subrange(i, e),
        part.old_lines > 0,
        apply::hunk_position(part) + shift == start + apply::postimage_of(h.lines.take(i)).len(),
    ensures
        apply::apply_hunk(partly(lines, h, start, c), part, shift) == Ok::<
            Seq<Seq<char>>,
            Seq<char>,
        >(partly(lines, h, start, e)),
{
    let l = h.lines;
    let pre = apply::preimage_of(l);
    let st = partly(lines, h, start, c);
    let p = start + apply::postimage_of(l.take(i)).len();
    let shared = l.subrange(i, c);
    let fresh = l.subrange(c, e);
    assert(l.take(c) =~= l.take(i) + shared);
    assert(l.take(e) =~= l.take(c) + fresh);
    assert(l.take(e) =~= l.take(i) + part.lines);
    assert(part.lines =~= shared + fresh);
    assert(l =~= l.take(e) + l.skip(e));
    apply::lemma_images_add(l.take(i), shared);
    apply::lemma_images_add(l.take(c), fresh);
    apply::lemma_images_add(l.take(i), part.lines);
    apply::lemma_images_add(shared, fresh);
    apply::lemma_images_add(l.take(e), l.skip(e));
    apply::lemma_context_images(shared);
    let want = apply::preimage_of(part.lines);
    let post = apply::postimage_of(part.lines);
    let done = apply::preimage_of(l.take(c)).len() as int;
    let m = apply::preimage_of(shared).len() as int;
    assert(p + m == start + apply::postimage_of(l.take(c)).len());
    assert(p + want.len() <= st.len());
    apply::lemma_first_mismatch(st, p, want, 0);
    let k = apply::first_mismatch(st, p, want, 0);
    if k < want.len() {
        if k < m {
            assert(st[p + k] == apply::postimage_of(l.take(c))[p + k - start]);
            assert(st[p + k] == apply::postimage_of(shared)[k]);
            assert(want[k] == apply::preimage_of(shared)[k]);
        } else {
            assert(st[p + k] == lines[start + done + (k - m)]);
            assert(want[k] == apply::preimage_of(fresh)[k - m]);
            assert(pre[done + (k - m)] == apply::preimage_of(fresh)[k - m]);
            assert(apply::bare(lines[start + (done + (k - m))]) == apply::bare(
                pre[done + (k - m)],
            ));
        }
    }
    assert(apply::replaced(st, p, want.len() as int, post) =~= partly(lines, h, start, e));
}

/// Whether the parts of a hunk from `i` on, where a run of context starts,
/// are still to be applied, `c` of its lines being done.
spec fn ready(h: HunkModel, i: int, c: int) -> bool {
    let l = h.lines;
    &&& 0 <= i <= c <= model::context_end(l, i) <= l.len()
    &&& model::context_start(l, model::context_end(l, i)) == i
    &&& model::islands_from(l, i).len() == 0 ==> c == l.len()
    &&& 0 < i < l.len() ==> l[i] is Context
    &&& i > 0 || model::islands(l).len() > 1
}

/// How far the lines behind the first `i` lines of a hunk have moved.
spec fn moved(h: HunkModel, i: int, shift: int) -> int {
    shift + apply::postimage_of(h.lines.take(i)).len() - apply::preimage_of(h.lines.take(i)).len()
}

/// The next part of a hunk holds the next island; behind it the rest is ready.
proof fn lemma_next_island(h: HunkModel, i: int, c: int) -> (r: (int, int))
    requires
        ready(h, i, c),
        model::context_end(h.lines, i) < h.lines.len(),
    ensures
        r.0 == model::context_end(h.lines, i),
        i <= r.0 < r.1 <= model::context_end(h.lines, r.1) <= h.lines.len(),
        model::islands_from(h.lines, i) == seq![r] + model::islands_from(h.lines, r.1),
        ready(h, r.1, model::context_end(h.lines, r.1)),
        model::split_piece(h, r).lines == h.lines.subrange(
            i,
            model::context_end(h.lines, r.1),
        ),
        model::split_piece(h, r).old_start == h.old_start + model::old_count(h.lines.take(i)),
        model::split_piece(h, r).old_lines > 0,
{
    let l = h.lines;
    let e = model::context_end(l, i);
    model::lemma_context_end(l, i);
    lemma_skip_context(l, i, e);
    lemma_context_end_stops(l, i);
    model::lemma_island_end(l, e);
    let r1 = model::island_end(l, e);
    let e2 = model::context_end(l, r1);
    model::lemma_context_end(l, r1);
    lemma_context_end_stops(l, r1);
    lemma_context_start_of(l, r1, e2);
    assert(model::islands_from(l, i) == seq![(e, r1)] + model::islands_from(l, r1));
    if model::islands_from(l, r1).len() == 0 {
        lemma_skip_context(l, r1, e2);
    }
    if r1 < l.len() {
        assert(l[r1] is Context);
    }
    let part = model::split_piece(h, (e, r1));
    if e > i {
        assert(part.lines[0] is Context);
        lemma_counted(part.lines, 0);
    } else {
        if r1 == l.len() {
            assert(model::islands_from(l, r1).len() == 0);
        }
        assert(e2 > r1) by {
            assert(l[r1] is Context);
            model::lemma_context_end(l, r1 + 1);
        }
        assert(part.lines[r1 - i] is Context);
        lemma_counted(part.lines, r1 - i);
    }
    (e, r1)
}

proof fn lemma_parts_apply(
    lines: Seq<Seq<char>>,
    h: HunkModel,
    start: int,
    i: int,
    c: int,
    shift: int,
)
    requires
        ready(h, i, c),
        h.old_start >= 1,
        start == h.old_start - 1 + shift,
        stands_at(lines, h, start),
    ensures
        apply::apply_hunks(
            partly(lines, h, start, c),
            model::islands_from(h.lines, i).map_values(
                |r: (int, int)| model::split_piece(h, r),
            ),
            moved(h, i, shift),
        ) == Ok::<Seq<Seq<char>>, Seq<char>>(partly(lines, h, start, h.lines.len() as int)),
    decreases h.lines.len() - i,
{
    let l = h.lines;
    let f = |r: (int, int)| model::split_piece(h, r);
    let rs = model::islands_from(l, i);
    if model::context_end(l, i) == l.len() {
        lemma_context_end_stops(l, i);
        assert(rs.map_values(f) =~= Seq::<HunkModel>::empty());
    } else {
        let r = lemma_next_island(h, i, c);
        let e2 = model::context_end(l, r.1);
        let part = model::split_piece(h, r);
        let rest = model::islands_from(l, r.1);
        assert(rs.map_values(f)[0] == part);
        assert(rs.map_values(f).drop_first() =~= rest.map_values(f));
        apply::lemma_image_counts(l.take(i));
        model::lemma_context_end(l, i);
        lemma_part_applies(lines, h, start, i, c, e2, part, moved(h, i, shift));
        lemma_moved(h, i, r.1, e2, shift);
        lemma_parts_apply(lines, h, start, r.1, e2, shift);
    }
}

/// Context moves the lines behind it nowhere.
proof fn lemma_moved(h: HunkModel, i: int, j: int, e: int, shift: int)
    requires
        0 <= i <= j <= e <= h.lines.len(),
        e == model::context_end(h.lines, j),
    ensures
        moved(h, j, shift) == moved(h, i, shift) + apply::postimage_of(
            h.lines.subrange(i, e),
        ).len() - apply::preimage_of(h.lines.subrange(i, e)).len(),
{
    let l = h.lines;
    model::lemma_context_end(l, j);
    assert(l.take(e) =~= l.take(i) + l.subrange(i, e));
    assert(l.take(e) =~= l.take(j) + l.subrange(j, e));
    let (a, b) = (l.take(i), l.subrange(i, e));
    let (c, d) = (l.take(j), l.subrange(j, e));
    assert(a + b == c + d);
    apply::lemma_images_add(a, b);
    apply::lemma_images_add(c, d);
    apply::lemma_context_images(d);
    assert(apply::postimage_of(a + b).len() == apply::postimage_of(c).len() + d.len());
    assert(apply::preimage_of(a + b).len() == apply::preimage_of(c).len() + d.len());
}

proof fn lemma_context_end_stops(l: Seq<LineModel>, i: int)
    requires
        0 <= i <= l.len(),
    ensures
        model::context_end(l, i) < l.len() ==> l[model::context_end(l, i)].is_change(),
        model::context_end(l, i) == l.len() ==> model::islands_from(l, i).len() == 0,
    decreases l.len() - i,
{
    if i < l.len() && l[i] is Context {
        lemma_context_end_stops(l, i + 1);
    }
}

/// Context between two changes starts where the first of them ends.
proof fn lemma_context_start_of(l: Seq<LineModel>, i: int, e: int)
    requires
        0 < i <= e <= l.len(),
        l[i - 1].is_change(),
        forall|k: int| i <= k < e ==> (#[trigger] l[k]) is Context,
    ensures
        model::context_start(l, e) == i,
    decreases e - i,
{
    if i < e {
        assert(l[e - 1] is Context);
        lemma_context_start_of(l, i, e - 1);
    }
}

proof fn lemma_counted(l: Seq<LineModel>, k: int)
    requires
        0 <= k < l.len(),
        l[k] is Context,
    ensures
        model::old_count(l) > 0,
    decreases l.len(),
{
    if k < l.len() - 1 {
        lemma_counted(l.drop_last(), k);
    }
}

/// Splitting a hunk does not change what it does: the parts, one behind the
/// other, make of a file what the hunk makes of it.
pub proof fn law_split_applies_alike(lines: Seq<Seq<char>>, h: HunkModel, shift: int)
    requires
        model::split_pieces(h) is Some,
        h.old_start >= 1,
        h.old_lines > 0,
        apply::apply_hunk(lines, h, shift) is Ok,
    ensures
        apply::apply_hunks(lines, model::split_pieces(h)->0, shift) == apply::apply_hunk(
            lines,
            h,
            shift,
        ),
{
    let l = h.lines;
    let start = h.old_start - 1 + shift;
    let n = l.len() as int;
    apply::lemma_first_mismatch(lines, start, apply::preimage_of(l), 0);
    assert(stands_at(lines, h, start));
    model::lemma_context_end(l, 0);
    lemma_context_end_stops(l, 0);
    let e = model::context_end(l, 0);
    lemma_leading_context(l, e);
    assert(l.take(0) =~= Seq::<LineModel>::empty());
    assert(l.take(n) =~= l);
    assert(partly(lines, h, start, 0) =~= lines);
    assert(partly(lines, h, start, n) =~= apply::apply_hunk(lines, h, shift)->Ok_0);
    lemma_parts_apply(lines, h, start, 0, 0, shift);
}

proof fn lemma_leading_context(l: Seq<LineModel>, e: int)
    requires
        0 <= e <= l.len(),
        forall|k: int| 0 <= k < e ==> (#[trigger] l[k]) is Context,
    ensures
        model::context_start(l, e) == 0,
    decreases e,
{
    if e > 0 {
        assert(l[e - 1] is Context);
        lemma_leading_context(l, e - 1);
    }
}

//// Writing and reading patches

pub proof fn lemma_scan_add(st: ScanModel, a: Seq<Seq<char>>, b: Seq<Seq<char>>)
    ensures
        model::scan(st, a + b) == match model::scan(st, a) {
            Ok(next) => model::scan(next, b),
            Err(e) => Err(e),
        },
    decreases a.len(),
{
    if a.len() == 0 {
        assert(a + b =~= b);
    } else {
        assert((a + b)[0] == a[0]);
        assert((a + b).drop_first() =~= a.drop_first() + b);
        match model::scan_line(st, text::trim_end_char(a[0], '\n')) {
            Ok(next) => lemma_scan_add(next, a.drop_first(), b),
            Err(_) => {},
        }
    }
}

/// Whether a text is made of whole lines.
pub open spec fn is_whole(t: Seq<char>) -> bool {
    t.len() == 0 || t.last() == '\n'
}

pub proof fn lemma_split_whole(a: Seq<char>, b: Seq<char>)
    requires
        is_whole(a),
    ensures
        text::split_keep(a + b) == text::split_keep(a) + text::split_keep(b),
    decreases a.len(),
{
    if a.len() == 0 {
        assert(a + b =~= b);
        assert(text::split_keep(a) + text::split_keep(b) =~= text::split_keep(b));
    } else {
        text::lemma_find_char(a, '\n');
        assert(a[a.len() - 1] == '\n');
        assert(a.contains('\n'));
        let k = text::find_char(a, '\n');
        let row = a.take(k);
        let rest = a.skip(k + 1);
        assert(!row.contains('\n'));
        assert(a =~= row.push('\n') + rest);
        assert(a + b =~= row.push('\n') + (rest + b));
        text::lemma_split_keep_line(row, rest);
        text::lemma_split_keep_line(row, rest + b);
        assert(is_whole(rest)) by {
            if rest.len() > 0 {
                assert(rest.last() == a.last());
            }
        }
        lemma_split_whole(rest, b);
        assert(text::split_keep(a + b) =~= text::split_keep(a) + text::split_keep(b));
    }
}

pub proof fn lemma_scan_whole(st: ScanModel, a: Seq<char>, b: Seq<char>)
    requires
        is_whole(a),
    ensures
        model::scan(st, text::split_keep(a + b)) == match model::scan(st, text::split_keep(a)) {
            Ok(next) => model::scan(next, text::split_keep(b)),
            Err(e) => Err(e),
        },
{
    lemma_split_whole(a, b);
    lemma_scan_add(st, text::split_keep(a), text::split_keep(b));
}

pub proof fn lemma_scan_row(st: ScanModel, row: Seq<char>)
    requires
        !row.contains('\n'),
    ensures
        model::scan(st, text::split_keep(row.push('\n'))) == model::scan_line(st, row),
{
    text::lemma_split_keep_line(row, Seq::empty());
    assert(row.push('\n') + Seq::<char>::empty() =~= row.push('\n'));
    let rows = text::split_keep(row.push('\n'));
    assert(text::split_keep(Seq::<char>::empty()) =~= Seq::<Seq<char>>::empty());
    assert(rows =~= seq![row.push('\n')]);
    assert(rows.drop_first() =~= Seq::<Seq<char>>::empty());
    assert(row.push('\n').drop_last() =~= row);
    assert(text::trim_end_char(row, '\n') == row) by {
        if row.len() > 0 {
            assert(row.contains(row.last()));
        }
    }
    assert(text::trim_end_char(rows[0], '\n') == row);
    if let Ok(next) = model::scan_line(st, row) {
        assert(model::scan(next, rows.drop_first()) == Ok::<ScanModel, model::ParseErrorModel>(
            next,
        ));
    }
}

/// A hunk without its lines, its marks and its decision.
pub open spec fn bare_hunk(h: HunkModel) -> HunkModel {
    HunkModel {
        lines: Seq::empty(),
        no_newline_old: false,
        no_newline_new: false,
        use_decision: HunkUse::Undecided,
        ..h
    }
}

/// Whether a patch can say all of a hunk: its header says where it is, no line
/// is broken, and a mark for a missing final newline is for the side that its
/// last line is of.
pub open spec fn is_sound(h: HunkModel) -> bool {
    &&& !h.header.contains('\n')
    &&& model::hunk_header(h.header) == Ok::<HunkModel, model::ParseErrorModel>(bare_hunk(h))
    &&& forall|i: int| 0 <= i < h.lines.len() ==> !(#[trigger] h.lines[i]).text().contains('\n')
    &&& h.no_newline_new ==> h.lines.len() > 0 && h.lines.last() is Insert
    &&& h.no_newline_old ==> !(h.lines.len() > 0 && h.lines.last() is Insert)
}

/// A section whose last hunk has more lines.
spec fn extended(s: SectionModel, lines: Seq<LineModel>) -> SectionModel {
    let h = s.hunks.last();
    SectionModel {
        hunks: s.hunks.update(
            s.hunks.len() - 1,
            HunkModel { lines: h.lines + lines, ..h },
        ),
        ..s
    }
}

proof fn lemma_scan_hunk_line(files: Seq<FileModel>, s: SectionModel, ai: bool, l: LineModel)
    requires
        s.hunks.len() > 0,
        !l.text().contains('\n'),
    ensures
        model::scan_line(
            ScanModel { files, section: Some(s), after_insert: ai },
            seq![l.marker()] + l.text(),
        ) == Ok::<ScanModel, model::ParseErrorModel>(
            ScanModel { files, section: Some(s.with_line(l)), after_insert: l is Insert },
        ),
{
    let row = seq![l.marker()] + l.text();
    assert(row[0] == l.marker());
    assert(row.drop_first() =~= l.text());
    reveal_strlit("diff --git ");
    reveal_strlit("@@ ");
    reveal_strlit("\\ No newline at end of file");
    assert("diff --git "@[0] == 'd' && "@@ "@[0] == '@'
        && "\\ No newline at end of file"@[0] == '\\');
    assert("diff --git "@.len() == 11 && "@@ "@.len() == 3
        && "\\ No newline at end of file"@.len() == 27);
    assert(!"diff --git "@.is_prefix_of(row));
    assert(!"@@ "@.is_prefix_of(row));
    assert(row != "\\ No newline at end of file"@);
}

proof fn lemma_row_of_line(l: LineModel)
    requires
        !l.text().contains('\n'),
    ensures
        !(seq![l.marker()] + l.text()).contains('\n'),
{
    let row = seq![l.marker()] + l.text();
    if row.contains('\n') {
        let k = choose|k: int| 0 <= k < row.len() && row[k] == '\n';
        if k > 0 {
            assert(l.text()[k - 1] == '\n');
        }
    }
}

proof fn lemma_lines_text_whole(lines: Seq<LineModel>)
    ensures
        is_whole(model::lines_text(lines)),
{
}

proof fn lemma_scan_lines(files: Seq<FileModel>, s: SectionModel, lines: Seq<LineModel>)
    requires
        s.hunks.len() > 0,
        forall|i: int| 0 <= i < lines.len() ==> !(#[trigger] lines[i]).text().contains('\n'),
    ensures
        model::scan(
            ScanModel { files, section: Some(s), after_insert: false },
            text::split_keep(model::lines_text(lines)),
        ) == Ok::<ScanModel, model::ParseErrorModel>(
            ScanModel {
                files,
                section: Some(extended(s, lines)),
                after_insert: lines.len() > 0 && lines.last() is Insert,
            },
        ),
    decreases lines.len(),
{
    let st = ScanModel { files, section: Some(s), after_insert: false };
    let h = s.hunks.last();
    if lines.len() == 0 {
        assert(text::split_keep(model::lines_text(lines)) =~= Seq::<Seq<char>>::empty());
        assert(h.lines + lines =~= h.lines);
        assert(extended(s, lines).hunks =~= s.hunks);
    } else {
        let front = lines.drop_last();
        let l = lines.last();
        assert forall|i: int| 0 <= i < front.len() implies !(
        #[trigger] front[i]).text().contains('\n') by {
            assert(front[i] == lines[i]);
        }
        lemma_scan_lines(files, s, front);
        let a = model::lines_text(front);
        let row = seq![l.marker()] + l.text();
        assert(!lines[lines.len() - 1].text().contains('\n'));
        assert(model::lines_text(lines) =~= a + row.push('\n'));
        lemma_lines_text_whole(front);
        lemma_scan_whole(st, a, row.push('\n'));
        let ai = front.len() > 0 && front.last() is Insert;
        let mid = ScanModel { files, section: Some(extended(s, front)), after_insert: ai };
        lemma_row_of_line(l);
        lemma_scan_row(mid, row);
        lemma_scan_hunk_line(files, extended(s, front), ai, l);
        let e = extended(s, front);
        assert(e.hunks.last() == HunkModel { lines: h.lines + front, ..h });
        assert((h.lines + front).push(l) =~= h.lines + lines);
        assert(e.with_line(l).hunks =~= extended(s, lines).hunks);
        assert(e.with_line(l) =~= extended(s, lines));
    }
}

proof fn lemma_scan_mark(files: Seq<FileModel>, s: SectionModel, ai: bool, missing: bool)
    requires
        s.hunks.len() > 0,
    ensures
        is_whole(model::no_newline_mark(missing)),
        model::scan(
            ScanModel { files, section: Some(s), after_insert: ai },
            text::split_keep(model::no_newline_mark(missing)),
        ) == Ok::<ScanModel, model::ParseErrorModel>(
            ScanModel {
                files,
                section: Some(
                    if missing {
                        s.with_no_newline(ai)
                    } else {
                        s
                    },
                ),
                after_insert: ai,
            },
        ),
{
    let st = ScanModel { files, section: Some(s), after_insert: ai };
    if missing {
        reveal_strlit("\\ No newline at end of file\n");
        reveal_strlit("\\ No newline at end of file");
        reveal_strlit("diff --git ");
        reveal_strlit("@@ ");
        let row = "\\ No newline at end of file"@;
        assert("\\ No newline at end of file\n"@ =~= row.push('\n'));
        assert(!row.contains('\n'));
        lemma_scan_row(st, row);
        assert("diff --git "@.len() == 11 && "diff --git "@[0] == 'd');
        assert("@@ "@.len() == 3 && "@@ "@[0] == '@');
        assert(row.len() == 27 && row[0] == '\\');
        assert(!"diff --git "@.is_prefix_of(row));
        assert(!"@@ "@.is_prefix_of(row));
    } else {
        assert(text::split_keep(Seq::<char>::empty()) =~= Seq::<Seq<char>>::empty());
    }
}

/// A hunk that a patch brought: nothing is decided on it.
pub open spec fn as_read(h: HunkModel) -> HunkModel {
    HunkModel { use_decision: HunkUse::Undecided, ..h }
}

proof fn lemma_scan_hunk(files: Seq<FileModel>, s: SectionModel, ai: bool, h: HunkModel)
    requires
        is_sound(h),
    ensures
        ({
            let after = model::scan(
                ScanModel { files, section: Some(s), after_insert: ai },
                text::split_keep(model::hunk_text(h)),
            );
            &&& after matches Ok(st)
            &&& st.files == files
            &&& st.section == Some(SectionModel { hunks: s.hunks.push(as_read(h)), ..s })
        }),
        is_whole(model::hunk_text(h)),
{
    let st = ScanModel { files, section: Some(s), after_insert: ai };
    let head = model::with_newline(h.header);
    reveal_strlit("@@ ");
    reveal_strlit("diff --git ");
    assert("@@ "@.len() == 3 && "@@ "@[0] == '@');
    assert("diff --git "@.len() == 11 && "diff --git "@[0] == 'd');
    assert("@@ "@.is_prefix_of(h.header));
    assert(h.header.len() >= 3 && h.header[0] == '@') by {
        assert(h.header.take(3)[0] == "@@ "@[0]);
    }
    assert(h.header.last() != '\n') by {
        assert(h.header.contains(h.header.last()));
    }
    assert(head == h.header.push('\n'));
    assert(!"diff --git "@.is_prefix_of(h.header));
    lemma_scan_row(st, h.header);
    let s1 = SectionModel { hunks: s.hunks.push(bare_hunk(h)), ..s };
    let st1 = ScanModel { files, section: Some(s1), after_insert: false };
    assert(model::scan(st, text::split_keep(head)) == Ok::<ScanModel, model::ParseErrorModel>(
        st1,
    ));
    let body = model::lines_text(h.lines);
    let m1 = model::no_newline_mark(h.no_newline_old);
    let m2 = model::no_newline_mark(h.no_newline_new);
    assert(model::hunk_text(h) =~= head + (body + (m1 + m2)));
    lemma_scan_whole(st, head, body + (m1 + m2));
    lemma_lines_text_whole(h.lines);
    lemma_scan_lines(files, s1, h.lines);
    lemma_scan_whole(st1, body, m1 + m2);
    let ai2 = h.lines.len() > 0 && h.lines.last() is Insert;
    let s2 = extended(s1, h.lines);
    let st2 = ScanModel { files, section: Some(s2), after_insert: ai2 };
    lemma_scan_mark(files, s2, ai2, h.no_newline_old);
    lemma_scan_whole(st2, m1, m2);
    let s3 = if h.no_newline_old {
        s2.with_no_newline(ai2)
    } else {
        s2
    };
    assert(s3.hunks.len() > 0);
    lemma_scan_mark(files, s3, ai2, h.no_newline_new);
    let s4 = if h.no_newline_new {
        s3.with_no_newline(ai2)
    } else {
        s3
    };
    let goal = SectionModel { hunks: s.hunks.push(as_read(h)), ..s };
    let n = s.hunks.len() as int;
    assert(s2.hunks[n].lines =~= h.lines);
    assert(s2.hunks[n] =~= HunkModel { lines: h.lines, ..bare_hunk(h) });
    assert(s4.hunks[n] =~= as_read(h));
    assert(s4.hunks =~= goal.hunks);
    assert(s4 =~= goal);
    let whole = head + (body + (m1 + m2));
    if whole.len() > 0 {
        assert(is_whole(m1 + m2)) by {
            if m2.len() > 0 {
                assert((m1 + m2).last() == m2.last());
            } else {
                assert(m1 + m2 =~= m1);
            }
        }
        assert(is_whole(body + (m1 + m2))) by {
            if (m1 + m2).len() > 0 {
                assert((body + (m1 + m2)).last() == (m1 + m2).last());
            } else {
                assert(body + (m1 + m2) =~= body);
            }
        }
        if (body + (m1 + m2)).len() > 0 {
            assert(whole.last() == (body + (m1 + m2)).last());
        } else {
            assert(whole =~= head);
        }
    }
}

/// The hunks marked for use, as a patch brings them.
pub open spec fn used_hunks(hunks: Seq<HunkModel>) -> Seq<HunkModel>
    decreases hunks.len(),
{
    if hunks.len() == 0 {
        Seq::empty()
    } else if hunks.last().use_decision is Use {
        used_hunks(hunks.drop_last()).push(as_read(hunks.last()))
    } else {
        used_hunks(hunks.drop_last())
    }
}

proof fn lemma_scan_used(files: Seq<FileModel>, s: SectionModel, ai: bool, hunks: Seq<HunkModel>)
    requires
        forall|i: int|
            0 <= i < hunks.len() && (#[trigger] hunks[i]).use_decision is Use ==> is_sound(
                hunks[i],
            ),
    ensures
        ({
            let after = model::scan(
                ScanModel { files, section: Some(s), after_insert: ai },
                text::split_keep(model::used_text(hunks)),
            );
            &&& after matches Ok(st)
            &&& st.files == files
            &&& st.section == Some(SectionModel { hunks: s.hunks + used_hunks(hunks), ..s })
        }),
        is_whole(model::used_text(hunks)),
    decreases hunks.len(),
{
    let st = ScanModel { files, section: Some(s), after_insert: ai };
    if hunks.len() == 0 {
        assert(text::split_keep(model::used_text(hunks)) =~= Seq::<Seq<char>>::empty());
        assert(s.hunks + used_hunks(hunks) =~= s.hunks);
    } else {
        let front = hunks.drop_last();
        let h = hunks.last();
        assert forall|i: int|
            0 <= i < front.len() && (#[trigger] front[i]).use_decision is Use implies is_sound(
            front[i],
        ) by {
            assert(front[i] == hunks[i]);
        }
        lemma_scan_used(files, s, ai, front);
        if h.use_decision is Use {
            assert(is_sound(hunks[hunks.len() - 1]));
            let a = model::used_text(front);
            let mid = model::scan(st, text::split_keep(a))->Ok_0;
            let s1 = SectionModel { hunks: s.hunks + used_hunks(front), ..s };
            lemma_scan_whole(st, a, model::hunk_text(h));
            lemma_scan_hunk(files, s1, mid.after_insert, h);
            assert(mid == ScanModel {
                files,
                section: Some(s1),
                after_insert: mid.after_insert,
            });
            assert(s1.hunks.push(as_read(h)) =~= s.hunks + used_hunks(hunks));
            if model::hunk_text(h).len() > 0 {
                assert(model::used_text(hunks).last() == model::hunk_text(h).last());
            } else {
                assert(model::used_text(hunks) =~= a);
            }
        }
    }
}

/// The section that a header of whole lines opens, where it opens one.
pub open spec fn header_section(header: Seq<char>) -> Option<SectionModel> {
    match model::scan(ScanModel::start(), text::split_keep(header)) {
        Ok(st) => if st.files.len() == 0 && is_whole(header) {
            st.section
        } else {
            None
        },
        Err(_) => None,
    }
}

/// The patch that is written for a file is read back as its section with the
/// hunks that are marked for use, and no others.
///
/// A hunk that lacks the final newline on both sides is left out: a patch puts
/// both marks behind its last line.
pub proof fn law_patch_round_trip(f: FileModel)
    requires
        header_section(f.header) is Some,
        header_section(f.header)->0.hunks.len() == 0,
        f.header.len() > 0,
        forall|i: int|
            0 <= i < f.hunks.len() && (#[trigger] f.hunks[i]).use_decision is Use ==> is_sound(
                f.hunks[i],
            ),
    ensures
        model::unified_diff(model::file_patch(f)) == Ok::<Seq<FileModel>, model::ParseErrorModel>(
            seq![
                SectionModel {
                    hunks: used_hunks(f.hunks),
                    ..header_section(f.header)->0
                }.close(),
            ],
        ),
{
    let start = ScanModel::start();
    let st = model::scan(start, text::split_keep(f.header))->Ok_0;
    let s = st.section->0;
    assert(f.header.last() == '\n');
    assert(model::file_patch(f) =~= f.header + model::used_text(f.hunks));
    lemma_scan_whole(start, f.header, model::used_text(f.hunks));
    lemma_scan_used(st.files, s, st.after_insert, f.hunks);
    assert(st == ScanModel {
        files: st.files,
        section: Some(s),
        after_insert: st.after_insert,
    });
    let end = model::scan(start, text::split_keep(model::file_patch(f)))->Ok_0;
    assert(s.hunks + used_hunks(f.hunks) =~= used_hunks(f.hunks));
    assert(end.all_files() =~= seq![
        SectionModel { hunks: used_hunks(f.hunks), ..s }.close(),
    ]);
}

//// Reading and writing patches

/// A file with every hunk marked for use.
pub open spec fn all_used(f: FileModel) -> FileModel {
    FileModel { hunks: marked_used(f.hunks), ..f }
}

/// The hunks, each marked for use.
pub open spec fn marked_used(hunks: Seq<HunkModel>) -> Seq<HunkModel> {
    hunks.map_values(|h: HunkModel| HunkModel { use_decision: HunkUse::Use, ..h })
}

/// The patches of files, one behind the other.
pub open spec fn patch_text(files: Seq<FileModel>) -> Seq<char>
    decreases files.len(),
{
    if files.len() == 0 {
        Seq::empty()
    } else {
        patch_text(files.drop_last()) + model::file_patch(files.last())
    }
}

/// Whether the line opens a file section.
pub open spec fn opens_file(row: Seq<char>) -> bool {
    "diff --git "@.is_prefix_of(row)
}

/// Whether the line opens a hunk.
pub open spec fn opens_hunk(row: Seq<char>) -> bool {
    "@@ "@.is_prefix_of(row)
}

/// Whether row `i` stands among the hunks of a file: behind a line that opens a
/// hunk, with no file opened in between.
pub open spec fn among_hunks(rows: Seq<Seq<char>>, i: int) -> bool {
    exists|j: int|
        0 <= j < i && #[trigger] opens_hunk(rows[j]) && forall|k: int|
            j < k < i ==> !#[trigger] opens_file(rows[k])
}

/// Whether a patch writes each of its lines as it stands. A mark for a missing
/// final newline moves to the end of its hunk, and an empty line among the
/// hunks is written as the empty context line it is read as.
pub open spec fn writes_lines_whole(rows: Seq<Seq<char>>) -> bool {
    &&& forall|i: int| 0 <= i < rows.len() ==> #[trigger] rows[i] != "\\ No newline at end of file\n"@
    &&& forall|i: int|
        0 <= i < rows.len() && #[trigger] rows[i] == "\n"@ ==> !among_hunks(rows, i)
}

spec fn section_text(s: SectionModel) -> Seq<char> {
    s.header + model::used_text(marked_used(s.hunks))
}

spec fn scan_text(st: ScanModel) -> Seq<char> {
    patch_text(st.files.map_values(|f: FileModel| all_used(f))) + match st.section {
        Some(s) => section_text(s),
        None => Seq::empty(),
    }
}

/// Whether a section has a header of whole lines, and hunks without marks.
spec fn is_markless(s: SectionModel) -> bool {
    &&& s.header.len() > 0
    &&& s.header.last() == '\n'
    &&& forall|i: int|
        0 <= i < s.hunks.len() ==> !(#[trigger] s.hunks[i]).no_newline_old
            && !s.hunks[i].no_newline_new
}

proof fn lemma_section_file(s: SectionModel)
    requires
        is_markless(s),
    ensures
        model::file_patch(all_used(s.close())) == section_text(s),
{
    assert(all_used(s.close()).hunks.len() == s.hunks.len());
}

proof fn lemma_used_push(hunks: Seq<HunkModel>, h: HunkModel)
    ensures
        model::used_text(marked_used(hunks.push(h))) == model::used_text(marked_used(hunks))
            + model::hunk_text(h),
{
    let all = marked_used(hunks.push(h));
    assert(all.drop_last() =~= marked_used(hunks));
    assert(all.last() == HunkModel { use_decision: HunkUse::Use, ..h });
}

proof fn lemma_section_line_text(s: SectionModel, l: LineModel)
    requires
        is_markless(s),
        s.hunks.len() > 0,
    ensures
        section_text(s.with_line(l)) == section_text(s) + (seq![l.marker()] + l.text()).push('\n'),
        is_markless(s.with_line(l)),
{
    let front = s.hunks.drop_last();
    let h = s.hunks[s.hunks.len() - 1];
    let g = HunkModel { lines: h.lines.push(l), ..h };
    assert(s.hunks =~= front.push(h));
    assert(s.with_line(l).hunks =~= front.push(g));
    lemma_used_push(front, h);
    lemma_used_push(front, g);
    assert(h.lines.push(l).drop_last() =~= h.lines);
    let x = (seq![l.marker()] + l.text()).push('\n');
    let body = model::lines_text(h.lines);
    let head = model::with_newline(h.header);
    lemma_marked_line(body, l.marker(), l.text());
    assert(head + body + Seq::<char>::empty() + Seq::<char>::empty() =~= head + body);
    assert(head + (body + x) + Seq::<char>::empty() + Seq::<char>::empty() =~= head + (body + x));
    lemma_behind_all(s.header, model::used_text(marked_used(front)), head, body, x);
}

proof fn lemma_marked_line(body: Seq<char>, c: char, t: Seq<char>)
    ensures
        (body.push(c) + t).push('\n') == body + (seq![c] + t).push('\n'),
{
    assert((body.push(c) + t).push('\n') =~= body + (seq![c] + t).push('\n'));
}

proof fn lemma_behind_all(a: Seq<char>, b: Seq<char>, c: Seq<char>, d: Seq<char>, x: Seq<char>)
    ensures
        a + (b + (c + (d + x))) == a + (b + (c + d)) + x,
{
    assert(a + (b + (c + (d + x))) =~= a + (b + (c + d)) + x);
}

proof fn lemma_section_hunk_text(s: SectionModel, h: HunkModel)
    requires
        is_markless(s),
        h.lines.len() == 0,
        !h.no_newline_old,
        !h.no_newline_new,
        !h.header.contains('\n'),
    ensures
        section_text(SectionModel { hunks: s.hunks.push(h), ..s }) == section_text(s)
            + h.header.push('\n'),
        is_markless(SectionModel { hunks: s.hunks.push(h), ..s }),
{
    lemma_used_push(s.hunks, h);
    assert(model::with_newline(h.header) == h.header.push('\n')) by {
        if h.header.len() > 0 {
            assert(h.header.contains(h.header.last()));
        }
    }
    assert(model::hunk_text(h) =~= h.header.push('\n'));
    assert(section_text(SectionModel { hunks: s.hunks.push(h), ..s }) =~= section_text(s)
        + h.header.push('\n'));
}

/// One more line of a patch is one more line of what is written for it.
proof fn lemma_scan_line_text(st: ScanModel, line: Seq<char>)
    requires
        st.section matches Some(s) ==> is_markless(s),
        st.section is None ==> st.files.len() == 0 && opens_file(line),
        !line.contains('\n'),
        line != "\\ No newline at end of file"@,
        st.section matches Some(s) ==> s.hunks.len() > 0 ==> line.len() > 0 || opens_file(line),
        model::scan_line(st, line) is Ok,
    ensures
        ({
            let next = model::scan_line(st, line)->Ok_0;
            &&& scan_text(next) == scan_text(st) + line.push('\n')
            &&& next.section matches Some(s)
            &&& is_markless(s)
            &&& s.hunks.len() > 0 ==> opens_hunk(line) || (!opens_file(line) && st.section->0.hunks.len()
                > 0)
        }),
{
    let next = model::scan_line(st, line)->Ok_0;
    let used = |f: FileModel| all_used(f);
    if opens_file(line) {
        let s = SectionModel::open(line);
        assert(marked_used(s.hunks) =~= Seq::<HunkModel>::empty());
        assert(section_text(s) =~= line.push('\n'));
        if let Some(o) = st.section {
            lemma_section_file(o);
            let files = st.files.map_values(used);
            let more = st.files.push(o.close()).map_values(used);
            assert(more =~= files.push(all_used(o.close())));
            assert(more.drop_last() =~= files);
            assert(patch_text(more) == patch_text(files) + section_text(o));
        }
        assert(scan_text(next) =~= scan_text(st) + line.push('\n'));
    } else {
        let s = st.section->0;
        if opens_hunk(line) {
            lemma_section_hunk_text(s, model::hunk_header(line)->Ok_0);
        } else if s.hunks.len() == 0 {
            let t = s.with_header_line(line);
            assert(marked_used(s.hunks) =~= Seq::<HunkModel>::empty());
            assert(marked_used(t.hunks) =~= Seq::<HunkModel>::empty());
            assert(section_text(t) =~= section_text(s) + line.push('\n'));
        } else {
            let rest = line.drop_first();
            assert(line =~= seq![line[0]] + rest);
            let l = if line[0] == ' ' {
                LineModel::Context(rest)
            } else if line[0] == '-' {
                LineModel::Delete(rest)
            } else {
                LineModel::Insert(rest)
            };
            lemma_section_line_text(s, l);
        }
        assert(scan_text(next) =~= scan_text(st) + line.push('\n'));
    }
}

/// The rows, one behind the other.
spec fn whole_of(rows: Seq<Seq<char>>) -> Seq<char>
    decreases rows.len(),
{
    if rows.len() == 0 {
        Seq::empty()
    } else {
        whole_of(rows.drop_last()) + rows.last()
    }
}

proof fn lemma_whole_front(x: Seq<char>, rows: Seq<Seq<char>>)
    ensures
        whole_of(seq![x] + rows) == x + whole_of(rows),
    decreases rows.len(),
{
    let all = seq![x] + rows;
    if rows.len() == 0 {
        reveal_with_fuel(whole_of, 2);
        assert(all.drop_last() =~= Seq::<Seq<char>>::empty());
        assert(whole_of(all) =~= x + whole_of(rows));
    } else {
        lemma_whole_front(x, rows.drop_last());
        assert(all.drop_last() =~= seq![x] + rows.drop_last());
        assert(whole_of(all) =~= x + whole_of(rows));
    }
}

/// A text of whole lines is its rows, each of which ends in its only newline.
proof fn lemma_rows_of_whole(t: Seq<char>)
    requires
        is_whole(t),
    ensures
        whole_of(text::split_keep(t)) == t,
        forall|i: int|
            0 <= i < text::split_keep(t).len() ==> {
                let row = #[trigger] text::split_keep(t)[i];
                row.len() > 0 && row.last() == '\n' && !row.drop_last().contains('\n')
            },
    decreases t.len(),
{
    if t.len() > 0 {
        assert(t.contains(t.last()));
        text::lemma_find_char(t, '\n');
        let k = text::find_char(t, '\n');
        let a = t.take(k);
        let rest = t.skip(k + 1);
        assert(!a.contains('\n'));
        assert(t =~= a.push('\n') + rest);
        assert(is_whole(rest)) by {
            if rest.len() > 0 {
                assert(rest.last() == t.last());
            }
        }
        text::lemma_split_keep_line(a, rest);
        lemma_rows_of_whole(rest);
        lemma_whole_front(a.push('\n'), text::split_keep(rest));
        assert(a.push('\n').drop_last() =~= a);
        assert forall|i: int| 0 <= i < text::split_keep(t).len() implies {
            let row = #[trigger] text::split_keep(t)[i];
            row.len() > 0 && row.last() == '\n' && !row.drop_last().contains('\n')
        } by {
            if i > 0 {
                assert(text::split_keep(t)[i] == text::split_keep(rest)[i - 1]);
            }
        }
    }
}

pub proof fn lemma_row_line(row: Seq<char>)
    requires
        row.len() > 0,
        row.last() == '\n',
        !row.drop_last().contains('\n'),
    ensures
        text::trim_end_char(row, '\n') == row.drop_last(),
        row == row.drop_last().push('\n'),
        opens_file(row) == opens_file(row.drop_last()),
        opens_hunk(row) == opens_hunk(row.drop_last()),
        row == "\n"@ <==> row.drop_last().len() == 0,
        row == "\\ No newline at end of file\n"@ <==> row.drop_last()
            == "\\ No newline at end of file"@,
{
    let a = row.drop_last();
    reveal_strlit("diff --git ");
    reveal_strlit("@@ ");
    reveal_strlit("\n");
    reveal_strlit("\\ No newline at end of file");
    reveal_strlit("\\ No newline at end of file\n");
    assert(row =~= a.push('\n'));
    assert(text::trim_end_char(a, '\n') == a) by {
        if a.len() > 0 {
            assert(a.contains(a.last()));
        }
    }
    assert("\\ No newline at end of file\n"@ =~= "\\ No newline at end of file"@.push('\n'));
    assert("\n"@ =~= seq!['\n']);
    lemma_prefix_of_line("diff --git "@, a);
    lemma_prefix_of_line("@@ "@, a);
    if a.len() == 0 {
        assert(row =~= "\n"@);
    }
    if row == "\\ No newline at end of file\n"@ {
        assert(a =~= "\\ No newline at end of file"@);
    }
}

proof fn lemma_prefix_of_line(p: Seq<char>, a: Seq<char>)
    requires
        p.len() > 0,
        p.last() != '\n',
    ensures
        p.is_prefix_of(a.push('\n')) == p.is_prefix_of(a),
{
    let row = a.push('\n');
    if p.len() <= a.len() {
        assert(row.subrange(0, p.len() as int) =~= a.subrange(0, p.len() as int));
    } else if p.is_prefix_of(row) {
        assert(p.last() == row[p.len() - 1]);
    }
}

proof fn lemma_scan_prefix(rows: Seq<Seq<char>>, i: int)
    requires
        0 <= i < rows.len(),
        model::scan(ScanModel::start(), rows) is Ok,
    ensures
        model::scan(ScanModel::start(), rows.take(i)) is Ok,
        model::scan(ScanModel::start(), rows.take(i + 1)) is Ok,
        model::scan(ScanModel::start(), rows.take(i + 1)) == model::scan_line(
            model::scan(ScanModel::start(), rows.take(i))->Ok_0,
            text::trim_end_char(rows[i], '\n'),
        ),
{
    let start = ScanModel::start();
    let one = seq![rows[i]];
    assert(rows =~= rows.take(i) + rows.skip(i));
    assert(rows =~= rows.take(i + 1) + rows.skip(i + 1));
    lemma_scan_add(start, rows.take(i), rows.skip(i));
    lemma_scan_add(start, rows.take(i + 1), rows.skip(i + 1));
    assert(rows.take(i + 1) =~= rows.take(i) + one);
    lemma_scan_add(start, rows.take(i), one);
    assert(one.drop_first() =~= Seq::<Seq<char>>::empty());
    let st = model::scan(start, rows.take(i))->Ok_0;
    if let Ok(next) = model::scan_line(st, text::trim_end_char(rows[i], '\n')) {
        assert(model::scan(next, one.drop_first()) == Ok::<ScanModel, model::ParseErrorModel>(
            next,
        ));
    }
}

proof fn lemma_text_kept(rows: Seq<Seq<char>>, i: int)
    requires
        0 <= i <= rows.len(),
        rows.len() > 0,
        opens_file(rows[0]),
        writes_lines_whole(rows),
        forall|j: int|
            0 <= j < rows.len() ==> {
                let row = #[trigger] rows[j];
                row.len() > 0 && row.last() == '\n' && !row.drop_last().contains('\n')
            },
        model::scan(ScanModel::start(), rows) is Ok,
    ensures
        ({
            let after = model::scan(ScanModel::start(), rows.take(i));
            &&& after matches Ok(st)
            &&& scan_text(st) == whole_of(rows.take(i))
            &&& i > 0 ==> st.section is Some
            &&& i == 0 ==> st == ScanModel::start()
            &&& st.section matches Some(s) ==> is_markless(s) && (s.hunks.len() > 0 ==> among_hunks(
                rows,
                i,
            ))
        }),
    decreases i,
{
    if i == 0 {
        assert(rows.take(0) =~= Seq::<Seq<char>>::empty());
        assert(ScanModel::start().files.map_values(|f: FileModel| all_used(f)) =~= Seq::<
            FileModel,
        >::empty());
        assert(scan_text(ScanModel::start()) =~= Seq::<char>::empty());
    } else {
        let p = i - 1;
        lemma_text_kept(rows, p);
        lemma_scan_prefix(rows, p);
        let st = model::scan(ScanModel::start(), rows.take(p))->Ok_0;
        let row = rows[p];
        lemma_row_line(row);
        lemma_scan_line_text(st, row.drop_last());
        let next = model::scan(ScanModel::start(), rows.take(i))->Ok_0;
        assert(rows.take(i).drop_last() =~= rows.take(p));
        assert(rows.take(i).last() == row);
        assert(scan_text(next) =~= whole_of(rows.take(i)));
        if next.section->0.hunks.len() > 0 {
            if opens_hunk(row) {
                assert(opens_hunk(rows[p]));
                assert(among_hunks(rows, i));
            } else {
                let j = choose|j: int|
                    0 <= j < p && #[trigger] opens_hunk(rows[j]) && forall|k: int|
                        j < k < p ==> !#[trigger] opens_file(rows[k]);
                assert(forall|k: int| j < k < i ==> !#[trigger] opens_file(rows[k]));
                assert(among_hunks(rows, i));
            }
        }
    }
}

/// A patch that is read, with every hunk marked for use, is written as it was.
///
/// A patch with a mark for a missing final newline is left out, and so is one
/// with an empty line among its hunks: neither is written as it stands.
pub proof fn law_read_patch_is_written_back(t: Seq<char>)
    requires
        opens_file(t),
        t.last() == '\n',
        writes_lines_whole(text::split_keep(t)),
        model::unified_diff(t) is Ok,
    ensures
        patch_text(model::unified_diff(t)->Ok_0.map_values(|f: FileModel| all_used(f))) == t,
{
    let rows = text::split_keep(t);
    reveal_strlit("diff --git ");
    assert(t.len() > 0);
    lemma_rows_of_whole(t);
    text::lemma_find_char(t, '\n');
    assert(t.contains(t.last()));
    let k = text::find_char(t, '\n');
    assert(rows[0] == t.take(k + 1));
    assert(opens_file(rows[0])) by {
        let p = "diff --git "@;
        assert(p.len() == 11);
        assert(k >= 11) by {
            if k < 11 {
                assert(t.subrange(0, 11)[k] == p[k]);
            }
        }
        assert(rows[0].subrange(0, 11) =~= t.subrange(0, 11));
    }
    lemma_text_kept(rows, rows.len() as int);
    assert(rows.take(rows.len() as int) =~= rows);
    let st = model::scan(ScanModel::start(), rows)->Ok_0;
    let s = st.section->0;
    lemma_section_file(s);
    let used = |f: FileModel| all_used(f);
    let files = st.files.map_values(used);
    let all = st.all_files().map_values(used);
    assert(all =~= files.push(all_used(s.close())));
    assert(all.drop_last() =~= files);
}

//// Headers

pub proof fn lemma_find_text_at(s: Seq<char>, p: Seq<char>, k: int)
    requires
        0 <= k < s.len(),
        p.is_prefix_of(s.skip(k)),
        forall|j: int| 0 <= j < k ==> !p.is_prefix_of(#[trigger] s.skip(j)),
    ensures
        text::find_text(s, p) == k,
    decreases s.len(),
{
    assert(s.skip(0) =~= s);
    if k > 0 {
        let t = s.drop_first();
        assert(!p.is_prefix_of(s.skip(0)));
        assert(t.skip(k - 1) =~= s.skip(k));
        assert forall|j: int| 0 <= j < k - 1 implies !p.is_prefix_of(#[trigger] t.skip(j)) by {
            assert(t.skip(j) =~= s.skip(j + 1));
        }
        lemma_find_text_at(t, p, k - 1);
    }
}

/// One side of a header.
spec fn span_text(sign: char, start: nat, count: nat) -> Seq<char> {
    seq![sign] + text::decimal(start) + ","@ + text::decimal(count)
}

pub proof fn lemma_digit_plain(n: nat, i: int)
    requires
        0 <= i < text::decimal(n).len(),
    ensures
        '0' <= text::decimal(n)[i] <= '9',
{
    text::lemma_decimal_digits(n);
    assert(0 <= text::digit_value(text::decimal(n)[i]) < 10);
}

proof fn lemma_span(sign: char, start: nat, count: nat)
    requires
        start <= usize::MAX,
        count <= usize::MAX,
        sign == '-' || sign == '+',
    ensures
        model::hunk_span(span_text(sign, start, count), sign) == Ok::<
            (int, int),
            model::ParseErrorModel,
        >((start as int, count as int)),
        is_side(span_text(sign, start, count), sign),
{
    reveal_strlit(",");
    let a = text::decimal(start);
    let b = text::decimal(count);
    let w = span_text(sign, start, count);
    assert(","@ =~= seq![',']);
    let t = a + ","@ + b;
    assert(w =~= seq![sign] + t);
    assert(seq![sign].is_prefix_of(w));
    assert(w.skip(1) =~= t);
    assert forall|j: int| 0 <= j < a.len() implies t[j] != ',' by {
        lemma_digit_plain(start, j);
        assert(t[j] == a[j]);
    }
    assert(t[a.len() as int] == ',');
    text::lemma_find_char_at(t, ',', a.len() as int);
    assert(t.take(a.len() as int) =~= a);
    assert(t.skip(a.len() as int + 1) =~= b);
    text::lemma_decimal_round_trip(start, usize::MAX as int);
    text::lemma_decimal_round_trip(count, usize::MAX as int);
    assert forall|i: int| 0 <= i < w.len() implies {
        let c = #[trigger] w[i];
        c == sign || c == ',' || '0' <= c <= '9'
    } by {
        if 1 <= i < 1 + a.len() {
            lemma_digit_plain(start, i - 1);
            assert(w[i] == a[i - 1]);
        } else if i > 1 + a.len() {
            lemma_digit_plain(count, i - 2 - a.len());
            assert(w[i] == b[i - 2 - a.len()]);
        }
    }
}

/// The header that is written for a hunk says where the hunk is: it is read
/// back with the numbers it was made of.
pub proof fn law_plain_header_round_trip(
    old_start: nat,
    old_lines: nat,
    new_start: nat,
    new_lines: nat,
)
    requires
        old_start <= usize::MAX,
        old_lines <= usize::MAX,
        new_start <= usize::MAX,
        new_lines <= usize::MAX,
    ensures
        model::hunk_header(
            model::plain_header(
                old_start as int,
                old_lines as int,
                new_start as int,
                new_lines as int,
            ),
        ) == Ok::<HunkModel, model::ParseErrorModel>(
            HunkModel {
                old_start: old_start as int,
                old_lines: old_lines as int,
                new_start: new_start as int,
                new_lines: new_lines as int,
                header: model::plain_header(
                    old_start as int,
                    old_lines as int,
                    new_start as int,
                    new_lines as int,
                ),
                lines: Seq::empty(),
                no_newline_old: false,
                no_newline_new: false,
                use_decision: HunkUse::Undecided,
            },
        ),
{
    let line = model::plain_header(
        old_start as int,
        old_lines as int,
        new_start as int,
        new_lines as int,
    );
    let w1 = span_text('-', old_start, old_lines);
    let w2 = span_text('+', new_start, new_lines);
    let body = w1 + seq![' '] + w2;
    lemma_header_parts(old_start, old_lines, new_start, new_lines);
    lemma_span('-', old_start, old_lines);
    lemma_span('+', new_start, new_lines);
    lemma_body_ends(w1, w2);
    lemma_two_words(w1, w2);
}

proof fn lemma_header_parts(old_start: nat, old_lines: nat, new_start: nat, new_lines: nat)
    ensures
        text::after_prefix(
            model::plain_header(
                old_start as int,
                old_lines as int,
                new_start as int,
                new_lines as int,
            ),
            "@@ "@,
        ) == Some(
            span_text('-', old_start, old_lines) + seq![' '] + span_text(
                '+',
                new_start,
                new_lines,
            ) + " @@"@,
        ),
{
    reveal_strlit("@@ -");
    reveal_strlit("@@ ");
    reveal_strlit(",");
    reveal_strlit(" +");
    let line = model::plain_header(
        old_start as int,
        old_lines as int,
        new_start as int,
        new_lines as int,
    );
    let rest = span_text('-', old_start, old_lines) + seq![' '] + span_text(
        '+',
        new_start,
        new_lines,
    ) + " @@"@;
    assert("@@ -"@ =~= "@@ "@ + seq!['-']);
    assert(" +"@ =~= seq![' '] + seq!['+']);
    assert(line =~= "@@ "@ + rest);
    assert("@@ "@.len() == 3);
    assert(line.take(3) =~= "@@ "@);
    assert(line.skip(3) =~= rest);
}

/// Whether a word is one side of a header.
spec fn is_side(w: Seq<char>, sign: char) -> bool {
    &&& text::is_word(w)
    &&& forall|i: int|
        0 <= i < w.len() ==> {
            let c = #[trigger] w[i];
            c == sign || c == ',' || '0' <= c <= '9'
        }
}

proof fn lemma_body_ends(w1: Seq<char>, w2: Seq<char>)
    requires
        is_side(w1, '-'),
        is_side(w2, '+'),
    ensures
        text::before_text(w1 + seq![' '] + w2 + " @@"@, " @@"@) == w1 + seq![' '] + w2,
{
    reveal_strlit(" @@");
    let close = " @@"@;
    assert(close.len() == 3 && close[0] == ' ' && close[1] == '@' && close[2] == '@');
    let body = w1 + seq![' '] + w2;
    let rest = body + close;
    let k = body.len() as int;
    assert(rest.skip(k) =~= close);
    assert forall|j: int| 0 <= j < k implies !close.is_prefix_of(#[trigger] rest.skip(j)) by {
        if close.is_prefix_of(rest.skip(j)) {
            assert(rest.skip(j).take(3)[0] == ' ');
            assert(rest.skip(j).take(3)[1] == '@');
            assert(rest[j] == ' ' && rest[j + 1] == '@');
            if j < w1.len() {
                assert(rest[j] == w1[j]);
            } else if j > w1.len() {
                assert(rest[j] == w2[j - w1.len() - 1]);
            } else {
                assert(rest[j + 1] == w2[0]);
            }
        }
    }
    lemma_find_text_at(rest, close, k);
    assert(rest.take(k) =~= body);
}

proof fn lemma_two_words(w1: Seq<char>, w2: Seq<char>)
    requires
        text::is_word(w1),
        text::is_word(w2),
    ensures
        text::first_word(w1 + seq![' '] + w2) == w1,
        text::first_word(text::after_first_word(w1 + seq![' '] + w2)) == w2,
{
    let tail = seq![' '] + w2;
    assert(w1 + seq![' '] + w2 =~= w1 + tail);
    text::lemma_first_word(w1, tail);
    text::lemma_first_word(w2, Seq::empty());
    assert(w2 + Seq::<char>::empty() =~= w2);
    assert(tail.drop_first() =~= w2);
    assert(text::trim_start(tail) == text::trim_start(w2));
}

//// Editing

proof fn lemma_lines_whole(a: Seq<char>, b: Seq<char>)
    requires
        is_whole(a),
    ensures
        text::lines(a + b) == text::lines(a) + text::lines(b),
{
    lemma_split_whole(a, b);
    assert(text::lines(a + b) =~= text::lines(a) + text::lines(b));
}

proof fn lemma_kept_add(a: Seq<Seq<char>>, b: Seq<Seq<char>>)
    ensures
        edit::kept_rows(a + b) == edit::kept_rows(a) + edit::kept_rows(b),
    decreases b.len(),
{
    if b.len() == 0 {
        assert(a + b =~= a);
        assert(edit::kept_rows(a) + edit::kept_rows(b) =~= edit::kept_rows(a));
    } else {
        lemma_kept_add(a, b.drop_last());
        assert((a + b).drop_last() =~= a + b.drop_last());
        assert((a + b).last() == b.last());
        assert(edit::kept_rows(a + b) =~= edit::kept_rows(a) + edit::kept_rows(b));
    }
}

/// The rows that an edit keeps of a text.
spec fn kept_of(t: Seq<char>) -> Seq<Seq<char>> {
    edit::kept_rows(text::lines(t))
}

proof fn lemma_kept_whole(a: Seq<char>, b: Seq<char>)
    requires
        is_whole(a),
    ensures
        kept_of(a + b) == kept_of(a) + kept_of(b),
{
    lemma_lines_whole(a, b);
    lemma_kept_add(text::lines(a), text::lines(b));
}

proof fn lemma_kept_row(row: Seq<char>)
    requires
        !row.contains('\n'),
        row.len() > 0 ==> row.last() != '\r',
    ensures
        kept_of(row.push('\n')) == if row.len() > 0 && row[0] == '#' {
            Seq::<Seq<char>>::empty()
        } else {
            seq![row]
        },
{
    text::lemma_split_keep_line(row, Seq::empty());
    assert(row.push('\n') + Seq::<char>::empty() =~= row.push('\n'));
    assert(text::split_keep(Seq::<char>::empty()) =~= Seq::<Seq<char>>::empty());
    assert(text::lines(Seq::<char>::empty()) =~= Seq::<Seq<char>>::empty());
    let rows = text::lines(row.push('\n'));
    assert(row.push('\n').drop_last() =~= row);
    assert(text::chomp(row.push('\n')) == row);
    assert(rows =~= seq![row]);
    assert(rows.drop_last() =~= Seq::<Seq<char>>::empty());
    assert(edit::kept_rows(rows.drop_last()) =~= Seq::<Seq<char>>::empty());
    assert(text::trim_end_char(row, '\r') == row);
    if !(row.len() > 0 && row[0] == '#') {
        assert(edit::kept_rows(rows) =~= seq![row]);
    }
}

proof fn lemma_trim_keeps_hash(row: Seq<char>)
    requires
        row.len() > 0,
        row[0] == '#',
    ensures
        text::trim_end_char(row, '\r').len() > 0,
        text::trim_end_char(row, '\r')[0] == '#',
    decreases row.len(),
{
    if row.last() == '\r' {
        assert(row.len() > 1);
        lemma_trim_keeps_hash(row.drop_last());
    }
}

proof fn lemma_comment_dropped(t: Seq<char>)
    requires
        text::is_comment(t),
    ensures
        kept_of(t) == Seq::<Seq<char>>::empty(),
        is_whole(t),
    decreases t.len(),
{
    if t.len() == 0 {
        assert(text::lines(t) =~= Seq::<Seq<char>>::empty());
    } else {
        text::lemma_find_char(t, '\n');
        assert(t[t.len() - 1] == '\n');
        assert(t.contains('\n'));
        let k = text::find_char(t, '\n');
        let a = t.take(k);
        let rest = t.skip(k + 1);
        assert(t =~= a.push('\n') + rest);
        assert(!a.contains('\n'));
        text::lemma_split_keep_line(a, rest);
        let row = text::chomp(a.push('\n'));
        assert(a.push('\n').drop_last() =~= a);
        assert(row.len() > 0 && row[0] == '#');
        lemma_trim_keeps_hash(row);
        assert(text::is_comment(rest)) by {
            if rest.len() > 0 {
                assert(rest[0] == t[k + 1]);
                assert forall|i: int| 0 <= i < rest.len() - 1 && #[trigger] rest[i]
                    == '\n' implies rest[i + 1] == '#' by {
                    assert(rest[i] == t[k + 1 + i]);
                }
            }
        }
        lemma_comment_dropped(rest);
        lemma_kept_add(seq![row], text::lines(rest));
        let one = seq![row];
        assert(one.drop_last() =~= Seq::<Seq<char>>::empty());
        assert(edit::kept_rows(one.drop_last()) =~= Seq::<Seq<char>>::empty());
        assert(edit::kept_rows(one) =~= Seq::<Seq<char>>::empty());
        assert(kept_of(t) =~= Seq::<Seq<char>>::empty());
    }
}

/// The rows of hunk lines.
spec fn line_rows(lines: Seq<LineModel>) -> Seq<Seq<char>> {
    lines.map_values(|l: LineModel| seq![l.marker()] + l.text())
}

/// Whether an edit buffer can say all of a hunk's lines: none is broken, and
/// none ends in a carriage return.
pub open spec fn lines_survive(lines: Seq<LineModel>) -> bool {
    forall|i: int|
        0 <= i < lines.len() ==> !(#[trigger] lines[i]).text().contains('\n') && (
        lines[i].text().len() > 0 ==> lines[i].text().last() != '\r')
}

proof fn lemma_kept_lines(lines: Seq<LineModel>)
    requires
        lines_survive(lines),
    ensures
        kept_of(model::lines_text(lines)) == line_rows(lines),
    decreases lines.len(),
{
    if lines.len() == 0 {
        assert(text::lines(model::lines_text(lines)) =~= Seq::<Seq<char>>::empty());
        assert(line_rows(lines) =~= Seq::<Seq<char>>::empty());
    } else {
        let front = lines.drop_last();
        let l = lines[lines.len() - 1];
        assert(lines_survive(front)) by {
            assert forall|i: int| 0 <= i < front.len() implies !(
            #[trigger] front[i]).text().contains('\n') && (front[i].text().len() > 0
                ==> front[i].text().last() != '\r') by {
                assert(front[i] == lines[i]);
            }
        }
        lemma_kept_lines(front);
        let row = seq![l.marker()] + l.text();
        lemma_row_of_line(l);
        lemma_lines_text_whole(front);
        assert(model::lines_text(lines) =~= model::lines_text(front) + row.push('\n'));
        lemma_kept_whole(model::lines_text(front), row.push('\n'));
        assert(row.last() != '\r') by {
            if l.text().len() > 0 {
                assert(row.last() == l.text().last());
            } else {
                assert(row =~= seq![l.marker()]);
            }
        }
        lemma_kept_row(row);
        assert(line_rows(lines) =~= line_rows(front) + seq![row]);
    }
}

proof fn lemma_with_rows_add(h: HunkModel, a: Seq<Seq<char>>, b: Seq<Seq<char>>)
    ensures
        edit::with_rows(h, a + b) == match edit::with_rows(h, a) {
            Ok(next) => edit::with_rows(next, b),
            Err(e) => Err(e),
        },
    decreases a.len(),
{
    if a.len() == 0 {
        assert(a + b =~= b);
    } else {
        assert((a + b)[0] == a[0]);
        assert((a + b).drop_first() =~= a.drop_first() + b);
        if let Ok(next) = edit::with_row(h, a[0]) {
            lemma_with_rows_add(next, a.drop_first(), b);
        }
    }
}

proof fn lemma_with_one_row(h: HunkModel, row: Seq<char>)
    ensures
        edit::with_rows(h, seq![row]) == edit::with_row(h, row),
{
    let one = seq![row];
    assert(one.drop_first() =~= Seq::<Seq<char>>::empty());
    if let Ok(next) = edit::with_row(h, row) {
        assert(edit::with_rows(next, one.drop_first()) == Ok::<HunkModel, model::ParseErrorModel>(
            next,
        ));
    }
}

proof fn lemma_with_lines(h: HunkModel, lines: Seq<LineModel>)
    ensures
        edit::with_rows(h, line_rows(lines)) == Ok::<HunkModel, model::ParseErrorModel>(
            HunkModel { lines: h.lines + lines, ..h },
        ),
    decreases lines.len(),
{
    if lines.len() == 0 {
        assert(line_rows(lines) =~= Seq::<Seq<char>>::empty());
        assert(h.lines + lines =~= h.lines);
    } else {
        let front = lines.drop_last();
        let l = lines.last();
        let row = seq![l.marker()] + l.text();
        lemma_with_lines(h, front);
        assert(line_rows(lines) =~= line_rows(front) + seq![row]);
        lemma_with_rows_add(h, line_rows(front), seq![row]);
        let mid = HunkModel { lines: h.lines + front, ..h };
        lemma_with_one_row(mid, row);
        reveal_strlit("\\ No newline at end of file");
        assert("\\ No newline at end of file"@[0] == '\\');
        assert(row[0] == l.marker());
        assert(row.drop_first() =~= l.text());
        assert((h.lines + front).push(l) =~= h.lines + lines);
    }
}

proof fn lemma_buffer_comments()
    ensures
        text::is_comment(edit::MANUAL_HUNK_HEADER@.push('\n')),
        text::is_comment(edit::FOOTER@),
{
    reveal_strlit("# Manual hunk edit mode -- see bottom for a quick guide.");
    reveal_strlit(
        "# ---\n# To remove '-' lines, make them ' ' lines (context).\n# To remove '+' lines, delete them.\n# Lines starting with # will be removed.\n# If the patch applies cleanly, the edited hunk will immediately be marked for staging.\n# If it does not apply cleanly, you will be given an opportunity to\n# edit again. If all lines of the hunk are removed, then the edit is\n# aborted and the hunk is left unchanged.\n",
    );
}

/// The row for a missing final newline, where there is one.
spec fn mark_rows(missing: bool) -> Seq<Seq<char>> {
    if missing {
        seq!["\\ No newline at end of file"@]
    } else {
        Seq::empty()
    }
}

proof fn lemma_kept_mark(missing: bool)
    ensures
        kept_of(model::no_newline_mark(missing)) == mark_rows(missing),
        is_whole(model::no_newline_mark(missing)),
{
    if missing {
        reveal_strlit("\\ No newline at end of file\n");
        reveal_strlit("\\ No newline at end of file");
        let row = "\\ No newline at end of file"@;
        assert("\\ No newline at end of file\n"@ =~= row.push('\n'));
        assert(!row.contains('\n'));
        assert(row.len() == 27 && row[0] == '\\' && row.last() == 'e');
        lemma_kept_row(row);
    } else {
        assert(text::lines(Seq::<char>::empty()) =~= Seq::<Seq<char>>::empty());
    }
}

proof fn lemma_kept_buffer(h: HunkModel)
    requires
        is_sound(h),
        lines_survive(h.lines),
        h.header.last() != '\r',
    ensures
        kept_of(edit::edit_buffer(h)) == seq![h.header] + line_rows(h.lines) + mark_rows(
            h.no_newline_old || h.no_newline_new,
        ),
        h.header.len() >= 3 && h.header[0] == '@' && "@@ "@.is_prefix_of(h.header),
{
    reveal_strlit("@@ ");
    assert("@@ "@.len() == 3 && "@@ "@[0] == '@');
    assert("@@ "@.is_prefix_of(h.header));
    assert(h.header.len() >= 3 && h.header[0] == '@') by {
        assert(h.header.take(3)[0] == "@@ "@[0]);
    }
    assert(h.header.last() != '\n') by {
        assert(h.header.contains(h.header.last()));
    }
    let guide = edit::MANUAL_HUNK_HEADER@.push('\n');
    let head = h.header.push('\n');
    let body = model::lines_text(h.lines);
    let mark = model::no_newline_mark(h.no_newline_old || h.no_newline_new);
    let foot = edit::FOOTER@;
    lemma_buffer_comments();
    lemma_comment_dropped(guide);
    lemma_comment_dropped(foot);
    lemma_kept_row(h.header);
    lemma_kept_lines(h.lines);
    lemma_lines_text_whole(h.lines);
    lemma_kept_mark(h.no_newline_old || h.no_newline_new);
    assert(edit::edit_buffer(h) =~= guide + (head + (body + (mark + foot))));
    lemma_kept_whole(guide, head + (body + (mark + foot)));
    lemma_kept_whole(head, body + (mark + foot));
    lemma_kept_whole(body, mark + foot);
    lemma_kept_whole(mark, foot);
    assert(kept_of(edit::edit_buffer(h)) =~= seq![h.header] + line_rows(h.lines) + mark_rows(
        h.no_newline_old || h.no_newline_new,
    ));
}

/// A buffer that is left as it was opened gives the hunk back: its lines, its
/// marks and its place, with counts that fit the lines.
///
/// Lines that end in a carriage return are left out: the buffer is read
/// without them.
pub proof fn law_untouched_edit_keeps_hunk(h: HunkModel)
    requires
        is_sound(h),
        lines_survive(h.lines),
        h.header.last() != '\r',
    ensures
        edit::edited(edit::edit_buffer(h), h) == Ok::<edit::EditedModel, model::ParseErrorModel>(
            edit::EditedModel::Hunk(
                edit::recounted(as_read(h), edit::header_suffix(h.header)),
            ),
        ),
{
    lemma_kept_buffer(h);
    let missing = h.no_newline_old || h.no_newline_new;
    let kept = kept_of(edit::edit_buffer(h));
    let body = line_rows(h.lines) + mark_rows(missing);
    assert(kept[0] == h.header);
    assert(kept.drop_first() =~= body);
    assert(!edit::all_blank(kept)) by {
        assert(!text::is_blank(kept[0])) by {
            assert(!text::is_white(h.header[0]));
        }
    }
    reveal_strlit("@@");
    reveal_strlit("@@ ");
    assert("@@"@.is_prefix_of(h.header)) by {
        assert(h.header.take(3) =~= "@@ "@);
        assert(h.header.take(2) =~= "@@"@);
    }
    let base = bare_hunk(h);
    lemma_with_rows_add(base, line_rows(h.lines), mark_rows(missing));
    lemma_with_lines(base, h.lines);
    let mid = HunkModel { lines: base.lines + h.lines, ..base };
    assert(base.lines + h.lines =~= h.lines);
    if missing {
        lemma_with_one_row(mid, "\\ No newline at end of file"@);
    } else {
        assert(edit::with_rows(mid, Seq::empty()) == Ok::<HunkModel, model::ParseErrorModel>(mid));
    }
    let end = edit::with_rows(base, body)->Ok_0;
    assert(end =~= as_read(h));
}

/// A buffer in which only comments and blank lines are left abandons the edit.
pub proof fn law_emptied_edit_is_abandoned(t: Seq<char>, original: HunkModel)
    requires
        forall|i: int|
            0 <= i < text::lines(t).len() ==> {
                let row = text::trim_end_char(#[trigger] text::lines(t)[i], '\r');
                text::is_blank(row) || row[0] == '#'
            },
    ensures
        edit::edited(t, original) == Ok::<edit::EditedModel, model::ParseErrorModel>(
            edit::EditedModel::Abandoned,
        ),
{
    lemma_kept_blank(text::lines(t));
}

proof fn lemma_kept_blank(rows: Seq<Seq<char>>)
    requires
        forall|i: int|
            0 <= i < rows.len() ==> {
                let row = text::trim_end_char(#[trigger] rows[i], '\r');
                text::is_blank(row) || row[0] == '#'
            },
    ensures
        edit::all_blank(edit::kept_rows(rows)),
    decreases rows.len(),
{
    if rows.len() > 0 {
        let front = rows.drop_last();
        assert forall|i: int| 0 <= i < front.len() implies {
            let row = text::trim_end_char(#[trigger] front[i], '\r');
            text::is_blank(row) || row[0] == '#'
        } by {
            assert(front[i] == rows[i]);
        }
        lemma_kept_blank(front);
        let row = text::trim_end_char(rows[rows.len() - 1], '\r');
        assert(text::is_blank(row) || row[0] == '#');
        let before = edit::kept_rows(front);
        if !(row.len() > 0 && row[0] == '#') {
            assert(text::is_blank(row));
            assert forall|i: int| 0 <= i < before.push(row).len() implies text::is_blank(
                #[trigger] before.push(row)[i],
            ) by {
                if i < before.len() {
                    assert(before.push(row)[i] == before[i]);
                }
            }
        }
    }
}

//// Sessions

/// Whether a file is what it was but for its hunks, and wholly what it was if
/// it is binary.
pub open spec fn is_kept(before: FileModel, after: FileModel) -> bool {
    &&& after == FileModel { hunks: after.hunks, ..before }
    &&& before.binary ==> after == before
}

/// Whether all files are kept.
pub open spec fn files_kept(before: Seq<FileModel>, after: Seq<FileModel>) -> bool {
    &&& before.len() == after.len()
    &&& forall|j: int| 0 <= j < before.len() ==> is_kept(before[j], #[trigger] after[j])
}

/// Whether all files but the one at `i` are as they were, or have got a hunk
/// to ask about where they had none.
pub open spec fn others_kept(before: Seq<FileModel>, after: Seq<FileModel>, i: int) -> bool {
    &&& before.len() == after.len()
    &&& forall|j: int|
        0 <= j < before.len() && j != i ==> (#[trigger] after[j]) == before[j] || after[j]
            == session::with_slot(before[j])
}

/// Whether a session can go on: all but that its cursor is in range.
spec fn can_proceed(s: SessionModel) -> bool {
    (SessionModel { phase: SessionPhase::Done, ..s }).wf()
}

/// Whether a step is sound: it waits for an event, or it is the last.
spec fn is_consistent(st: StepModel) -> bool {
    &&& st.session.wf()
    &&& st.request is Finish || !(st.session.phase is Done)
}

/// Whether a step on `s` led to `st` by changing at most the file at hand.
spec fn is_step(s: SessionModel, st: StepModel) -> bool {
    &&& is_consistent(st)
    &&& files_kept(s.files, st.session.files)
    &&& others_kept(s.files, st.session.files, s.file_index())
}

/// Whether `t` is `s` with at most the file at hand changed.
spec fn is_change(s: SessionModel, t: SessionModel) -> bool {
    &&& can_proceed(t)
    &&& files_kept(s.files, t.files)
    &&& forall|j: int|
        0 <= j < s.files.len() && j != s.file_index() ==> (#[trigger] t.files[j]) == s.files[j]
}

proof fn lemma_change_self(s: SessionModel)
    requires
        s.wf(),
    ensures
        is_change(s, s),
{
}

proof fn lemma_change_file(s: SessionModel, f: FileModel)
    requires
        s.running(),
        is_kept(s.file(), f),
    ensures
        is_change(s, s.with_file(f)),
        s.with_file(f).file() == f,
        s.with_file(f).cursor() == s.cursor(),
        s.with_file(f).file_index() == s.file_index(),
{
    s.lemma_with_file(f);
}

proof fn lemma_change_proceeds(s: SessionModel, t: SessionModel, o: OptionsModel)
    requires
        is_change(s, t),
    ensures
        is_step(s, t.proceed(o)),
{
    if t.sel < t.selectable.len() {
        let i = t.file_index();
        assert(0 <= t.selectable[t.sel] < t.files.len());
        let f = session::with_slot(t.file());
        let n = session::at_least_one(f.hunks.len() as int);
        let st = t.prompt(o);
        let after = st.session;
        assert(after.files =~= t.files.update(i, f));
        assert forall|k: int| 0 <= k < after.selectable.len() implies 0
            <= #[trigger] after.selectable[k] < after.files.len()
            && !after.files[after.selectable[k]].binary by {
            assert(0 <= t.selectable[k] < t.files.len());
        }
        assert forall|j: int| 0 <= j < s.files.len() implies is_kept(
            s.files[j],
            #[trigger] after.files[j],
        ) by {
            assert(is_kept(s.files[j], t.files[j]));
            if j == i {
                assert(!t.files[i].binary);
            }
        }
        assert forall|j: int| 0 <= j < s.files.len() && j != s.file_index() implies (
        #[trigger] after.files[j]) == s.files[j] || after.files[j] == session::with_slot(
            s.files[j],
        ) by {
            assert(t.files[j] == s.files[j]);
        }
    }
}

proof fn lemma_says(s: SessionModel, t: SessionModel, o: OptionsModel, m: Seq<char>)
    requires
        is_change(s, t),
    ensures
        is_step(s, t.say(o, m)),
{
    lemma_change_proceeds(s, t, o);
}

proof fn lemma_cursor_change(s: SessionModel, c: int)
    requires
        s.running(),
        0 <= c,
    ensures
        is_change(s, s.with_cursor(c)),
{
}

proof fn lemma_advanced(s: SessionModel, t: SessionModel, o: OptionsModel)
    requires
        is_change(s, t),
        t.sel < t.selectable.len(),
    ensures
        is_change(s, t.advanced(o)),
{
    assert(0 <= t.selectable[t.sel] < t.files.len());
    assert(0 <= t.cursors[t.file_index()]);
}

proof fn lemma_next_undecided(hunks: Seq<HunkModel>, i: int, forward: bool)
    ensures
        session::next_undecided(hunks, i, forward) matches Some(k) ==> 0 <= k < hunks.len(),
    decreases
            (if forward {
                hunks.len() - i
            } else {
                i + 1
            }),
{
    if 0 <= i < hunks.len() && !(hunks[i].use_decision is Undecided) {
        if forward {
            lemma_next_undecided(hunks, i + 1, forward);
        } else {
            lemma_next_undecided(hunks, i - 1, forward);
        }
    }
}

proof fn lemma_moves(s: SessionModel, o: OptionsModel, forward: bool)
    requires
        s.running(),
    ensures
        is_step(s, s.move_undecided(o, forward)),
        is_step(s, s.move_any(o, forward)),
{
    let c = s.cursor();
    assert(0 <= s.selectable[s.sel] < s.files.len());
    assert(0 <= s.cursors[s.file_index()]);
    lemma_change_self(s);
    lemma_says(s, s, o, "No other hunk\n"@);
    let from = if forward {
        c + 1
    } else {
        c - 1
    };
    lemma_next_undecided(s.file().hunks, from, forward);
    if let Some(i) = session::next_undecided(s.file().hunks, from, forward) {
        lemma_cursor_change(s, i);
        lemma_change_proceeds(s, s.with_cursor(i), o);
    }
    lemma_cursor_change(s, c + 1);
    lemma_change_proceeds(s, s.with_cursor(c + 1), o);
    if c > 0 {
        lemma_cursor_change(s, c - 1);
        lemma_change_proceeds(s, s.with_cursor(c - 1), o);
    }
}

proof fn lemma_decides(s: SessionModel, o: OptionsModel, d: HunkUse)
    requires
        s.running(),
    ensures
        is_step(
            s,
            s.with_file(session::with_decision(s.file(), s.cursor(), d)).advanced(o).proceed(o),
        ),
        is_step(s, s.decide_rest(o, d).proceed(o)),
{
    assert(0 <= s.selectable[s.sel] < s.files.len());
    let f = session::with_decision(s.file(), s.cursor(), d);
    lemma_change_file(s, f);
    lemma_advanced(s, s.with_file(f), o);
    lemma_change_proceeds(s, s.with_file(f).advanced(o), o);
    let g = session::with_decisions_from(s.file(), s.cursor(), d);
    lemma_change_file(s, g);
    assert(is_change(s, s.decide_rest(o, d)));
    lemma_change_proceeds(s, s.decide_rest(o, d), o);
}

proof fn lemma_splits(s: SessionModel, o: OptionsModel)
    requires
        s.running(),
    ensures
        is_step(s, s.split(o)),
{
    assert(0 <= s.selectable[s.sel] < s.files.len());
    let f = s.file();
    let c = s.cursor();
    lemma_change_self(s);
    lemma_says(s, s, o, "Sorry, cannot split this hunk\n"@);
    if c < f.hunks.len() && session::can_split(f.hunks[c]) {
        let pieces = model::split_pieces(f.hunks[c])->0;
        let g = FileModel { hunks: f.hunks.take(c) + pieces + f.hunks.skip(c + 1), ..f };
        lemma_change_file(s, g);
        lemma_says(
            s,
            s.with_file(g),
            o,
            "Split into "@ + text::decimal(pieces.len()) + " hunks.\n"@,
        );
    }
}

proof fn lemma_edits(s: SessionModel, o: OptionsModel, t: Seq<char>)
    requires
        s.running(),
    ensures
        is_step(s, s.start_edit(o)),
        s.cursor() < s.file().hunks.len() ==> is_step(s, s.ask_edit()),
        s.cursor() < s.file().hunks.len() ==> is_step(s, s.ask_retry()),
        is_step(s, s.read_edit(o, t)),
{
    assert(0 <= s.selectable[s.sel] < s.files.len());
    let f = s.file();
    let c = s.cursor();
    lemma_change_self(s);
    lemma_says(s, s, o, edit::CANNOT_EDIT@ + "\n"@);
    lemma_change_proceeds(s, s, o);
    if c < f.hunks.len() {
        assert(is_step(s, s.ask_edit()));
        assert(is_step(s, s.ask_retry()));
        if let Ok(edit::EditedModel::Hunk(h)) = edit::edited(t, f.hunks[c]) {
            let g = edit::with_trial(f, c, h);
            lemma_change_file(s, g);
            lemma_advanced(s, s.with_file(g), o);
            lemma_change_proceeds(s, s.with_file(g).advanced(o), o);
        }
    }
}

proof fn lemma_found_from(hunks: Seq<HunkModel>, c: int, p: Seq<char>, k: int)
    requires
        0 <= c < hunks.len(),
        0 <= k,
    ensures
        session::found_from(hunks, c, p, k) matches Some(i) ==> 0 <= i < hunks.len(),
    decreases hunks.len() - k,
{
    if k < hunks.len() {
        lemma_found_from(hunks, c, p, k + 1);
    }
}

proof fn lemma_jumps(s: SessionModel, o: OptionsModel, a: Seq<char>)
    requires
        s.running(),
    ensures
        is_step(s, s.go_to(o, a)),
        s.cursor() < s.file().hunks.len() ==> is_step(s, s.search_for(o, a)),
{
    assert(0 <= s.selectable[s.sel] < s.files.len());
    assert(0 <= s.cursors[s.file_index()]);
    lemma_change_self(s);
    lemma_says(s, s, o, "No other hunks to goto\n"@);
    lemma_says(s, s, o, "No other hunks to search\n"@);
    if let Some(n) = text::parse_unsigned(a, 10, usize::MAX as int) {
        if 1 <= n <= s.file().hunks.len() {
            lemma_cursor_change(s, n - 1);
            lemma_change_proceeds(s, s.with_cursor(n - 1), o);
        }
    }
    if s.cursor() < s.file().hunks.len() && a.len() > 0 {
        lemma_found_from(s.file().hunks, s.cursor(), a, 0);
        if let Some(i) = session::found_from(s.file().hunks, s.cursor(), a, 0) {
            lemma_cursor_change(s, i);
            lemma_change_proceeds(s, s.with_cursor(i), o);
        }
    }
}

proof fn lemma_asks(s: SessionModel, o: OptionsModel, a: Seq<char>)
    requires
        s.running(),
    ensures
        is_step(s, s.goto_answer(o, a)),
        is_step(s, s.search_answer(o, a)),
{
    assert(0 <= s.selectable[s.sel] < s.files.len());
    lemma_change_self(s);
    lemma_says(s, s, o, "No other hunks to goto\n"@);
    lemma_says(s, s, o, "No other hunks to search\n"@);
    lemma_jumps(s, o, text::trim(a.drop_first()));
}

proof fn lemma_other_file(s: SessionModel, o: OptionsModel, by: int, none: Seq<char>)
    requires
        s.running(),
        by >= 0,
    ensures
        is_step(s, s.other_file(o, by, none)),
{
    lemma_change_self(s);
    lemma_says(s, s, o, none);
    if s.selectable.len() > 1 {
        let t = SessionModel { sel: (s.sel + by) % (s.selectable.len() as int), ..s };
        assert(is_change(s, t));
        lemma_change_proceeds(s, t, o);
    }
}

proof fn lemma_answers(s: SessionModel, o: OptionsModel, a: Seq<char>)
    requires
        s.running(),
    ensures
        is_step(s, s.answer(o, a)),
{
    reveal(SessionModel::answer);
    lemma_change_self(s);
    lemma_change_proceeds(s, s, o);
    lemma_asks(s, o, a);
    lemma_says(s, s, o, "Only one letter is expected, got '"@ + a + "'\n"@);
    lemma_says(s, s, o, "Unknown command '"@ + a + "' (use '?' for help)\n"@);
    lemma_decides(s, o, HunkUse::Use);
    lemma_decides(s, o, HunkUse::Skip);
    lemma_moves(s, o, true);
    lemma_moves(s, o, false);
    lemma_splits(s, o);
    lemma_edits(s, o, a);
    lemma_other_file(s, o, 1, "No next file\n"@);
    lemma_other_file(s, o, s.selectable.len() - 1, "No previous file\n"@);
    let letters = session::letters_at(s.file(), s.cursor(), s.selectable.len() as int, o);
    lemma_says(
        s,
        s,
        o,
        session::help(letters, o.kind) + (match session::summary(s.file()) {
            Some(t) => t + "\n"@,
            None => Seq::empty(),
        }),
    );
    assert(is_step(s, s.finish(SessionAction::Quit)));
}

proof fn lemma_steps(s: SessionModel, o: OptionsModel, e: EventModel)
    requires
        s.running(),
    ensures
        is_step(s, s.step(o, e)),
{
    reveal(SessionModel::step);
    lemma_change_self(s);
    lemma_change_proceeds(s, s, o);
    lemma_says(s, s, o, edit::CANNOT_EDIT@ + "\n"@);
    assert(is_step(s, s.finish(SessionAction::Quit)));
    match e {
        EventModel::Line(l) => {
            lemma_answers(s, o, text::trim_line_end(l));
            lemma_jumps(s, o, text::trim_line_end(l));
            lemma_edits(s, o, l);
        },
        EventModel::Edited(t) => {
            lemma_edits(s, o, t);
        },
        _ => {},
    }
}

/// A step of a session leaves all files but the one at hand as they are; where
/// another file comes next and has no hunk, it gets one to ask about.
pub proof fn law_step_keeps_other_files(s: SessionModel, o: OptionsModel, e: EventModel)
    requires
        s.running(),
    ensures
        others_kept(s.files, s.step(o, e).session.files, s.file_index()),
        s.step(o, e).session.wf(),
{
    lemma_steps(s, o, e);
}

proof fn lemma_kept_chain(a: Seq<FileModel>, b: Seq<FileModel>, c: Seq<FileModel>)
    requires
        files_kept(a, b),
        files_kept(b, c),
    ensures
        files_kept(a, c),
{
    assert forall|j: int| 0 <= j < a.len() implies is_kept(a[j], #[trigger] c[j]) by {
        assert(is_kept(a[j], b[j]));
        assert(is_kept(b[j], c[j]));
    }
}

proof fn lemma_run_keeps(
    st: StepModel,
    o: OptionsModel,
    lines: Seq<Seq<char>>,
    edits: Seq<Option<Seq<char>>>,
)
    requires
        is_consistent(st),
    ensures
        files_kept(st.session.files, session::run(st, o, lines, edits).session.files),
    decreases lines.len(), session::pending_steps(st),
{
    if !(st.request is Finish) {
        let e = session::next_event(st.request, lines, edits);
        lemma_steps(st.session, o, e);
        let next = st.session.step(o, e);
        session::lemma_pending_steps(st, o, e);
        lemma_run_keeps(
            next,
            o,
            session::rest_of(st.request is Line, lines),
            session::rest_of(st.request is Edit, edits),
        );
        lemma_kept_chain(
            st.session.files,
            next.session.files,
            session::run(st, o, lines, edits).session.files,
        );
    }
}

proof fn lemma_selectable(files: Seq<FileModel>, n: int, k: int)
    requires
        0 <= n <= files.len(),
        0 <= k < session::selectable_files(files, n).len(),
    ensures
        0 <= session::selectable_files(files, n)[k] < n,
        !files[session::selectable_files(files, n)[k]].binary,
    decreases n,
{
    if n > 0 {
        if files[n - 1].binary {
            lemma_selectable(files, n - 1, k);
        } else if k < session::selectable_files(files, n - 1).len() {
            lemma_selectable(files, n - 1, k);
        }
    }
}

proof fn lemma_opening(files: Seq<FileModel>, o: OptionsModel)
    ensures
        is_consistent(session::opening(files, o)),
        files_kept(files, session::opening(files, o).session.files),
{
    let s = SessionModel {
        files,
        selectable: session::selectable_files(files, files.len() as int),
        sel: 0,
        cursors: Seq::new(files.len(), |i: int| 0int),
        last_rendered: None,
        phase: SessionPhase::Answer,
    };
    assert forall|k: int| 0 <= k < s.selectable.len() implies 0 <= #[trigger] s.selectable[k]
        < s.files.len() && !s.files[s.selectable[k]].binary by {
        lemma_selectable(files, files.len() as int, k);
    }
    if files.len() > 0 && s.selectable.len() > 0 {
        assert(0 <= s.selectable[0] < s.files.len());
        assert(is_change(s, s));
        lemma_change_proceeds(s, s, o);
    }
}

/// A session decides on hunks and nothing else: whatever is answered, each
/// file keeps its path, header, modes and kind, and a binary file its hunks.
pub proof fn law_session_keeps_files(
    files: Seq<FileModel>,
    o: OptionsModel,
    lines: Seq<Seq<char>>,
    edits: Seq<Option<Seq<char>>>,
)
    ensures
        files_kept(
            files,
            session::run(session::opening(files, o), o, lines, edits).session.files,
        ),
{
    lemma_opening(files, o);
    lemma_run_keeps(session::opening(files, o), o, lines, edits);
    lemma_kept_chain(
        files,
        session::opening(files, o).session.files,
        session::run(session::opening(files, o), o, lines, edits).session.files,
    );
}

/// Quitting keeps what was decided before.
pub proof fn law_quit_keeps_decisions(s: SessionModel, o: OptionsModel)
    requires
        s.running(),
        s.phase is Answer,
    ensures
        s.step(o, EventModel::Line(seq!['q', '\n'])).session.files == s.files,
        s.step(o, EventModel::Line(seq!['q', '\n'])).request == RequestModel::Finish(
            SessionAction::Quit,
        ),
        s.step(o, EventModel::EndOfInput).session.files == s.files,
        s.step(o, EventModel::EndOfInput).request == RequestModel::Finish(SessionAction::Quit),
{
    reveal(SessionModel::step);
    reveal(SessionModel::answer);
    let l = seq!['q', '\n'];
    assert(l.drop_last() =~= seq!['q']);
    assert(text::trim_line_end(seq!['q']) == seq!['q']);
    assert(text::trim_line_end(l) == seq!['q']);
}

/// An answer of `y` or `n` decides on the hunk under the cursor and on no
/// other hunk of the file.
pub proof fn law_answer_decides_one_hunk(f: FileModel, c: int, d: HunkUse, i: int)
    requires
        0 <= c < f.hunks.len(),
        0 <= i < f.hunks.len(),
    ensures
        session::with_decision(f, c, d).hunks.len() == f.hunks.len(),
        session::with_decision(f, c, d).hunks[i] == if i == c {
            HunkModel { use_decision: d, ..f.hunks[c] }
        } else {
            f.hunks[i]
        },
{
}

} // verus!
