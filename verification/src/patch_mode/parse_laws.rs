//! What the files of a patch that was read say of the patch.

use vstd::prelude::*;

use super::laws;
use super::model;
use super::model::{FileModel, HunkModel, HunkUse, LineModel, ParseErrorModel, ScanModel, SectionModel};
use crate::text;

verus! {

//// Paths

/// Whether a path can stand in a `diff --git` line as it is.
pub open spec fn is_plain_path(p: Seq<char>) -> bool {
    p.len() > 0 && !p.contains(' ') && !p.contains('\n') && p != "/dev/null"@
}

/// Whether `side` is one of the two marks before the paths of a `diff --git`
/// line.
pub open spec fn is_side_mark(side: Seq<char>) -> bool {
    side == "a/"@ || side == "b/"@
}

/// The line that opens the section of a file that was at `q` and is at `p`.
pub open spec fn git_line(l: Seq<char>, q: Seq<char>, r: Seq<char>, p: Seq<char>) -> Seq<char> {
    "diff --git "@ + l + q + " "@ + r + p
}

proof fn lemma_after(p: Seq<char>, t: Seq<char>)
    ensures
        text::after_prefix(p + t, p) == Some(t),
        p.is_prefix_of(p + t),
{
    assert((p + t).subrange(0, p.len() as int) =~= p);
    assert((p + t).skip(p.len() as int) =~= t);
}

proof fn lemma_side(side: Seq<char>, p: Seq<char>)
    requires
        is_side_mark(side),
    ensures
        model::diff_side(side + p) == p,
{
    reveal_strlit("a/");
    reveal_strlit("b/");
    lemma_after(side, p);
    assert("a/"@[0] == 'a' && "a/"@.len() == 2);
    assert("b/"@[0] == 'b' && "b/"@.len() == 2);
    if side == "b/"@ {
        assert((side + p)[0] == 'b');
        assert(!"a/"@.is_prefix_of(side + p)) by {
            if "a/"@.is_prefix_of(side + p) {
                assert((side + p).subrange(0, 2)[0] == "a/"@[0]);
            }
        }
    }
}

/// A side without a space, cut off at the space behind it.
proof fn lemma_cut(left: Seq<char>, right: Seq<char>)
    requires
        !left.contains(' '),
    ensures
        text::split_once(left + " "@ + right, ' ') == Some((left, right)),
{
    reveal_strlit(" ");
    let s = left + " "@ + right;
    assert(" "@.len() == 1 && " "@[0] == ' ');
    assert forall|j: int| 0 <= j < left.len() implies s[j] != ' ' by {
        assert(left.contains(left[j]));
    }
    assert(s[left.len() as int] == ' ');
    text::lemma_find_char_at(s, ' ', left.len() as int);
    assert(s.take(left.len() as int) =~= left);
    assert(s.skip(left.len() as int + 1) =~= right);
}

proof fn lemma_marked_plain(side: Seq<char>, p: Seq<char>)
    requires
        is_side_mark(side),
        !p.contains(' '),
    ensures
        !(side + p).contains(' '),
{
    reveal_strlit("a/");
    reveal_strlit("b/");
    assert("a/"@.len() == 2 && "a/"@[0] == 'a' && "a/"@[1] == '/');
    assert("b/"@.len() == 2 && "b/"@[0] == 'b' && "b/"@[1] == '/');
    if (side + p).contains(' ') {
        let i = choose|i: int| 0 <= i < (side + p).len() && (side + p)[i] == ' ';
        if i >= 2 {
            assert(p[i - 2] == ' ');
        }
    }
}

/// A section is of the file that its `diff --git` line names on the second
/// side, whichever mark each side bears.
pub proof fn law_line_names_its_path(l: Seq<char>, q: Seq<char>, r: Seq<char>, p: Seq<char>)
    requires
        is_side_mark(l),
        is_side_mark(r),
        is_plain_path(p),
        !q.contains(' '),
    ensures
        model::header_path(git_line(l, q, r, p)) == p,
{
    let line = git_line(l, q, r, p);
    let rest = (l + q) + " "@ + (r + p);
    assert(line =~= "diff --git "@ + rest);
    lemma_after("diff --git "@, rest);
    lemma_marked_plain(l, q);
    lemma_cut(l + q, r + p);
    lemma_side(r, p);
}

/// A section of a file that is gone is of the file that the first side names,
/// where the second side is `/dev/null`.
pub proof fn law_line_names_a_lost_path(l: Seq<char>, q: Seq<char>)
    requires
        is_side_mark(l),
        !q.contains(' '),
    ensures
        model::header_path("diff --git "@ + l + q + " /dev/null"@) == q,
{
    reveal_strlit("/dev/null");
    reveal_strlit(" /dev/null");
    reveal_strlit(" ");
    reveal_strlit("a/");
    reveal_strlit("b/");
    let gone = "/dev/null"@;
    assert(gone.len() == 9 && gone[0] == '/');
    let line = "diff --git "@ + l + q + " /dev/null"@;
    let rest = (l + q) + " "@ + gone;
    assert(" /dev/null"@ =~= " "@ + gone);
    assert(line =~= "diff --git "@ + rest);
    lemma_after("diff --git "@, rest);
    lemma_marked_plain(l, q);
    lemma_cut(l + q, gone);
    lemma_side(l, q);
    assert("a/"@.len() == 2 && "a/"@[0] == 'a');
    assert("b/"@.len() == 2 && "b/"@[0] == 'b');
    assert(!"a/"@.is_prefix_of(gone)) by {
        if "a/"@.is_prefix_of(gone) {
            assert(gone.subrange(0, 2)[0] == "a/"@[0]);
        }
    }
    assert(!"b/"@.is_prefix_of(gone)) by {
        if "b/"@.is_prefix_of(gone) {
            assert(gone.subrange(0, 2)[0] == "b/"@[0]);
        }
    }
}

//// Sections

/// A scan with files before its own.
spec fn behind(files: Seq<FileModel>, st: ScanModel) -> ScanModel {
    ScanModel { files: files + st.files, ..st }
}

proof fn lemma_scan_behind(files: Seq<FileModel>, st: ScanModel, rows: Seq<Seq<char>>)
    ensures
        model::scan(behind(files, st), rows) == match model::scan(st, rows) {
            Ok(end) => Ok(behind(files, end)),
            Err(e) => Err(e),
        },
    decreases rows.len(),
{
    if rows.len() > 0 {
        let line = text::trim_end_char(rows[0], '\n');
        assert(behind(files, st).all_files() =~= files + st.all_files());
        if let Ok(next) = model::scan_line(st, line) {
            assert(model::scan_line(behind(files, st), line) == Ok::<ScanModel, ParseErrorModel>(
                behind(files, next),
            ));
            lemma_scan_behind(files, next, rows.drop_first());
        } else {
            assert(model::scan_line(behind(files, st), line) is Err);
        }
    }
}

/// The first row of a text that opens with a `diff --git` line.
proof fn lemma_first_row(b: Seq<char>) -> (row: Seq<char>)
    requires
        "diff --git "@.is_prefix_of(b),
    ensures
        text::split_keep(b).len() > 0,
        text::trim_end_char(text::split_keep(b)[0], '\n') == row,
        "diff --git "@.is_prefix_of(row),
{
    reveal_strlit("diff --git ");
    let p = "diff --git "@;
    assert(p.len() == 11);
    text::lemma_find_char(b, '\n');
    let k = text::find_char(b, '\n');
    let row = b.take(k);
    assert(!row.contains('\n'));
    assert(k >= 11) by {
        if k < 11 {
            assert(b.subrange(0, 11)[k] == p[k]);
        }
    }
    assert(row.subrange(0, 11) =~= b.subrange(0, 11));
    assert(text::trim_end_char(row, '\n') == row) by {
        assert(row.contains(row.last()));
    }
    if k < b.len() {
        assert(b.take(k + 1).drop_last() =~= row);
    } else {
        assert(b.take(k) =~= b);
    }
    row
}

/// A patch is read section by section: of two patches one behind the other the
/// files of the first are read, and behind them those of the second. The first
/// that cannot be read is reported.
pub proof fn law_patches_are_read_one_behind_the_other(a: Seq<char>, b: Seq<char>)
    requires
        laws::is_whole(a),
        "diff --git "@.is_prefix_of(b),
    ensures
        model::unified_diff(a + b) == match (model::unified_diff(a), model::unified_diff(b)) {
            (Err(e), _) => Err(e),
            (Ok(_), Err(e)) => Err(e),
            (Ok(x), Ok(y)) => Ok::<Seq<FileModel>, ParseErrorModel>(x + y),
        },
{
    let start = ScanModel::start();
    laws::lemma_scan_whole(start, a, b);
    let rows = text::split_keep(b);
    let row = lemma_first_row(b);
    if let Ok(st) = model::scan(start, text::split_keep(a)) {
        let one = model::scan_line(start, row)->Ok_0;
        let two = model::scan_line(st, row)->Ok_0;
        assert(start.all_files() =~= Seq::<FileModel>::empty());
        assert(st.all_files() + Seq::<FileModel>::empty() =~= st.all_files());
        assert(two == behind(st.all_files(), one));
        lemma_scan_behind(st.all_files(), one, rows.drop_first());
        if let Ok(end) = model::scan(one, rows.drop_first()) {
            assert(behind(st.all_files(), end).all_files() =~= st.all_files() + end.all_files());
        }
    }
}

//// What the header of a section says

/// Lines one behind the other, each with a newline behind it.
pub open spec fn rows_text(rows: Seq<Seq<char>>) -> Seq<char>
    decreases rows.len(),
{
    if rows.len() == 0 {
        Seq::empty()
    } else {
        (rows_text(rows.drop_last()) + rows.last()).push('\n')
    }
}

/// Whether a header is made of these lines.
pub open spec fn is_made_of(header: Seq<char>, rows: Seq<Seq<char>>) -> bool {
    &&& rows.len() > 0
    &&& header == rows_text(rows)
    &&& forall|i: int| 0 <= i < rows.len() ==> !(#[trigger] rows[i]).contains('\n')
    &&& "diff --git "@.is_prefix_of(rows[0])
}

/// What a header line can say of its file.
pub enum RowKind {
    /// That it is new.
    Adds,
    /// That it is gone.
    Deletes,
    /// That it is no text.
    Binary,
    /// The mode that it had.
    OldMode,
    /// The mode that it has.
    NewMode,
    /// The blobs that it had and has, and a mode that stayed.
    Index,
}

/// Whether a line says such a thing.
pub open spec fn row_is(row: Seq<char>, kind: RowKind) -> bool {
    match kind {
        RowKind::Adds => "new file mode "@.is_prefix_of(row) || row == "--- /dev/null"@,
        RowKind::Deletes => "deleted file mode "@.is_prefix_of(row) || row == "+++ /dev/null"@,
        RowKind::Binary => "Binary files "@.is_prefix_of(row) || "GIT binary patch"@.is_prefix_of(
            row,
        ),
        RowKind::OldMode => "old mode "@.is_prefix_of(row) || "deleted file mode "@.is_prefix_of(
            row,
        ),
        RowKind::NewMode => "new mode "@.is_prefix_of(row) || "new file mode "@.is_prefix_of(row),
        RowKind::Index => "index "@.is_prefix_of(row),
    }
}

/// Whether one of the lines says such a thing.
pub open spec fn some_row(rows: Seq<Seq<char>>, kind: RowKind) -> bool {
    exists|i: int| 0 <= i < rows.len() && row_is(#[trigger] rows[i], kind)
}

/// Whether row `i` is the last that says such a thing.
pub open spec fn is_last(rows: Seq<Seq<char>>, i: int, kind: RowKind) -> bool {
    forall|j: int| i < j < rows.len() ==> !row_is(#[trigger] rows[j], kind)
}

/// Whether row `i` is the first that says such a thing.
pub open spec fn is_first(rows: Seq<Seq<char>>, i: int, kind: RowKind) -> bool {
    forall|j: int| 0 <= j < i ==> !row_is(#[trigger] rows[j], kind)
}

/// The number that octal digits write.
pub open spec fn octal(w: Seq<char>) -> int
    decreases w.len(),
{
    if w.len() == 0 {
        0
    } else {
        8 * octal(w.drop_last()) + (w.last() as int - '0' as int)
    }
}

/// Whether `w` is a mode in octal digits.
pub open spec fn is_mode(w: Seq<char>) -> bool {
    &&& w.len() > 0
    &&& forall|i: int| 0 <= i < w.len() ==> '0' <= #[trigger] w[i] <= '7'
    &&& octal(w) <= u32::MAX
}

/// Whether the line gives the mode `w` that the file had.
pub open spec fn gives_old(row: Seq<char>, w: Seq<char>) -> bool {
    is_mode(w) && (row == "old mode "@ + w || row == "deleted file mode "@ + w)
}

/// Whether the line gives the mode `w` that the file has.
pub open spec fn gives_new(row: Seq<char>, w: Seq<char>) -> bool {
    is_mode(w) && (row == "new mode "@ + w || row == "new file mode "@ + w)
}

/// Whether the line is an `index` line with the mode `w` behind the two blobs.
pub open spec fn gives_both(row: Seq<char>, blobs: Seq<char>, w: Seq<char>) -> bool {
    &&& is_mode(w)
    &&& row == "index "@ + blobs + " "@ + w
    &&& blobs.contains('.')
}

/// Whether the modes are those that the lines give: what the last line says
/// that speaks of a mode, or what the first `index` line says where none does.
pub open spec fn modes_said(
    rows: Seq<Seq<char>>,
    old_mode: Option<u32>,
    new_mode: Option<u32>,
) -> bool {
    &&& forall|i: int, w: Seq<char>|
        0 <= i < rows.len() && #[trigger] gives_old(rows[i], w) && is_last(
            rows,
            i,
            RowKind::OldMode,
        ) ==> old_mode == Some(octal(w) as u32)
    &&& forall|i: int, w: Seq<char>|
        0 <= i < rows.len() && #[trigger] gives_new(rows[i], w) && is_last(
            rows,
            i,
            RowKind::NewMode,
        ) ==> new_mode == Some(octal(w) as u32)
    &&& !some_row(rows, RowKind::OldMode) && !some_row(rows, RowKind::NewMode) ==> {
        &&& old_mode == new_mode
        &&& !some_row(rows, RowKind::Index) ==> old_mode is None
        &&& forall|i: int, blobs: Seq<char>, w: Seq<char>|
            0 <= i < rows.len() && #[trigger] gives_both(rows[i], blobs, w) && is_first(
                rows,
                i,
                RowKind::Index,
            ) ==> old_mode == Some(octal(w) as u32)
    }
}

spec fn section_says(s: SectionModel, rows: Seq<Seq<char>>) -> bool {
    &&& is_made_of(s.header, rows)
    &&& s.path == model::header_path(rows[0])
    &&& s.added <==> some_row(rows, RowKind::Adds)
    &&& s.deleted <==> some_row(rows, RowKind::Deletes)
    &&& s.binary <==> some_row(rows, RowKind::Binary)
    &&& modes_said(rows, s.old_mode, s.new_mode)
}

proof fn lemma_starts(p: Seq<char>, row: Seq<char>)
    requires
        p.is_prefix_of(row),
    ensures
        p.len() <= row.len(),
        forall|i: int| 0 <= i < p.len() ==> #[trigger] p[i] == row[i],
{
    assert forall|i: int| 0 <= i < p.len() implies #[trigger] p[i] == row[i] by {
        assert(row.subrange(0, p.len() as int)[i] == row[i]);
    }
}

/// What the kinds of lines start with.
proof fn lemma_kinds(row: Seq<char>)
    ensures
        "old mode "@.is_prefix_of(row) ==> row.len() > 4 && row[0] == 'o',
        "new mode "@.is_prefix_of(row) ==> row.len() > 4 && row[0] == 'n' && row[4] == 'm',
        "new file mode "@.is_prefix_of(row) ==> row.len() > 4 && row[0] == 'n' && row[4] == 'f',
        "deleted file mode "@.is_prefix_of(row) ==> row.len() > 4 && row[0] == 'd' && row[4] == 't',
        "index "@.is_prefix_of(row) ==> row.len() > 4 && row[0] == 'i',
        "Binary files "@.is_prefix_of(row) ==> row.len() > 4 && row[0] == 'B',
        "GIT binary patch"@.is_prefix_of(row) ==> row.len() > 4 && row[0] == 'G',
        "diff --git "@.is_prefix_of(row) ==> row.len() > 4 && row[0] == 'd' && row[4] == ' ',
        row == "+++ /dev/null"@ ==> row.len() > 4 && row[0] == '+',
        row == "--- /dev/null"@ ==> row.len() > 4 && row[0] == '-',
{
    reveal_strlit("old mode ");
    reveal_strlit("new mode ");
    reveal_strlit("new file mode ");
    reveal_strlit("deleted file mode ");
    reveal_strlit("index ");
    reveal_strlit("Binary files ");
    reveal_strlit("GIT binary patch");
    reveal_strlit("diff --git ");
    reveal_strlit("+++ /dev/null");
    reveal_strlit("--- /dev/null");
    assert("old mode "@.len() == 9 && "old mode "@[0] == 'o');
    assert("new mode "@.len() == 9 && "new mode "@[0] == 'n' && "new mode "@[4] == 'm');
    assert("new file mode "@.len() == 14 && "new file mode "@[0] == 'n' && "new file mode "@[4]
        == 'f');
    assert("deleted file mode "@.len() == 18 && "deleted file mode "@[0] == 'd'
        && "deleted file mode "@[4] == 't');
    assert("index "@.len() == 6 && "index "@[0] == 'i');
    assert("Binary files "@.len() == 13 && "Binary files "@[0] == 'B');
    assert("GIT binary patch"@.len() == 16 && "GIT binary patch"@[0] == 'G');
    assert("diff --git "@.len() == 11 && "diff --git "@[0] == 'd' && "diff --git "@[4] == ' ');
    assert("+++ /dev/null"@.len() == 13 && "+++ /dev/null"@[0] == '+');
    assert("--- /dev/null"@.len() == 13 && "--- /dev/null"@[0] == '-');
    if "old mode "@.is_prefix_of(row) {
        lemma_starts("old mode "@, row);
    }
    if "new mode "@.is_prefix_of(row) {
        lemma_starts("new mode "@, row);
    }
    if "new file mode "@.is_prefix_of(row) {
        lemma_starts("new file mode "@, row);
    }
    if "deleted file mode "@.is_prefix_of(row) {
        lemma_starts("deleted file mode "@, row);
    }
    if "index "@.is_prefix_of(row) {
        lemma_starts("index "@, row);
    }
    if "Binary files "@.is_prefix_of(row) {
        lemma_starts("Binary files "@, row);
    }
    if "GIT binary patch"@.is_prefix_of(row) {
        lemma_starts("GIT binary patch"@, row);
    }
    if "diff --git "@.is_prefix_of(row) {
        lemma_starts("diff --git "@, row);
    }
}

proof fn lemma_some_push(rows: Seq<Seq<char>>, row: Seq<char>, kind: RowKind)
    ensures
        some_row(rows.push(row), kind) <==> some_row(rows, kind) || row_is(row, kind),
{
    let all = rows.push(row);
    if some_row(rows, kind) {
        let i = choose|i: int| 0 <= i < rows.len() && row_is(#[trigger] rows[i], kind);
        assert(row_is(all[i], kind));
    }
    if row_is(row, kind) {
        assert(row_is(all[rows.len() as int], kind));
    }
    if some_row(all, kind) {
        let i = choose|i: int| 0 <= i < all.len() && row_is(#[trigger] all[i], kind);
        if i < rows.len() {
            assert(row_is(rows[i], kind));
        }
    }
}

proof fn lemma_octal(w: Seq<char>)
    ensures
        octal(w) == text::digits_value(w, 8),
    decreases w.len(),
{
    if w.len() > 0 {
        lemma_octal(w.drop_last());
        assert(8 * octal(w.drop_last()) == octal(w.drop_last()) * 8);
    }
}

/// A mode in octal digits is read as the number they write.
proof fn lemma_mode(w: Seq<char>)
    requires
        is_mode(w),
    ensures
        model::file_mode(w) == Some(octal(w) as u32),
{
    lemma_octal(w);
    assert(!text::is_white(w[0]));
    assert(!text::is_white(w.last())) by {
        assert('0' <= w[w.len() - 1] <= '7');
    }
    assert(w =~= w.subrange(0, w.len() as int));
    text::lemma_trim_is(w, 0, w);
    assert(text::unsigned_digits(w) == w);
    assert(text::all_digits(w, 8));
}

/// An `index` line with a mode has it behind its last space.
proof fn lemma_index_mode(row: Seq<char>, blobs: Seq<char>, w: Seq<char>)
    requires
        gives_both(row, blobs, w),
    ensures
        text::after_prefix(row, "index "@) is Some,
        text::after_prefix(row, "index "@)->0.contains('.'),
        model::file_mode(text::after_last(text::after_prefix(row, "index "@)->0, ' ')) == Some(
            octal(w) as u32,
        ),
{
    reveal_strlit(" ");
    assert(" "@.len() == 1 && " "@[0] == ' ');
    let rest = blobs + " "@ + w;
    assert(row =~= "index "@ + rest);
    lemma_after("index "@, rest);
    let i = choose|i: int| 0 <= i < blobs.len() && blobs[i] == '.';
    assert(rest[i] == '.');
    let k = blobs.len() as int + 1;
    assert(rest[k - 1] == ' ');
    assert forall|j: int| k <= j < rest.len() implies rest[j] != ' ' by {
        assert(rest[j] == w[j - k]);
    }
    text::lemma_after_last(rest, ' ', k);
    assert(rest.skip(k) =~= w);
    lemma_mode(w);
}

/// One more header line leaves the modes what the lines give.
#[verifier::rlimit(40)]
proof fn lemma_modes_push(s: SectionModel, rows: Seq<Seq<char>>, row: Seq<char>)
    requires
        modes_said(rows, s.old_mode, s.new_mode),
    ensures
        ({
            let t = s.with_header_line(row);
            modes_said(rows.push(row), t.old_mode, t.new_mode)
        }),
{
    let t = s.with_header_line(row);
    let all = rows.push(row);
    let n = rows.len() as int;
    lemma_kinds(row);
    lemma_some_push(rows, row, RowKind::OldMode);
    lemma_some_push(rows, row, RowKind::NewMode);
    lemma_some_push(rows, row, RowKind::Index);
    assert(all[n] == row);
    assert forall|i: int, w: Seq<char>|
        0 <= i < all.len() && #[trigger] gives_old(all[i], w) && is_last(
            all,
            i,
            RowKind::OldMode,
        ) implies t.old_mode == Some(octal(w) as u32) by {
        if i == n {
            lemma_mode(w);
            lemma_after("old mode "@, w);
            lemma_after("deleted file mode "@, w);
        } else {
            assert(!row_is(all[n], RowKind::OldMode));
            assert(gives_old(rows[i], w));
            assert(is_last(rows, i, RowKind::OldMode)) by {
                assert forall|j: int| i < j < rows.len() implies !row_is(
                    #[trigger] rows[j],
                    RowKind::OldMode,
                ) by {
                    assert(all[j] == rows[j]);
                }
            }
        }
    }
    assert forall|i: int, w: Seq<char>|
        0 <= i < all.len() && #[trigger] gives_new(all[i], w) && is_last(
            all,
            i,
            RowKind::NewMode,
        ) implies t.new_mode == Some(octal(w) as u32) by {
        if i == n {
            lemma_mode(w);
            lemma_after("new mode "@, w);
            lemma_after("new file mode "@, w);
        } else {
            assert(!row_is(all[n], RowKind::NewMode));
            assert(gives_new(rows[i], w));
            assert(is_last(rows, i, RowKind::NewMode)) by {
                assert forall|j: int| i < j < rows.len() implies !row_is(
                    #[trigger] rows[j],
                    RowKind::NewMode,
                ) by {
                    assert(all[j] == rows[j]);
                }
            }
        }
    }
    if !some_row(all, RowKind::OldMode) && !some_row(all, RowKind::NewMode) {
        assert forall|i: int, blobs: Seq<char>, w: Seq<char>|
            0 <= i < all.len() && #[trigger] gives_both(all[i], blobs, w) && is_first(
                all,
                i,
                RowKind::Index,
            ) implies t.old_mode == Some(octal(w) as u32) by {
            if i == n {
                lemma_index_mode(row, blobs, w);
                assert(!some_row(rows, RowKind::Index)) by {
                    if some_row(rows, RowKind::Index) {
                        let j = choose|j: int|
                            0 <= j < rows.len() && row_is(#[trigger] rows[j], RowKind::Index);
                        assert(row_is(all[j], RowKind::Index));
                    }
                }
            } else {
                assert(gives_both(rows[i], blobs, w));
                assert(is_first(rows, i, RowKind::Index)) by {
                    assert forall|j: int| 0 <= j < i implies !row_is(
                        #[trigger] rows[j],
                        RowKind::Index,
                    ) by {
                        assert(all[j] == rows[j]);
                    }
                }
                assert(s.old_mode == Some(octal(w) as u32));
            }
        }
    }
}

proof fn lemma_header_push(s: SectionModel, rows: Seq<Seq<char>>, row: Seq<char>)
    requires
        section_says(s, rows),
        !row.contains('\n'),
    ensures
        section_says(s.with_header_line(row), rows.push(row)),
{
    let t = s.with_header_line(row);
    let all = rows.push(row);
    lemma_kinds(row);
    lemma_some_push(rows, row, RowKind::Adds);
    lemma_some_push(rows, row, RowKind::Deletes);
    lemma_some_push(rows, row, RowKind::Binary);
    lemma_modes_push(s, rows, row);
    assert(all.drop_last() =~= rows);
    assert(all.last() == row);
    assert(t.header == rows_text(all));
    assert(is_made_of(t.header, all));
}

proof fn lemma_open_says(row: Seq<char>)
    requires
        "diff --git "@.is_prefix_of(row),
        !row.contains('\n'),
    ensures
        section_says(SectionModel::open(row), seq![row]),
{
    let s = SectionModel::open(row);
    let rows = seq![row];
    lemma_kinds(row);
    assert(rows.drop_last() =~= Seq::<Seq<char>>::empty());
    assert(rows_text(rows.drop_last()) =~= Seq::<char>::empty());
    assert(rows_text(rows) =~= row.push('\n'));
    let none = Seq::<Seq<char>>::empty();
    assert(rows =~= none.push(row));
    lemma_some_push(none, row, RowKind::Adds);
    lemma_some_push(none, row, RowKind::Deletes);
    lemma_some_push(none, row, RowKind::Binary);
    lemma_some_push(none, row, RowKind::OldMode);
    lemma_some_push(none, row, RowKind::NewMode);
    lemma_some_push(none, row, RowKind::Index);
    assert(!row_is(row, RowKind::OldMode) && !row_is(row, RowKind::NewMode) && !row_is(
        row,
        RowKind::Index,
    ));
    assert forall|i: int, w: Seq<char>| 0 <= i < rows.len() implies !#[trigger] gives_old(
        rows[i],
        w,
    ) by {
        if gives_old(row, w) {
            lemma_after("old mode "@, w);
            lemma_after("deleted file mode "@, w);
        }
    }
    assert forall|i: int, w: Seq<char>| 0 <= i < rows.len() implies !#[trigger] gives_new(
        rows[i],
        w,
    ) by {
        if gives_new(row, w) {
            lemma_after("new mode "@, w);
            lemma_after("new file mode "@, w);
        }
    }
    assert forall|i: int, b: Seq<char>, w: Seq<char>|
        0 <= i < rows.len() implies !#[trigger] gives_both(rows[i], b, w) by {
        if gives_both(row, b, w) {
            lemma_index_mode(row, b, w);
        }
    }
}

//// Hunk headers

/// Whether `w` writes a span: where it starts and how many lines it has, which
/// may be left out where it is one.
pub open spec fn is_span(w: Seq<char>, start: nat, count: nat) -> bool {
    w == text::decimal(start) + ","@ + text::decimal(count) || (count == 1 && w == text::decimal(
        start,
    ))
}

/// The line that opens a hunk, with anything behind it.
pub open spec fn hunk_line(old_span: Seq<char>, new_span: Seq<char>, tail: Seq<char>) -> Seq<char> {
    "@@ -"@ + old_span + " +"@ + new_span + " @@"@ + tail
}

proof fn lemma_span_word(sign: char, w: Seq<char>, start: nat, count: nat)
    requires
        start <= usize::MAX,
        count <= usize::MAX,
        sign == '-' || sign == '+',
        is_span(w, start, count),
    ensures
        model::hunk_span(seq![sign] + w, sign) == Ok::<(int, int), ParseErrorModel>(
            (start as int, count as int),
        ),
        text::is_word(seq![sign] + w),
        !(seq![sign] + w).contains('@'),
{
    reveal_strlit(",");
    assert(","@ =~= seq![',']);
    let a = text::decimal(start);
    let b = text::decimal(count);
    let all = seq![sign] + w;
    lemma_after(seq![sign], w);
    text::lemma_decimal_round_trip(start, usize::MAX as int);
    text::lemma_decimal_round_trip(count, usize::MAX as int);
    text::lemma_decimal_digits(start);
    assert forall|j: int| 0 <= j < a.len() implies '0' <= #[trigger] a[j] <= '9' by {
        laws::lemma_digit_plain(start, j);
    }
    assert forall|j: int| 0 <= j < b.len() implies '0' <= #[trigger] b[j] <= '9' by {
        laws::lemma_digit_plain(count, j);
    }
    if w == a + ","@ + b {
        assert forall|j: int| 0 <= j < a.len() implies w[j] != ',' by {
            assert(w[j] == a[j]);
        }
        assert(w[a.len() as int] == ',');
        text::lemma_find_char_at(w, ',', a.len() as int);
        assert(w.take(a.len() as int) =~= a);
        assert(w.skip(a.len() as int + 1) =~= b);
    } else {
        text::lemma_find_char_at(w, ',', w.len() as int);
    }
    assert forall|i: int| 0 <= i < all.len() implies {
        let c = #[trigger] all[i];
        c == sign || c == ',' || '0' <= c <= '9'
    } by {
        if i > 0 {
            assert(all[i] == w[i - 1]);
            if i - 1 < a.len() {
                assert(w[i - 1] == a[i - 1]);
            } else if i - 1 > a.len() {
                assert(w[i - 1] == b[i - 2 - a.len()]);
            }
        }
    }
    assert forall|i: int| 0 <= i < all.len() implies !text::is_white(#[trigger] all[i]) by {
        let c = all[i];
        assert(c == sign || c == ',' || '0' <= c <= '9');
    }
    if all.contains('@') {
        let i = choose|i: int| 0 <= i < all.len() && all[i] == '@';
        assert(all[i] == sign || all[i] == ',' || '0' <= all[i] <= '9');
    }
}

/// The sides of a hunk's header end at the closing mark.
proof fn lemma_hunk_body(w1: Seq<char>, w2: Seq<char>, tail: Seq<char>)
    requires
        text::is_word(w1),
        text::is_word(w2),
        w2[0] != '@',
    ensures
        text::before_text(w1 + (seq![' '] + w2) + " @@"@ + tail, " @@"@) == w1 + (seq![' '] + w2),
{
    reveal_strlit(" @@");
    let body = w1 + (seq![' '] + w2);
    let rest = body + " @@"@ + tail;
    let close = " @@"@;
    assert(close.len() == 3 && close[0] == ' ' && close[1] == '@' && close[2] == '@');
    let k = body.len() as int;
    assert(close.is_prefix_of(rest.skip(k))) by {
        assert(rest.skip(k).subrange(0, 3) =~= close);
    }
    assert forall|j: int| 0 <= j < k implies !close.is_prefix_of(#[trigger] rest.skip(j)) by {
        if close.is_prefix_of(rest.skip(j)) {
            lemma_starts(close, rest.skip(j));
            assert(close[0] == rest.skip(j)[0]);
            assert(close[1] == rest.skip(j)[1]);
            assert(rest[j] == ' ' && rest[j + 1] == '@');
            if j < w1.len() {
                assert(rest[j] == w1[j]);
            } else if j > w1.len() {
                assert(rest[j] == w2[j - w1.len() - 1]);
            } else {
                assert(rest[j + 1] == w2[0]);
            }
        }
    }
    laws::lemma_find_text_at(rest, close, k);
    assert(rest.take(k) =~= body);
}

proof fn lemma_hunk_words(w1: Seq<char>, w2: Seq<char>)
    requires
        text::is_word(w1),
        text::is_word(w2),
    ensures
        text::first_word(w1 + (seq![' '] + w2)) == w1,
        text::first_word(text::after_first_word(w1 + (seq![' '] + w2))) == w2,
{
    text::lemma_first_word(w1, seq![' '] + w2);
    text::lemma_first_word(w2, Seq::empty());
    assert(w2 + Seq::<char>::empty() =~= w2);
    assert((seq![' '] + w2).drop_first() =~= w2);
    assert(text::trim_start(seq![' '] + w2) == text::trim_start(w2));
}

/// A hunk is where its header says, with as many lines as it says, whatever
/// stands behind the header.
pub proof fn law_header_places_its_hunk(
    old_span: Seq<char>,
    new_span: Seq<char>,
    tail: Seq<char>,
    old_start: nat,
    old_lines: nat,
    new_start: nat,
    new_lines: nat,
)
    requires
        old_start <= usize::MAX,
        old_lines <= usize::MAX,
        new_start <= usize::MAX,
        new_lines <= usize::MAX,
        is_span(old_span, old_start, old_lines),
        is_span(new_span, new_start, new_lines),
    ensures
        model::hunk_header(hunk_line(old_span, new_span, tail)) == Ok::<
            HunkModel,
            ParseErrorModel,
        >(
            HunkModel {
                old_start: old_start as int,
                old_lines: old_lines as int,
                new_start: new_start as int,
                new_lines: new_lines as int,
                header: hunk_line(old_span, new_span, tail),
                lines: Seq::empty(),
                no_newline_old: false,
                no_newline_new: false,
                use_decision: HunkUse::Undecided,
            },
        ),
{
    reveal_strlit("@@ -");
    reveal_strlit("@@ ");
    reveal_strlit(" +");
    let line = hunk_line(old_span, new_span, tail);
    let w1 = seq!['-'] + old_span;
    let w2 = seq!['+'] + new_span;
    let body = w1 + (seq![' '] + w2);
    let rest = body + " @@"@ + tail;
    assert("@@ -"@ =~= "@@ "@ + seq!['-']);
    assert(" +"@ =~= seq![' '] + seq!['+']);
    assert(line =~= "@@ "@ + rest);
    lemma_after("@@ "@, rest);
    lemma_span_word('-', old_span, old_start, old_lines);
    lemma_span_word('+', new_span, new_start, new_lines);
    lemma_hunk_body(w1, w2, tail);
    lemma_hunk_words(w1, w2);
}

/// Whether a hunk is where its header says, and nothing is decided of it.
pub open spec fn hunk_says(h: HunkModel) -> bool {
    &&& h.use_decision is Undecided
    &&& forall|
        old_span: Seq<char>,
        new_span: Seq<char>,
        tail: Seq<char>,
        old_start: nat,
        old_lines: nat,
        new_start: nat,
        new_lines: nat,
    |
        h.header == #[trigger] hunk_line(old_span, new_span, tail) && #[trigger] is_span(
            old_span,
            old_start,
            old_lines,
        ) && #[trigger] is_span(new_span, new_start, new_lines) && old_start <= usize::MAX
            && old_lines <= usize::MAX && new_start <= usize::MAX && new_lines <= usize::MAX ==> {
            &&& h.old_start == old_start
            &&& h.old_lines == old_lines
            &&& h.new_start == new_start
            &&& h.new_lines == new_lines
        }
}

spec fn hunk_read(h: HunkModel) -> bool {
    &&& h.use_decision is Undecided
    &&& model::hunk_header(h.header) == Ok::<HunkModel, ParseErrorModel>(laws::bare_hunk(h))
}

proof fn lemma_hunk_says(h: HunkModel)
    requires
        hunk_read(h),
    ensures
        hunk_says(h),
{
    assert forall|
        old_span: Seq<char>,
        new_span: Seq<char>,
        tail: Seq<char>,
        old_start: nat,
        old_lines: nat,
        new_start: nat,
        new_lines: nat,
    |
        h.header == #[trigger] hunk_line(old_span, new_span, tail) && #[trigger] is_span(
            old_span,
            old_start,
            old_lines,
        ) && #[trigger] is_span(new_span, new_start, new_lines) && old_start <= usize::MAX
            && old_lines <= usize::MAX && new_start <= usize::MAX && new_lines
            <= usize::MAX implies {
        &&& h.old_start == old_start
        &&& h.old_lines == old_lines
        &&& h.new_start == new_start
        &&& h.new_lines == new_lines
    } by {
        law_header_places_its_hunk(
            old_span,
            new_span,
            tail,
            old_start,
            old_lines,
            new_start,
            new_lines,
        );
    }
}

//// What a file says

/// Whether a file is the one that its section describes: the one that the
/// `diff --git` line names, new or gone or no text where a line says so, with
/// the modes that the lines give, and with its hunks where their headers say.
pub open spec fn file_says(f: FileModel, rows: Seq<Seq<char>>) -> bool {
    &&& is_made_of(f.header, rows)
    &&& forall|l: Seq<char>, q: Seq<char>, r: Seq<char>, p: Seq<char>|
        rows[0] == #[trigger] git_line(l, q, r, p) && is_side_mark(l) && is_side_mark(r)
            && !q.contains(' ') && is_plain_path(p) ==> f.path == p
    &&& f.added <==> some_row(rows, RowKind::Adds) || exists|j: int|
        0 <= j < f.hunks.len() && (#[trigger] f.hunks[j]).old_start == 0 && f.hunks[j].old_lines
            == 0
    &&& f.deleted <==> some_row(rows, RowKind::Deletes)
    &&& f.binary <==> some_row(rows, RowKind::Binary)
    &&& modes_said(rows, f.old_mode, f.new_mode)
    &&& f.mode_change <==> {
        &&& f.old_mode is Some
        &&& f.new_mode is Some
        &&& f.old_mode != f.new_mode
        &&& !some_row(rows, RowKind::Adds)
        &&& !some_row(rows, RowKind::Deletes)
    }
    &&& forall|j: int| 0 <= j < f.hunks.len() ==> hunk_says(#[trigger] f.hunks[j])
}

spec fn section_read(s: SectionModel) -> bool {
    &&& exists|rows: Seq<Seq<char>>| #[trigger] section_says(s, rows)
    &&& forall|j: int| 0 <= j < s.hunks.len() ==> hunk_read(#[trigger] s.hunks[j])
}

spec fn file_read(f: FileModel) -> bool {
    exists|rows: Seq<Seq<char>>| #[trigger] file_says(f, rows)
}

spec fn scan_read(st: ScanModel) -> bool {
    &&& forall|k: int| 0 <= k < st.files.len() ==> file_read(#[trigger] st.files[k])
    &&& st.section is Some ==> section_read(st.section->0)
}

proof fn lemma_close_says(s: SectionModel)
    requires
        section_read(s),
    ensures
        file_read(s.close()),
{
    let rows = choose|rows: Seq<Seq<char>>| #[trigger] section_says(s, rows);
    let f = s.close();
    assert forall|j: int| 0 <= j < f.hunks.len() implies hunk_says(#[trigger] f.hunks[j]) by {
        lemma_hunk_says(s.hunks[j]);
    }
    assert forall|l: Seq<char>, q: Seq<char>, r: Seq<char>, p: Seq<char>|
        rows[0] == #[trigger] git_line(l, q, r, p) && is_side_mark(l) && is_side_mark(r)
            && !q.contains(' ') && is_plain_path(p) implies f.path == p by {
        law_line_names_its_path(l, q, r, p);
    }
    assert(file_says(f, rows));
}

/// The header of a hunk is the line that opened it.
proof fn lemma_header_kept(line: Seq<char>)
    ensures
        model::hunk_header(line) matches Ok(h) ==> h.header == line && laws::bare_hunk(h) == h,
{
}

proof fn lemma_section_line_read(s: SectionModel, after_insert: bool, line: Seq<char>)
    requires
        section_read(s),
        !line.contains('\n'),
    ensures
        model::section_line(s, after_insert, line) matches Ok((t, _)) ==> section_read(t),
{
    let rows = choose|rows: Seq<Seq<char>>| #[trigger] section_says(s, rows);
    if let Ok((t, _)) = model::section_line(s, after_insert, line) {
        if "@@ "@.is_prefix_of(line) {
            lemma_header_kept(line);
            assert(section_says(t, rows));
        } else if line != "\\ No newline at end of file"@ && s.hunks.len() == 0 {
            lemma_header_push(s, rows, line);
            assert(section_says(t, rows.push(line)));
        } else {
            assert(section_says(t, rows));
            if s.hunks.len() > 0 {
                let h = s.hunks.last();
                assert(hunk_read(s.hunks[s.hunks.len() - 1]));
                let g = t.hunks.last();
                assert(laws::bare_hunk(g) == laws::bare_hunk(h));
                assert(hunk_read(g));
                assert forall|j: int| 0 <= j < t.hunks.len() implies hunk_read(
                    #[trigger] t.hunks[j],
                ) by {
                    if j < s.hunks.len() - 1 {
                        assert(t.hunks[j] == s.hunks[j]);
                    }
                }
            }
        }
    }
}

proof fn lemma_scan_line_read(st: ScanModel, line: Seq<char>)
    requires
        scan_read(st),
        !line.contains('\n'),
    ensures
        model::scan_line(st, line) matches Ok(next) ==> scan_read(next),
{
    if "diff --git "@.is_prefix_of(line) {
        lemma_open_says(line);
        let s = SectionModel::open(line);
        assert(section_says(s, seq![line]));
        if let Some(open) = st.section {
            lemma_close_says(open);
        }
        let all = st.all_files();
        assert forall|k: int| 0 <= k < all.len() implies file_read(#[trigger] all[k]) by {
            if k < st.files.len() {
                assert(all[k] == st.files[k]);
            }
        }
    } else if let Some(s) = st.section {
        lemma_section_line_read(s, st.after_insert, line);
    }
}

spec fn rows_plain(rows: Seq<Seq<char>>) -> bool {
    forall|i: int|
        0 <= i < rows.len() ==> !text::trim_end_char(#[trigger] rows[i], '\n').contains('\n')
}

proof fn lemma_rows_plain(t: Seq<char>)
    ensures
        rows_plain(text::split_keep(t)),
    decreases t.len(),
{
    if t.len() > 0 {
        text::lemma_find_char(t, '\n');
        let k = text::find_char(t, '\n');
        if k < t.len() {
            let a = t.take(k);
            let rest = t.skip(k + 1);
            assert(t =~= a.push('\n') + rest);
            assert(!a.contains('\n'));
            text::lemma_split_keep_line(a, rest);
            lemma_rows_plain(rest);
            laws::lemma_scan_row(ScanModel::start(), a);
            assert(a.push('\n').drop_last() =~= a);
            assert(text::trim_end_char(a, '\n') == a) by {
                if a.len() > 0 {
                    assert(a.contains(a.last()));
                }
            }
            let rows = text::split_keep(t);
            assert forall|i: int| 0 <= i < rows.len() implies !text::trim_end_char(
                #[trigger] rows[i],
                '\n',
            ).contains('\n') by {
                if i > 0 {
                    assert(rows[i] == text::split_keep(rest)[i - 1]);
                }
            }
        } else {
            assert(t.contains(t.last()));
            assert(text::trim_end_char(t, '\n') == t);
        }
    }
}

proof fn lemma_scan_read(st: ScanModel, rows: Seq<Seq<char>>)
    requires
        scan_read(st),
        rows_plain(rows),
    ensures
        model::scan(st, rows) matches Ok(end) ==> scan_read(end),
    decreases rows.len(),
{
    if rows.len() > 0 {
        let line = text::trim_end_char(rows[0], '\n');
        lemma_scan_line_read(st, line);
        if let Ok(next) = model::scan_line(st, line) {
            let rest = rows.drop_first();
            assert forall|i: int| 0 <= i < rest.len() implies !text::trim_end_char(
                #[trigger] rest[i],
                '\n',
            ).contains('\n') by {
                assert(rest[i] == rows[i + 1]);
            }
            lemma_scan_read(next, rest);
        }
    }
}

/// Every file that is read of a patch says what the lines of its section say.
pub proof fn law_file_says_what_its_section_says(t: Seq<char>, k: int)
    requires
        model::unified_diff(t) is Ok,
        0 <= k < model::unified_diff(t)->Ok_0.len(),
    ensures
        exists|rows: Seq<Seq<char>>| #[trigger]
            file_says(model::unified_diff(t)->Ok_0[k], rows),
{
    lemma_rows_plain(t);
    lemma_scan_read(ScanModel::start(), text::split_keep(t));
    let end = model::scan(ScanModel::start(), text::split_keep(t))->Ok_0;
    if let Some(s) = end.section {
        lemma_close_says(s);
    }
    let files = end.all_files();
    assert(file_read(files[k])) by {
        if k < end.files.len() {
            assert(files[k] == end.files[k]);
        }
    }
}

proof fn lemma_path_kept(st: ScanModel, rows: Seq<Seq<char>>)
    requires
        st.section is Some,
    ensures
        model::scan(st, rows) matches Ok(end) ==> end.all_files().len() > st.files.len()
            && end.all_files()[st.files.len() as int].path == st.section->0.path && (forall|j: int|
            0 <= j < st.files.len() ==> end.all_files()[j] == st.files[j]),
    decreases rows.len(),
{
    if rows.len() > 0 {
        let line = text::trim_end_char(rows[0], '\n');
        if let Ok(next) = model::scan_line(st, line) {
            lemma_path_kept(next, rows.drop_first());
            if "diff --git "@.is_prefix_of(line) {
                if let Ok(end) = model::scan(next, rows.drop_first()) {
                    let n = st.files.len() as int;
                    assert(end.all_files()[n] == next.files[n]);
                    assert(forall|j: int|
                        0 <= j < st.files.len() ==> next.files[j] == st.files[j]);
                    assert(forall|j: int|
                        0 <= j < st.files.len() ==> end.all_files()[j] == next.files[j]);
                }
            }
        }
    }
}

/// A section that opens with the `diff --git` line of a path, its sides in
/// either order, is read as a file at exactly that path.
pub proof fn law_section_is_of_its_path(
    l: Seq<char>,
    q: Seq<char>,
    r: Seq<char>,
    p: Seq<char>,
    rest: Seq<char>,
)
    requires
        is_side_mark(l),
        is_side_mark(r),
        !q.contains(' '),
        !q.contains('\n'),
        is_plain_path(p),
        model::unified_diff(git_line(l, q, r, p).push('\n') + rest) is Ok,
    ensures
        model::unified_diff(git_line(l, q, r, p).push('\n') + rest)->Ok_0.len() > 0,
        model::unified_diff(git_line(l, q, r, p).push('\n') + rest)->Ok_0[0].path == p,
{
    let line = git_line(l, q, r, p);
    let start = ScanModel::start();
    reveal_strlit("diff --git ");
    reveal_strlit("a/");
    reveal_strlit("b/");
    reveal_strlit(" ");
    lemma_after("diff --git "@, l + q + " "@ + r + p);
    assert(line =~= "diff --git "@ + (l + q + " "@ + r + p));
    assert(!line.contains('\n')) by {
        assert(forall|i: int| 0 <= i < 11 ==> "diff --git "@[i] != '\n');
        assert("diff --git "@.len() == 11);
        assert("a/"@.len() == 2 && "a/"@[0] == 'a' && "a/"@[1] == '/');
        assert("b/"@.len() == 2 && "b/"@[0] == 'b' && "b/"@[1] == '/');
        assert(" "@.len() == 1 && " "@[0] == ' ');
        if line.contains('\n') {
            let i = choose|i: int| 0 <= i < line.len() && line[i] == '\n';
            let m = 13 + q.len() as int;
            if 13 <= i < m {
                assert(q[i - 13] == '\n');
            } else if i >= m + 3 {
                assert(p[i - m - 3] == '\n');
            }
        }
    }
    assert(laws::is_whole(line.push('\n')));
    laws::lemma_scan_whole(start, line.push('\n'), rest);
    laws::lemma_scan_row(start, line);
    law_line_names_its_path(l, q, r, p);
    let next = model::scan_line(start, line)->Ok_0;
    lemma_path_kept(next, text::split_keep(rest));
    assert(start.all_files() =~= Seq::<FileModel>::empty());
}

//// Lines of hunks

/// The files, with the last hunk of the last file as it is once `h` was there.
pub open spec fn with_last_hunk(files: Seq<FileModel>, h: HunkModel) -> Seq<FileModel> {
    let f = files.last();
    files.drop_last().push(FileModel { hunks: f.hunks.drop_last().push(h), ..f })
}

/// The last hunk of the last file.
pub open spec fn last_hunk(files: Seq<FileModel>) -> HunkModel {
    files.last().hunks.last()
}

/// Whether a patch ends among the lines of a hunk.
pub open spec fn ends_in_hunk(a: Seq<char>) -> bool {
    &&& laws::is_whole(a)
    &&& model::unified_diff(a) matches Ok(files)
    &&& files.len() > 0
    &&& files.last().hunks.len() > 0
}

spec fn opened(st: ScanModel) -> bool {
    st.section is None ==> st.files.len() == 0
}

proof fn lemma_opened(st: ScanModel, rows: Seq<Seq<char>>)
    requires
        opened(st),
    ensures
        model::scan(st, rows) matches Ok(end) ==> opened(end),
    decreases rows.len(),
{
    if rows.len() > 0 {
        let line = text::trim_end_char(rows[0], '\n');
        if let Ok(next) = model::scan_line(st, line) {
            lemma_opened(next, rows.drop_first());
        }
    }
}

/// Where the last hunk of a section changes but for its place, so does that of
/// its file.
proof fn lemma_close_last(s: SectionModel, t: SectionModel)
    requires
        s.hunks.len() > 0,
        t == (SectionModel { hunks: t.hunks, ..s }),
        t.hunks.len() == s.hunks.len(),
        t.hunks.drop_last() == s.hunks.drop_last(),
        t.hunks.last().old_start == s.hunks.last().old_start,
        t.hunks.last().old_lines == s.hunks.last().old_lines,
    ensures
        t.close() == (FileModel {
            hunks: s.hunks.drop_last().push(t.hunks.last()),
            ..s.close()
        }),
{
    let n = s.hunks.len() as int;
    assert forall|j: int| 0 <= j < n implies s.hunks[j].old_start == t.hunks[j].old_start
        && s.hunks[j].old_lines == t.hunks[j].old_lines by {
        if j < n - 1 {
            assert(s.hunks.drop_last()[j] == t.hunks.drop_last()[j]);
        }
    }
    let in_s = exists|j: int|
        0 <= j < s.hunks.len() && (#[trigger] s.hunks[j]).old_start == 0 && s.hunks[j].old_lines
            == 0;
    let in_t = exists|j: int|
        0 <= j < t.hunks.len() && (#[trigger] t.hunks[j]).old_start == 0 && t.hunks[j].old_lines
            == 0;
    if in_s {
        let j = choose|j: int|
            0 <= j < s.hunks.len() && (#[trigger] s.hunks[j]).old_start == 0
                && s.hunks[j].old_lines == 0;
        assert(t.hunks[j].old_start == 0);
    }
    if in_t {
        let j = choose|j: int|
            0 <= j < t.hunks.len() && (#[trigger] t.hunks[j]).old_start == 0
                && t.hunks[j].old_lines == 0;
        assert(s.hunks[j].old_start == 0);
    }
    assert(t.hunks =~= s.hunks.drop_last().push(t.hunks.last()));
}

/// What one more line does to a patch that ends among the lines of a hunk.
proof fn lemma_one_more(a: Seq<char>, row: Seq<char>)
    requires
        ends_in_hunk(a),
        !row.contains('\n'),
        !laws::opens_file(row),
    ensures
        ({
            let st = model::scan(ScanModel::start(), text::split_keep(a))->Ok_0;
            let s = st.section->0;
            &&& model::scan(ScanModel::start(), text::split_keep(a)) is Ok
            &&& st.section is Some
            &&& model::unified_diff(a)->Ok_0 == st.files.push(s.close())
            &&& s.hunks.len() > 0
            &&& last_hunk(model::unified_diff(a)->Ok_0) == s.hunks.last()
            &&& model::unified_diff(a + row.push('\n')) == match model::section_line(
                s,
                st.after_insert,
                row,
            ) {
                Ok((t, _)) => Ok(st.files.push(t.close())),
                Err(e) => Err(e),
            }
            &&& model::scan(ScanModel::start(), text::split_keep(a + row.push('\n'))) matches Ok(
                end,
            ) ==> model::section_line(s, st.after_insert, row) matches Ok((t, ai))
                && end.section == Some(t) && end.after_insert == ai
        }),
{
    let start = ScanModel::start();
    lemma_opened(start, text::split_keep(a));
    laws::lemma_scan_whole(start, a, row.push('\n'));
    let st = model::scan(start, text::split_keep(a))->Ok_0;
    laws::lemma_scan_row(st, row);
}

/// Behind the header of a hunk a line is read by its first character: a space
/// for context, `-` for a line that goes and `+` for one that comes. An empty
/// line is an empty line of context.
pub proof fn law_hunk_lines_are_read_by_their_marks(a: Seq<char>, t: Seq<char>)
    requires
        ends_in_hunk(a),
        !t.contains('\n'),
    ensures
        ({
            let files = model::unified_diff(a)->Ok_0;
            let h = last_hunk(files);
            &&& model::unified_diff(a + (seq![' '] + t).push('\n')) == Ok::<
                Seq<FileModel>,
                ParseErrorModel,
            >(
                with_last_hunk(
                    files,
                    HunkModel { lines: h.lines.push(LineModel::Context(t)), ..h },
                ),
            )
            &&& model::unified_diff(a + (seq!['-'] + t).push('\n')) == Ok::<
                Seq<FileModel>,
                ParseErrorModel,
            >(with_last_hunk(files, HunkModel { lines: h.lines.push(LineModel::Delete(t)), ..h }))
            &&& model::unified_diff(a + (seq!['+'] + t).push('\n')) == Ok::<
                Seq<FileModel>,
                ParseErrorModel,
            >(with_last_hunk(files, HunkModel { lines: h.lines.push(LineModel::Insert(t)), ..h }))
            &&& model::unified_diff(a + seq!['\n']) == Ok::<Seq<FileModel>, ParseErrorModel>(
                with_last_hunk(
                    files,
                    HunkModel { lines: h.lines.push(LineModel::Context(Seq::empty())), ..h },
                ),
            )
        }),
{
    lemma_mark_row(a, ' ', t);
    lemma_mark_row(a, '-', t);
    lemma_mark_row(a, '+', t);
    let none = Seq::<char>::empty();
    lemma_plain_row(none);
    lemma_one_more(a, none);
    assert(none.push('\n') =~= seq!['\n']);
    let st = model::scan(ScanModel::start(), text::split_keep(a))->Ok_0;
    let s = st.section->0;
    lemma_pushed_line(st, LineModel::Context(none));
}

/// A line that is no part of a patch's own marks.
proof fn lemma_plain_row(row: Seq<char>)
    requires
        row.len() == 0 || (row[0] != 'd' && row[0] != '@' && row[0] != '\\'),
    ensures
        !laws::opens_file(row),
        !laws::opens_hunk(row),
        row != "\\ No newline at end of file"@,
{
    reveal_strlit("diff --git ");
    reveal_strlit("@@ ");
    reveal_strlit("\\ No newline at end of file");
    assert("diff --git "@.len() == 11 && "diff --git "@[0] == 'd');
    assert("@@ "@.len() == 3 && "@@ "@[0] == '@');
    assert("\\ No newline at end of file"@.len() == 27 && "\\ No newline at end of file"@[0]
        == '\\');
    if laws::opens_file(row) {
        lemma_starts("diff --git "@, row);
        assert("diff --git "@[0] == row[0]);
    }
    if laws::opens_hunk(row) {
        lemma_starts("@@ "@, row);
        assert("@@ "@[0] == row[0]);
    }
}

spec fn marked(mark: char, t: Seq<char>) -> LineModel {
    if mark == ' ' {
        LineModel::Context(t)
    } else if mark == '-' {
        LineModel::Delete(t)
    } else {
        LineModel::Insert(t)
    }
}

proof fn lemma_pushed_line(st: ScanModel, l: LineModel)
    requires
        st.section is Some,
        st.section->0.hunks.len() > 0,
    ensures
        ({
            let s = st.section->0;
            let h = s.hunks.last();
            st.files.push(s.with_line(l).close()) == with_last_hunk(
                st.files.push(s.close()),
                HunkModel { lines: h.lines.push(l), ..h },
            )
        }),
{
    let s = st.section->0;
    let u = s.with_line(l);
    assert(u.hunks.drop_last() =~= s.hunks.drop_last());
    lemma_close_last(s, u);
    assert(st.files.push(s.close()).drop_last() =~= st.files);
}

proof fn lemma_mark_row(a: Seq<char>, mark: char, t: Seq<char>)
    requires
        ends_in_hunk(a),
        !t.contains('\n'),
        mark == ' ' || mark == '-' || mark == '+',
    ensures
        ({
            let files = model::unified_diff(a)->Ok_0;
            let h = last_hunk(files);
            let row = seq![mark] + t;
            let l = marked(mark, t);
            &&& !row.contains('\n')
            &&& model::unified_diff(a + row.push('\n')) == Ok::<Seq<FileModel>, ParseErrorModel>(
                with_last_hunk(files, HunkModel { lines: h.lines.push(l), ..h }),
            )
            &&& ends_in_hunk(a + row.push('\n'))
            &&& last_hunk(model::unified_diff(a + row.push('\n'))->Ok_0) == (HunkModel {
                lines: h.lines.push(l),
                ..h
            })
            &&& model::scan(ScanModel::start(), text::split_keep(a + row.push('\n'))) matches Ok(
                end,
            ) && end.after_insert == (mark == '+')
        }),
{
    let row = seq![mark] + t;
    assert(!row.contains('\n')) by {
        if row.contains('\n') {
            let i = choose|i: int| 0 <= i < row.len() && row[i] == '\n';
            assert(t[i - 1] == '\n');
        }
    }
    lemma_plain_row(row);
    lemma_one_more(a, row);
    assert(row.drop_first() =~= t);
    let st = model::scan(ScanModel::start(), text::split_keep(a))->Ok_0;
    lemma_pushed_line(st, marked(mark, t));
    assert((a + row.push('\n')).last() == '\n');
}

/// A line of any other kind among the lines of a hunk is reported as it stands.
pub proof fn law_foreign_line_is_reported(a: Seq<char>, row: Seq<char>)
    requires
        ends_in_hunk(a),
        !row.contains('\n'),
        row.len() > 0,
        row[0] != ' ' && row[0] != '-' && row[0] != '+' && row[0] != '\\' && row[0] != '@' && row[0]
            != 'd',
    ensures
        model::unified_diff(a + row.push('\n')) == Err::<Seq<FileModel>, ParseErrorModel>(
            ParseErrorModel::BadHunkLine(row),
        ),
{
    lemma_plain_row(row);
    lemma_one_more(a, row);
}

/// The mark for a missing final newline is for the side of the line before it:
/// the new side behind a `+` line, the old side behind any other.
pub proof fn law_missing_newline_is_of_the_line_before(a: Seq<char>, mark: char, t: Seq<char>)
    requires
        ends_in_hunk(a),
        !t.contains('\n'),
        mark == ' ' || mark == '-' || mark == '+',
    ensures
        ({
            let b = a + (seq![mark] + t).push('\n');
            let c = b + "\\ No newline at end of file"@.push('\n');
            let h = last_hunk(model::unified_diff(b)->Ok_0);
            &&& model::unified_diff(c) matches Ok(files)
            &&& last_hunk(files) == (HunkModel {
                no_newline_new: h.no_newline_new || mark == '+',
                no_newline_old: h.no_newline_old || mark != '+',
                ..h
            })
        }),
{
    let b = a + (seq![mark] + t).push('\n');
    let row = "\\ No newline at end of file"@;
    lemma_mark_row(a, mark, t);
    reveal_strlit("\\ No newline at end of file");
    reveal_strlit("diff --git ");
    reveal_strlit("@@ ");
    assert(row.len() == 27 && row[0] == '\\');
    assert("diff --git "@.len() == 11 && "diff --git "@[0] == 'd');
    assert("@@ "@.len() == 3 && "@@ "@[0] == '@');
    assert(!laws::opens_file(row)) by {
        if laws::opens_file(row) {
            lemma_starts("diff --git "@, row);
            assert("diff --git "@[0] == row[0]);
        }
    }
    assert(!laws::opens_hunk(row)) by {
        if laws::opens_hunk(row) {
            lemma_starts("@@ "@, row);
            assert("@@ "@[0] == row[0]);
        }
    }
    assert(!row.contains('\n')) by {
        assert(forall|i: int| 0 <= i < 27 ==> row[i] != '\n');
    }
    lemma_one_more(b, row);
    let st = model::scan(ScanModel::start(), text::split_keep(b))->Ok_0;
    let u = st.section->0.with_no_newline(st.after_insert);
    assert(u.close().hunks.last() == u.hunks.last());
}

} // verus!
