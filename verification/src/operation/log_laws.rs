//! What the operation log records, and what a snapshot takes.

use vstd::prelude::*;

use super::middleware;
use super::middleware::MutationClass;
use super::snapshot;
use super::snapshot::{EntryModel, ScanModel};
use super::store;
use super::store::{HeadModel, HeadUpdate, OpHead};
use crate::order;
use crate::text;

verus! {

//// Which commands are recorded

/// Whether a command changes the working copy, the index, the history or the
/// refs, or hands work to others.
pub open spec fn changes_something(name: Seq<char>) -> bool {
    ||| name == "add"@ || name == "checkout"@ || name == "switch"@ || name == "restore"@
    ||| name == "reset"@ || name == "clean"@ || name == "commit"@ || name == "merge"@
    ||| name == "rebase"@ || name == "cherry-pick"@ || name == "revert"@ || name == "am"@
    ||| name == "branch"@ || name == "tag"@ || name == "fetch"@ || name == "push"@
    ||| name == "update-ref"@ || name == "index"@ || name == "update-index"@
    ||| name == "agent"@ || name == "cloud"@ || name == "external"@
}

/// Whether a command only looks.
pub open spec fn only_looks(name: Seq<char>) -> bool {
    ||| name == "status"@ || name == "log"@ || name == "show"@ || name == "diff"@
    ||| name == "op"@ || name == "help"@
}

/// Whether a command is a worker of the program's own.
pub open spec fn is_worker(name: Seq<char>) -> bool {
    name == "status-io-worker"@ || name == "internal-worker"@
}

proof fn lemma_looking_words()
    ensures
        "status"@.len() == 6 && "status"@[1] == 't' && "status"@[0] == 's',
        "log"@.len() == 3 && "log"@[0] == 'l',
        "show"@.len() == 4 && "show"@[0] == 's',
        "diff"@.len() == 4 && "diff"@[0] == 'd',
        "op"@.len() == 2 && "op"@[0] == 'o',
        "help"@.len() == 4 && "help"@[0] == 'h',
        "status-io-worker"@.len() == 16,
        "internal-worker"@.len() == 15,
{
    reveal_strlit("status");
    reveal_strlit("log");
    reveal_strlit("show");
    reveal_strlit("diff");
    reveal_strlit("op");
    reveal_strlit("help");
    reveal_strlit("status-io-worker");
    reveal_strlit("internal-worker");
}

proof fn lemma_changing_words()
    ensures
        "add"@.len() == 3 && "add"@[0] == 'a',
        "checkout"@.len() == 8,
        "switch"@.len() == 6 && "switch"@[1] == 'w',
        "restore"@.len() == 7,
        "reset"@.len() == 5,
        "clean"@.len() == 5,
        "commit"@.len() == 6 && "commit"@[0] == 'c',
        "merge"@.len() == 5,
        "rebase"@.len() == 6 && "rebase"@[0] == 'r',
        "cherry-pick"@.len() == 11,
        "revert"@.len() == 6 && "revert"@[0] == 'r',
        "am"@.len() == 2 && "am"@[0] == 'a',
        "branch"@.len() == 6 && "branch"@[0] == 'b',
        "tag"@.len() == 3 && "tag"@[0] == 't',
        "fetch"@.len() == 5,
        "push"@.len() == 4 && "push"@[0] == 'p',
        "update-ref"@.len() == 10,
        "index"@.len() == 5,
        "update-index"@.len() == 12,
        "agent"@.len() == 5,
        "cloud"@.len() == 5,
        "external"@.len() == 8,
{
    reveal_strlit("add");
    reveal_strlit("checkout");
    reveal_strlit("switch");
    reveal_strlit("restore");
    reveal_strlit("reset");
    reveal_strlit("clean");
    reveal_strlit("commit");
    reveal_strlit("merge");
    reveal_strlit("rebase");
    reveal_strlit("cherry-pick");
    reveal_strlit("revert");
    reveal_strlit("am");
    reveal_strlit("branch");
    reveal_strlit("tag");
    reveal_strlit("fetch");
    reveal_strlit("push");
    reveal_strlit("update-ref");
    reveal_strlit("index");
    reveal_strlit("update-index");
    reveal_strlit("agent");
    reveal_strlit("cloud");
    reveal_strlit("external");
}

/// A command is recorded exactly where it changes something: what only looks is
/// not, nor is a worker, and what is not known has no class.
pub proof fn law_changes_are_recorded(command: Seq<char>)
    ensures
        ({
            let name = text::ascii_lower(text::trim(command));
            let class = middleware::class_of(command);
            &&& class is None <==> !(changes_something(name) || only_looks(name) || is_worker(name))
            &&& class matches Some(c) ==> (c.is_recorded() <==> changes_something(name))
            &&& only_looks(name) ==> class == Some(MutationClass::ReadOnly)
        }),
{
    lemma_looking_words();
    lemma_changing_words();
}

/// Blanks around a command make no difference to its class.
pub proof fn law_blanks_make_no_difference(a: Seq<char>, command: Seq<char>, b: Seq<char>)
    requires
        text::is_blank(a),
        text::is_blank(b),
    ensures
        middleware::class_of(a + command + b) == middleware::class_of(command),
{
    text::lemma_trim_around(a, command, b);
}

//// Heads

/// Heads are replaced exactly where those that were expected are still there,
/// and are the proposed ones afterwards. Otherwise none is taken away.
pub proof fn law_heads_are_replaced_where_expected(
    current: &[OpHead],
    expected: &[OpHead],
    proposed: &[OpHead],
    u: HeadUpdate,
)
    requires
        call_ensures(store::cas_update_op_heads, (current, expected, proposed), u),
    ensures
        u.replace <==> order::views(current@) == order::views(expected@),
        u.outcome is Ok <==> u.replace,
        order::views(u.insert@) == order::views(proposed@),
        u.outcome matches Ok(v) ==> order::views(v@) == order::views(proposed@),
{
}

/// The next generation is the one right behind the highest, and the first one
/// is one.
pub proof fn law_generations_are_counted(heads: Seq<HeadModel>)
    ensures
        heads.len() == 0 ==> store::next_generation(heads) == 1,
        heads.len() > 0 ==> exists|i: int|
            0 <= i < heads.len() && (#[trigger] heads[i]).generation + 1 == store::next_generation(
                heads,
            ),
        forall|i: int|
            0 <= i < heads.len() ==> (#[trigger] heads[i]).generation < store::next_generation(
                heads,
            ),
    decreases heads.len(),
{
    assert forall|i: int| 0 <= i < heads.len() implies (#[trigger] heads[i]).generation
        < store::next_generation(heads) by {
        store::law_next_generation_is_new(heads, i);
    }
    if heads.len() == 1 {
        assert(heads[0].generation + 1 == store::next_generation(heads));
    } else if heads.len() > 1 {
        let front = heads.drop_last();
        law_generations_are_counted(front);
        let i = choose|i: int|
            0 <= i < front.len() && (#[trigger] front[i]).generation + 1
                == store::next_generation(front);
        assert(heads[i] == front[i]);
        let last = heads.len() - 1;
        assert(heads[last] == heads.last());
        if heads.last().generation > store::highest_generation(front) {
            assert(heads[last].generation + 1 == store::next_generation(heads));
        } else {
            assert(heads[i].generation + 1 == store::next_generation(heads));
        }
    }
}

//// Paths

/// Whether the part of a path that starts at `j` is `part`.
pub open spec fn has_part(p: Seq<u8>, j: int, part: Seq<u8>) -> bool {
    let end = j + part.len();
    &&& 0 <= j
    &&& end <= p.len()
    &&& j == 0 || p[j - 1] == 47
    &&& p.subrange(j, end) == part
    &&& end == p.len() || p[end] == 47
}

/// Whether the part of a path that starts at `j` is `..`.
pub open spec fn goes_up(p: Seq<u8>, j: int) -> bool {
    has_part(p, j, seq![46u8, 46u8])
}

proof fn lemma_part_found(p: Seq<u8>, i: int)
    requires
        0 <= i <= p.len(),
    ensures
        i <= snapshot::part_end(p, i) <= p.len(),
        forall|j: int| i <= j < snapshot::part_end(p, i) ==> p[j] != 47,
        snapshot::part_end(p, i) < p.len() ==> p[snapshot::part_end(p, i)] == 47,
    decreases p.len() - i,
{
    if i < p.len() && p[i] != 47 {
        lemma_part_found(p, i + 1);
    }
}

/// The part at a place is the one that reaches to its end.
proof fn lemma_part_is(p: Seq<u8>, i: int, part: Seq<u8>)
    requires
        0 <= i <= p.len(),
        i == 0 || p[i - 1] == 47,
        forall|k: int| 0 <= k < part.len() ==> #[trigger] part[k] != 47,
    ensures
        has_part(p, i, part) <==> p.subrange(i, snapshot::part_end(p, i)) == part,
{
    lemma_part_found(p, i);
    let e = snapshot::part_end(p, i);
    if has_part(p, i, part) {
        let end = i + part.len();
        if e < end {
            assert(p.subrange(i, end)[e - i] == p[e]);
            assert(part[e - i] != 47);
        }
    } else if p.subrange(i, e) == part {
        assert(e == i + part.len());
    }
}

proof fn lemma_leads_up(p: Seq<u8>, i: int)
    requires
        0 <= i <= p.len() + 1,
        i == 0 || i == p.len() + 1 || p[i - 1] == 47,
    ensures
        snapshot::leads_up(p, i) <==> exists|j: int|
            i <= j && #[trigger] goes_up(p, j),
    decreases p.len() + 1 - i,
{
    let up = seq![46u8, 46u8];
    if i >= p.len() {
        assert forall|j: int| i <= j implies !#[trigger] goes_up(p, j) by {}
    } else {
        lemma_part_found(p, i);
        lemma_part_is(p, i, up);
        let e = snapshot::part_end(p, i);
        lemma_leads_up(p, e + 1);
        if snapshot::leads_up(p, i) && !goes_up(p, i) {
            let j = choose|j: int| e + 1 <= j && #[trigger] goes_up(p, j);
            assert(i <= j);
        }
        if exists|j: int| i <= j && #[trigger] goes_up(p, j) {
            let j = choose|j: int| i <= j && #[trigger] goes_up(p, j);
            if j > i {
                assert(j > e) by {
                    if j <= e {
                        assert(p[j - 1] != 47);
                    }
                }
            }
        }
    }
}

/// A path is safe exactly where it is neither empty nor absolute, does not
/// start with `.`, and has no part `..`.
pub proof fn law_safe_paths_stay_inside(p: Seq<u8>)
    ensures
        snapshot::is_safe(p) <==> {
            &&& p.len() > 0
            &&& p[0] != 47
            &&& !has_part(p, 0, seq![46u8])
            &&& forall|j: int| !#[trigger] goes_up(p, j)
        },
{
    lemma_leads_up(p, 0);
    lemma_part_is(p, 0, seq![46u8]);
    assert forall|j: int| #[trigger] goes_up(p, j) implies 0 <= j by {}
}

/// Paths stand in the order of their first bytes that differ, the separator
/// before all others, so that a directory's contents stand together.
pub proof fn law_paths_stand_by_their_parts(
    p: Seq<u8>,
    c: u8,
    x: Seq<u8>,
    d: u8,
    y: Seq<u8>,
)
    requires
        c != d,
        c == 47 || (d != 47 && c < d),
    ensures
        snapshot::path_le(p + seq![c] + x, p + seq![d] + y),
        !snapshot::path_le(p + seq![d] + y, p + seq![c] + x),
        snapshot::path_le(p, p + x),
    decreases p.len(),
{
    let a = p + seq![c] + x;
    let b = p + seq![d] + y;
    if p.len() > 0 {
        law_paths_stand_by_their_parts(p.drop_first(), c, x, d, y);
        assert(a.drop_first() =~= p.drop_first() + seq![c] + x);
        assert(b.drop_first() =~= p.drop_first() + seq![d] + y);
        assert((p + x).drop_first() =~= p.drop_first() + x);
        assert(a[0] == p[0] && b[0] == p[0] && (p + x)[0] == p[0]);
    } else {
        assert(a[0] == c && b[0] == d);
    }
}

//// Scans

/// Whether an entry is one of a repository's own directories.
pub open spec fn is_own(e: EntryModel) -> bool {
    e.name == vstd::utf8::encode_utf8(".git"@) || e.name == vstd::utf8::encode_utf8(".libra"@)
}

/// Whether an entry is a file that a scan takes: no link, and none of a
/// repository's own.
pub open spec fn is_taken(e: EntryModel) -> bool {
    !is_own(e) && !e.is_dir && e.is_file && !e.is_symlink
}

/// The path of an entry.
pub open spec fn entry_path(dir: Seq<u8>, e: EntryModel) -> Seq<u8> {
    if dir.len() == 0 {
        e.name
    } else {
        dir + seq![47u8] + e.name
    }
}

/// Whether a path is that of an entry that is taken.
pub open spec fn is_of(path: Seq<u8>, dir: Seq<u8>, entries: Seq<EntryModel>) -> bool {
    exists|i: int|
        0 <= i < entries.len() && is_taken(#[trigger] entries[i]) && path == entry_path(
            dir,
            entries[i],
        )
}

proof fn lemma_own(e: EntryModel)
    ensures
        snapshot::is_private(e.name) <==> is_own(e),
{
    reveal_strlit(".git");
    reveal_strlit(".libra");
    let a = ".git"@;
    let b = ".libra"@;
    assert(a.len() == 4 && b.len() == 6);
    assert(vstd::utf8::is_ascii_chars(a)) by {
        assert(forall|i: int| 0 <= i < 4 ==> '\0' <= #[trigger] a[i] <= '\u{7f}');
    }
    assert(vstd::utf8::is_ascii_chars(b)) by {
        assert(forall|i: int| 0 <= i < 6 ==> '\0' <= #[trigger] b[i] <= '\u{7f}');
    }
    vstd::utf8::is_ascii_chars_encode_utf8(a);
    vstd::utf8::is_ascii_chars_encode_utf8(b);
    assert(vstd::utf8::encode_utf8(a) =~= seq![46u8, 103, 105, 116]);
    assert(vstd::utf8::encode_utf8(b) =~= seq![46u8, 108, 105, 98, 114, 97]);
}

/// A scan takes every file of a directory once and lets every directory wait,
/// but for a repository's own and for links, until its list is full; it takes
/// nothing else, and loses nothing that it had.
pub proof fn law_scan_takes_what_is_there(
    s: ScanModel,
    dir: Seq<u8>,
    entries: Seq<EntryModel>,
    max_files: int,
)
    ensures
        snapshot::scan_entries(s, dir, entries, max_files) matches Ok(t) ==> {
            &&& s.files.is_prefix_of(t.files)
            &&& s.queue.is_prefix_of(t.queue)
            &&& s.partial ==> t.partial
            &&& !t.partial ==> t.files == s.files + taken_files(dir, entries) && t.queue == s.queue
                + waiting(dir, entries)
            &&& t.partial && !s.partial ==> t.files.len() >= max_files
            &&& forall|k: int|
                s.files.len() <= k < t.files.len() ==> is_of(#[trigger] t.files[k], dir, entries)
        },
    decreases entries.len(),
{
    if let Ok(t) = snapshot::scan_entries(s, dir, entries, max_files) {
        if entries.len() == 0 {
            assert(s.files + taken_files(dir, entries) =~= s.files);
            assert(s.queue + waiting(dir, entries) =~= s.queue);
            assert(s.files =~= s.files.subrange(0, s.files.len() as int));
            assert(s.queue =~= s.queue.subrange(0, s.queue.len() as int));
        } else {
            let e = entries[0];
            let rest = entries.drop_first();
            let child = entry_path(dir, e);
            lemma_own(e);
            assert(snapshot::child_path(dir, e.name) =~= child);
            let next = if is_own(e) {
                s
            } else if e.is_dir {
                ScanModel { queue: s.queue.push(child), ..s }
            } else if is_taken(e) {
                ScanModel { files: s.files.push(child), ..s }
            } else {
                s
            };
            law_scan_takes_what_is_there(next, dir, rest, max_files);
            if is_taken(e) && next.files.len() >= max_files {
                assert(t.files == next.files);
                assert(t.queue == s.queue);
                assert(s.files =~= t.files.subrange(0, s.files.len() as int));
                assert(s.queue =~= t.queue.subrange(0, s.queue.len() as int));
                assert(is_taken(entries[0]));
            } else {
                assert(s.files =~= t.files.subrange(0, s.files.len() as int)) by {
                    assert forall|k: int| 0 <= k < s.files.len() implies s.files[k]
                        == t.files[k] by {
                        assert(next.files[k] == t.files.subrange(0, next.files.len() as int)[k]);
                    }
                }
                assert(s.queue =~= t.queue.subrange(0, s.queue.len() as int)) by {
                    assert forall|k: int| 0 <= k < s.queue.len() implies s.queue[k]
                        == t.queue[k] by {
                        assert(next.queue[k] == t.queue.subrange(0, next.queue.len() as int)[k]);
                    }
                }
                if !t.partial {
                    assert(next.files + taken_files(dir, rest) =~= s.files + taken_files(
                        dir,
                        entries,
                    ));
                    assert(next.queue + waiting(dir, rest) =~= s.queue + waiting(dir, entries));
                }
                assert forall|k: int| s.files.len() <= k < t.files.len() implies is_of(
                    #[trigger] t.files[k],
                    dir,
                    entries,
                ) by {
                    if k < next.files.len() {
                        assert(next.files[k] == t.files.subrange(0, next.files.len() as int)[k]);
                        assert(is_taken(entries[0]));
                    } else {
                        let i = choose|i: int|
                            0 <= i < rest.len() && is_taken(#[trigger] rest[i]) && t.files[k]
                                == entry_path(dir, rest[i]);
                        assert(entries[i + 1] == rest[i]);
                    }
                }
            }
        }
    }
}

/// The files of a directory that a scan takes.
pub open spec fn taken_files(dir: Seq<u8>, entries: Seq<EntryModel>) -> Seq<Seq<u8>>
    decreases entries.len(),
{
    if entries.len() == 0 {
        Seq::empty()
    } else if is_taken(entries[0]) {
        seq![entry_path(dir, entries[0])] + taken_files(dir, entries.drop_first())
    } else {
        taken_files(dir, entries.drop_first())
    }
}

/// The directories of a directory that wait for a scan.
pub open spec fn waiting(dir: Seq<u8>, entries: Seq<EntryModel>) -> Seq<Seq<u8>>
    decreases entries.len(),
{
    if entries.len() == 0 {
        Seq::empty()
    } else if entries[0].is_dir && !is_own(entries[0]) {
        seq![entry_path(dir, entries[0])] + waiting(dir, entries.drop_first())
    } else {
        waiting(dir, entries.drop_first())
    }
}

} // verus!
