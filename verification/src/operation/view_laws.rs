//! What views refer to, and which references they hold.

use vstd::prelude::*;

use super::facet;
use super::runtime;
use super::runtime::{LocalBranch, RefModel, RemoteRow};
use super::view;
use super::view::{HeadState, RepoViewV2, WorkspaceSnapshotV2};
use crate::text;

verus! {

proof fn lemma_among(a: Seq<Seq<char>>, b: Seq<Seq<char>>, x: Seq<char>)
    ensures
        (a + b).contains(x) <==> a.contains(x) || b.contains(x),
{
    if a.contains(x) {
        let i = choose|i: int| 0 <= i < a.len() && a[i] == x;
        assert((a + b)[i] == x);
    }
    if b.contains(x) {
        let i = choose|i: int| 0 <= i < b.len() && b[i] == x;
        assert((a + b)[a.len() + i] == x);
    }
    if (a + b).contains(x) {
        let i = choose|i: int| 0 <= i < (a + b).len() && (a + b)[i] == x;
        if i < a.len() {
            assert(a[i] == x);
        } else {
            assert(b[i - a.len()] == x);
        }
    }
}

/// Whether a repository's view refers to an object.
pub open spec fn view_refers_to(v: RepoViewV2, x: Seq<char>) -> bool {
    ||| x == v.refs_facet_oid@
    ||| exists|i: int|
        0 <= i < v.workspaces.entries@.len() && (#[trigger] v.workspaces.entries@[i]).oid@ == x
    ||| exists|i: int| 0 <= i < v.change_roots@.len() && (#[trigger] v.change_roots@[i])@ == x
    ||| exists|i: int|
        0 <= i < v.extension_facets.entries@.len() && (
        #[trigger] v.extension_facets.entries@[i]).oid@ == x
}

/// The roots of a view are the objects that it refers to: none is left out, so
/// that nothing that a view needs is collected, and none is added.
pub proof fn law_view_keeps_what_it_refers_to(v: RepoViewV2, x: Seq<char>)
    ensures
        v.root_texts().contains(x) <==> view_refers_to(v, x),
{
    let a = seq![v.refs_facet_oid@];
    let b = view::entry_oids(v.workspaces.entries@);
    let c = facet::oid_texts(v.change_roots@);
    let d = view::entry_oids(v.extension_facets.entries@);
    lemma_among(a, b, x);
    lemma_among(a + b, c, x);
    lemma_among(a + b + c, d, x);
    assert(a.contains(x) <==> x == v.refs_facet_oid@) by {
        assert(a[0] == v.refs_facet_oid@);
    }
    if b.contains(x) {
        let i = choose|i: int| 0 <= i < b.len() && b[i] == x;
        assert(v.workspaces.entries@[i].oid@ == x);
    }
    if exists|i: int|
        0 <= i < v.workspaces.entries@.len() && (#[trigger] v.workspaces.entries@[i]).oid@ == x {
        let i = choose|i: int|
            0 <= i < v.workspaces.entries@.len() && (#[trigger] v.workspaces.entries@[i]).oid@
                == x;
        assert(b[i] == x);
    }
    if c.contains(x) {
        let i = choose|i: int| 0 <= i < c.len() && c[i] == x;
        assert(v.change_roots@[i]@ == x);
    }
    if exists|i: int| 0 <= i < v.change_roots@.len() && (#[trigger] v.change_roots@[i])@ == x {
        let i = choose|i: int|
            0 <= i < v.change_roots@.len() && (#[trigger] v.change_roots@[i])@ == x;
        assert(c[i] == x);
    }
    if d.contains(x) {
        let i = choose|i: int| 0 <= i < d.len() && d[i] == x;
        assert(v.extension_facets.entries@[i].oid@ == x);
    }
    if exists|i: int|
        0 <= i < v.extension_facets.entries@.len() && (
        #[trigger] v.extension_facets.entries@[i]).oid@ == x {
        let i = choose|i: int|
            0 <= i < v.extension_facets.entries@.len() && (
            #[trigger] v.extension_facets.entries@[i]).oid@ == x;
        assert(d[i] == x);
    }
}

/// Whether a workspace's snapshot refers to an object.
pub open spec fn snapshot_refers_to(s: WorkspaceSnapshotV2, x: Seq<char>) -> bool {
    ||| x == s.index_tree_oid@
    ||| x == s.raw_index_blob_oid@
    ||| x == s.working_copy_tree_oid@
    ||| x == s.untracked_manifest_oid@
    ||| s.sparse_facet_oid matches Some(o) && o@ == x
    ||| s.sequencer_facet_oid matches Some(o) && o@ == x
    ||| s.head matches HeadState::Detached { oid } && oid@ == x
}

/// The roots of a snapshot are the objects that it refers to, a detached head
/// among them.
pub proof fn law_snapshot_keeps_what_it_refers_to(s: WorkspaceSnapshotV2, x: Seq<char>)
    ensures
        s.root_texts().contains(x) <==> snapshot_refers_to(s, x),
{
    let a = seq![
        s.index_tree_oid@,
        s.raw_index_blob_oid@,
        s.working_copy_tree_oid@,
        s.untracked_manifest_oid@,
    ];
    let b = view::opt_roots(s.sparse_facet_oid);
    let c = view::opt_roots(s.sequencer_facet_oid);
    let d = match s.head {
        HeadState::Detached { oid } => seq![oid@],
        _ => Seq::empty(),
    };
    lemma_among(a, b, x);
    lemma_among(a + b, c, x);
    lemma_among(a + b + c, d, x);
    assert(a[0] == s.index_tree_oid@ && a[1] == s.raw_index_blob_oid@ && a[2]
        == s.working_copy_tree_oid@ && a[3] == s.untracked_manifest_oid@);
    if let Some(o) = s.sparse_facet_oid {
        assert(b[0] == o@);
    }
    if let Some(o) = s.sequencer_facet_oid {
        assert(c[0] == o@);
    }
    if let HeadState::Detached { oid } = s.head {
        assert(d[0] == oid@);
    }
}

/// Whether a reference is that of a local branch.
pub open spec fn is_local(m: RefModel, branches: Seq<LocalBranch>) -> bool {
    exists|i: int|
        0 <= i < branches.len() && m == (RefModel {
            ref_kind: "branch"@,
            ref_name: (#[trigger] branches[i]).name@,
            ref_remote: None,
            target_oid: branches[i].commit@,
        })
}

/// Whether a reference is that of a row with a name and a commit.
pub open spec fn is_remote(m: RefModel, rows: Seq<RemoteRow>) -> bool {
    exists|i: int|
        0 <= i < rows.len() && (#[trigger] rows[i]).name is Some && rows[i].commit is Some && m == (
        RefModel {
            ref_kind: "remote_branch"@,
            ref_name: rows[i].name->0@,
            ref_remote: text::opt_text(rows[i].remote),
            target_oid: rows[i].commit->0@,
        })
}

proof fn lemma_remote(rows: Seq<RemoteRow>, m: RefModel)
    ensures
        runtime::remote_refs(rows).contains(m) <==> is_remote(m, rows),
    decreases rows.len(),
{
    if rows.len() > 0 {
        let front = rows.drop_last();
        let last = rows.len() - 1;
        lemma_remote(front, m);
        let before = runtime::remote_refs(front);
        let all = runtime::remote_refs(rows);
        assert(rows[last] == rows.last());
        if all.contains(m) {
            let k = choose|k: int| 0 <= k < all.len() && all[k] == m;
            if k < before.len() {
                assert(before[k] == m);
                let i = choose|i: int|
                    0 <= i < front.len() && (#[trigger] front[i]).name is Some
                        && front[i].commit is Some && m == (RefModel {
                        ref_kind: "remote_branch"@,
                        ref_name: front[i].name->0@,
                        ref_remote: text::opt_text(front[i].remote),
                        target_oid: front[i].commit->0@,
                    });
                assert(rows[i] == front[i]);
            }
        }
        if is_remote(m, rows) {
            let i = choose|i: int|
                0 <= i < rows.len() && (#[trigger] rows[i]).name is Some && rows[i].commit is Some
                    && m == (RefModel {
                    ref_kind: "remote_branch"@,
                    ref_name: rows[i].name->0@,
                    ref_remote: text::opt_text(rows[i].remote),
                    target_oid: rows[i].commit->0@,
                });
            if i < last {
                assert(front[i] == rows[i]);
                assert(is_remote(m, front));
                let k = choose|k: int| 0 <= k < before.len() && before[k] == m;
                assert(all[k] == m);
            } else {
                assert(all[before.len() as int] == m);
            }
        }
    }
}

/// A view holds every local branch, and every remote-tracking reference that
/// has a name and a commit, where it shall hold them; and nothing else.
pub proof fn law_view_holds_its_references(
    branches: Seq<LocalBranch>,
    remotes: Seq<RemoteRow>,
    include_refs: bool,
    include_remote_tracking: bool,
    m: RefModel,
)
    ensures
        runtime::gathered_refs(branches, remotes, include_refs, include_remote_tracking).contains(
            m,
        ) <==> include_refs && (is_local(m, branches) || (include_remote_tracking && is_remote(
            m,
            remotes,
        ))),
{
    let a = branches.map_values(|b: LocalBranch| runtime::local_ref(b));
    let b = runtime::remote_refs(remotes);
    lemma_remote(remotes, m);
    if a.contains(m) {
        let i = choose|i: int| 0 <= i < a.len() && a[i] == m;
        assert(branches[i].name@ == m.ref_name);
    }
    if is_local(m, branches) {
        let i = choose|i: int|
            0 <= i < branches.len() && m == (RefModel {
                ref_kind: "branch"@,
                ref_name: (#[trigger] branches[i]).name@,
                ref_remote: None,
                target_oid: branches[i].commit@,
            });
        assert(a[i] == m);
    }
    assert((a + b).contains(m) <==> a.contains(m) || b.contains(m)) by {
        if a.contains(m) {
            let i = choose|i: int| 0 <= i < a.len() && a[i] == m;
            assert((a + b)[i] == m);
        }
        if b.contains(m) {
            let i = choose|i: int| 0 <= i < b.len() && b[i] == m;
            assert((a + b)[a.len() + i] == m);
        }
    }
}

} // verus!
