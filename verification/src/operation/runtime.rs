//! What a command leaves behind as an operation: its views, its records and
//! its graph.
//!
//! The database and the object storage are the caller's. What is read there
//! comes in as plain rows, and what is to be written there goes out as plain
//! values.

use vstd::prelude::*;
use vstd::string::*;

use super::middleware;
use super::middleware::{MiddlewareError, MutationClass};
use super::store;
use super::store::{
    copy_text, generation_after, joined, quoted, HeadModel, MetaModel, OpHead,
    OperationKind, OperationMetaV2, OperationModel, OperationRow, OperationStatusV2, OperationV2,
};
use super::view;
use super::view::{OidMap, RepoViewV2, ViewCodecError};
use crate::legacy_operation;
use crate::legacy_operation::{
    GraphModel, OperationGraphRecord, OperationLogListItem, OperationPage,
    OperationParentRecord, OperationQueryPage, OperationRecord, OperationServiceError,
    OperationStatus, OperationViewRecord, OperationViewRefRecord, OperationViewWorkspaceRecord,
    ParentModel, RecordModel, ServiceErrorModel, ViewModel, ViewRefModel, ViewWorkspaceModel,
};
use crate::oid;
use crate::oid::Oid;
use crate::order;
use crate::order::{text_not_after, Ranked};
use crate::text;
use crate::text::{blank, chars_of, decimal_text, same};

verus! {

pub const REFS_FACET_SCHEMA_VERSION: u32 = 1;

//// Dispatch

/// Failure of a dispatch. The command's own error is kept, so that recording
/// an operation does not change what the user sees.
#[derive(Debug)]
pub enum RuntimeOperationError<E> {
    Middleware(MiddlewareError),
    Action(E),
}

/// The command that stands for a class at the operation boundary.
pub open spec fn class_command(class: MutationClass) -> Seq<char> {
    match class {
        MutationClass::ReadOnly => "status"@,
        MutationClass::WorkingCopy => "add"@,
        MutationClass::Repository => "commit"@,
        MutationClass::Ref => "branch"@,
        MutationClass::Index => "index"@,
        MutationClass::External => "external"@,
        MutationClass::InternalWorker => "internal-worker"@,
    }
}

pub fn middleware_command_name(class: MutationClass) -> (r: &'static str)
    ensures
        r@ == class_command(class),
{
    match class {
        MutationClass::ReadOnly => "status",
        MutationClass::WorkingCopy => "add",
        MutationClass::Repository => "commit",
        MutationClass::Ref => "branch",
        MutationClass::Index => "index",
        MutationClass::External => "external",
        MutationClass::InternalWorker => "internal-worker",
    }
}

/// How a dispatch goes on.
#[derive(Debug, Clone, Copy, PartialEq, Eq, Structural)]
pub enum DispatchPlan {
    /// The command runs as it is.
    Direct,
    /// The view is captured, the command runs inside an operation, and the
    /// view is captured again.
    Recorded,
}

/// A command is recorded where the store is of version 2 and its class is.
pub fn plan_dispatch(schema_is_v2: bool, class: MutationClass) -> (r: DispatchPlan)
    ensures
        r == if schema_is_v2 && class.is_recorded() {
            DispatchPlan::Recorded
        } else {
            DispatchPlan::Direct
        },
{
    if schema_is_v2 && class.produces_operation() {
        DispatchPlan::Recorded
    } else {
        DispatchPlan::Direct
    }
}

/// What is noted of a command once it has run. The scope is linked where its
/// key holds more than whitespace, and the worktree is noted where the key
/// holds anything.
pub open spec fn described(
    scope_key: Seq<char>,
    command_name: Seq<char>,
    description: Seq<char>,
    actor: Seq<char>,
    args_digest: Option<Seq<char>>,
) -> MetaModel {
    MetaModel {
        command_name: Some(command_name),
        description: Some(description),
        args_digest,
        actor: Some(actor),
        worktree_id: if scope_key.len() > 0 {
            Some(scope_key)
        } else {
            None
        },
        scope_kind: if text::is_blank(scope_key) {
            "main"@
        } else {
            "linked"@
        },
        causal_context_id: None,
    }
}

pub fn dispatch_metadata(
    scope_key: &str,
    command_name: &str,
    description: &str,
    actor: &str,
    args_digest: Option<String>,
) -> (r: OperationMetaV2)
    ensures
        r@ == described(
            scope_key@,
            command_name@,
            description@,
            actor@,
            text::opt_text(args_digest),
        ),
{
    let scope_kind = if blank(scope_key) {
        "main"
    } else {
        "linked"
    };
    let worktree_id = if chars_of(scope_key).len() > 0 {
        Some(scope_key.to_owned())
    } else {
        None
    };
    OperationMetaV2 {
        command_name: Some(command_name.to_owned()),
        description: Some(description.to_owned()),
        args_digest,
        actor: Some(actor.to_owned()),
        worktree_id,
        scope_kind: scope_kind.to_owned(),
        causal_context_id: None,
    }
}

/// Whether the columns of the `operation` table are those of version 2.
pub fn is_v2_schema(columns: &[String]) -> (r: bool)
    ensures
        r == text::texts(columns@).contains("format_version"@),
{
    let mut i: usize = 0;
    while i < columns.len()
        invariant
            i <= columns@.len(),
            forall|j: int| 0 <= j < i ==> (#[trigger] columns@[j])@ != "format_version"@,
        decreases columns@.len() - i,
    {
        if same(columns[i].as_str(), "format_version") {
            assert(text::texts(columns@)[i as int] == "format_version"@);
            return true;
        }
        i += 1;
    }
    assert(!text::texts(columns@).contains("format_version"@)) by {
        if text::texts(columns@).contains("format_version"@) {
            let j = choose|j: int|
                0 <= j < columns@.len() && text::texts(columns@)[j] == "format_version"@;
            assert(columns@[j]@ == "format_version"@);
        }
    }
    false
}

//// Views

/// A reference in the order in which a view holds them: by kind, name, remote
/// and target. A missing remote comes first.
#[derive(Debug, PartialEq, Eq)]
pub struct RuntimeRef {
    pub ref_kind: String,
    pub ref_name: String,
    pub ref_remote: Option<String>,
    pub target_oid: String,
}

/// What a [`RuntimeRef`] says.
#[verifier::ext_equal]
pub struct RefModel {
    pub ref_kind: Seq<char>,
    pub ref_name: Seq<char>,
    pub ref_remote: Option<Seq<char>>,
    pub target_oid: Seq<char>,
}

impl View for RuntimeRef {
    type V = RefModel;

    open spec fn view(&self) -> RefModel {
        RefModel {
            ref_kind: self.ref_kind@,
            ref_name: self.ref_name@,
            ref_remote: text::opt_text(self.ref_remote),
            target_oid: self.target_oid@,
        }
    }
}

/// Whether `a` stands before `b` or is the same; a missing text comes first.
pub open spec fn opt_text_le(a: Option<Seq<char>>, b: Option<Seq<char>>) -> bool {
    match (a, b) {
        (None, _) => true,
        (Some(_), None) => false,
        (Some(x), Some(y)) => order::text_le(x, y),
    }
}

/// Whether reference `a` stands before `b` or is the same.
pub open spec fn ref_le(a: RefModel, b: RefModel) -> bool {
    if a.ref_kind != b.ref_kind {
        order::text_le(a.ref_kind, b.ref_kind)
    } else if a.ref_name != b.ref_name {
        order::text_le(a.ref_name, b.ref_name)
    } else if a.ref_remote != b.ref_remote {
        opt_text_le(a.ref_remote, b.ref_remote)
    } else {
        order::text_le(a.target_oid, b.target_oid)
    }
}

proof fn lemma_opt_text_le(a: Option<Seq<char>>, b: Option<Seq<char>>, c: Option<Seq<char>>)
    ensures
        opt_text_le(a, b) || opt_text_le(b, a),
        opt_text_le(a, b) && opt_text_le(b, c) ==> opt_text_le(a, c),
        opt_text_le(a, b) && opt_text_le(b, a) ==> a == b,
{
    if let (Some(x), Some(y)) = (a, b) {
        order::lemma_text_le_total(x, y);
        if order::text_le(x, y) && order::text_le(y, x) {
            order::lemma_text_le_antisymmetric(x, y);
        }
        if let Some(z) = c {
            if order::text_le(x, y) && order::text_le(y, z) {
                order::lemma_text_le_trans(x, y, z);
            }
        }
    }
}

proof fn lemma_ref_trans(a: RefModel, b: RefModel, c: RefModel)
    requires
        ref_le(a, b),
        ref_le(b, c),
    ensures
        ref_le(a, c),
{
    lemma_opt_text_le(Some(a.ref_kind), Some(b.ref_kind), Some(c.ref_kind));
    lemma_opt_text_le(Some(b.ref_kind), Some(c.ref_kind), Some(a.ref_kind));
    lemma_opt_text_le(Some(c.ref_kind), Some(a.ref_kind), Some(b.ref_kind));
    lemma_opt_text_le(Some(a.ref_name), Some(b.ref_name), Some(c.ref_name));
    lemma_opt_text_le(Some(b.ref_name), Some(c.ref_name), Some(a.ref_name));
    lemma_opt_text_le(Some(c.ref_name), Some(a.ref_name), Some(b.ref_name));
    lemma_opt_text_le(a.ref_remote, b.ref_remote, c.ref_remote);
    lemma_opt_text_le(b.ref_remote, c.ref_remote, a.ref_remote);
    lemma_opt_text_le(c.ref_remote, a.ref_remote, b.ref_remote);
    lemma_opt_text_le(Some(a.target_oid), Some(b.target_oid), Some(c.target_oid));
}

fn opt_not_after(a: &Option<String>, b: &Option<String>) -> (r: bool)
    ensures
        r == opt_text_le(text::opt_text(*a), text::opt_text(*b)),
{
    match (a, b) {
        (None, _) => true,
        (Some(_), None) => false,
        (Some(x), Some(y)) => text_not_after(x.as_str(), y.as_str()),
    }
}

fn opt_same(a: &Option<String>, b: &Option<String>) -> (r: bool)
    ensures
        r == (text::opt_text(*a) == text::opt_text(*b)),
{
    match (a, b) {
        (None, None) => true,
        (Some(x), Some(y)) => same(x.as_str(), y.as_str()),
        _ => false,
    }
}

impl Ranked for RuntimeRef {
    open spec fn rank_le(self, other: Self) -> bool {
        ref_le(self@, other@)
    }

    proof fn rank_total(a: Self, b: Self) {
        order::lemma_text_le_total(a@.ref_kind, b@.ref_kind);
        order::lemma_text_le_total(a@.ref_name, b@.ref_name);
        order::lemma_text_le_total(a@.target_oid, b@.target_oid);
        lemma_opt_text_le(a@.ref_remote, b@.ref_remote, None);
    }

    proof fn rank_trans(a: Self, b: Self, c: Self) {
        lemma_ref_trans(a@, b@, c@);
    }

    fn not_after(&self, other: &Self) -> (r: bool) {
        if !same(self.ref_kind.as_str(), other.ref_kind.as_str()) {
            return text_not_after(self.ref_kind.as_str(), other.ref_kind.as_str());
        }
        if !same(self.ref_name.as_str(), other.ref_name.as_str()) {
            return text_not_after(self.ref_name.as_str(), other.ref_name.as_str());
        }
        if !opt_same(&self.ref_remote, &other.ref_remote) {
            return opt_not_after(&self.ref_remote, &other.ref_remote);
        }
        text_not_after(self.target_oid.as_str(), other.target_oid.as_str())
    }
}

/// Where a repository's head is.
#[derive(Debug, PartialEq, Eq)]
pub enum CurrentHead {
    Branch(String),
    Detached(Oid),
}

impl CurrentHead {
    /// The kind and the target of a head.
    pub open spec fn parts(self) -> (Seq<char>, Seq<char>) {
        match self {
            CurrentHead::Branch(name) => ("branch"@, name@),
            CurrentHead::Detached(id) => ("detached"@, id@),
        }
    }
}

/// A local branch.
#[derive(Debug, PartialEq, Eq)]
pub struct LocalBranch {
    pub name: String,
    pub commit: Oid,
}

/// A row of a remote-tracking reference.
#[derive(Debug, PartialEq, Eq)]
pub struct RemoteRow {
    pub name: Option<String>,
    pub remote: Option<String>,
    pub commit: Option<String>,
}

/// The reference of a local branch.
pub open spec fn local_ref(b: LocalBranch) -> RefModel {
    RefModel {
        ref_kind: "branch"@,
        ref_name: b.name@,
        ref_remote: None,
        target_oid: b.commit@,
    }
}

/// The references of rows that have a name and a commit.
pub open spec fn remote_refs(rows: Seq<RemoteRow>) -> Seq<RefModel>
    decreases rows.len(),
{
    if rows.len() == 0 {
        Seq::empty()
    } else {
        let before = remote_refs(rows.drop_last());
        let row = rows.last();
        if row.name is Some && row.commit is Some {
            before.push(
                RefModel {
                    ref_kind: "remote_branch"@,
                    ref_name: row.name->0@,
                    ref_remote: text::opt_text(row.remote),
                    target_oid: row.commit->0@,
                },
            )
        } else {
            before
        }
    }
}

/// The references of a view, before they are put in order.
pub open spec fn gathered_refs(
    branches: Seq<LocalBranch>,
    remotes: Seq<RemoteRow>,
    include_refs: bool,
    include_remote_tracking: bool,
) -> Seq<RefModel> {
    if !include_refs {
        Seq::empty()
    } else if include_remote_tracking {
        branches.map_values(|b: LocalBranch| local_ref(b)) + remote_refs(remotes)
    } else {
        branches.map_values(|b: LocalBranch| local_ref(b))
    }
}

fn gather_local(branches: Vec<LocalBranch>) -> (r: Vec<RuntimeRef>)
    ensures
        order::views(r@) == branches@.map_values(|b: LocalBranch| local_ref(b)),
{
    let ghost all = branches@;
    let mut rest = branches;
    let mut out: Vec<RuntimeRef> = Vec::new();
    while rest.len() > 0
        invariant
            out@.len() + rest@.len() == all.len(),
            rest@ == all.skip(out@.len() as int),
            forall|i: int| 0 <= i < out@.len() ==> (#[trigger] out@[i])@ == local_ref(all[i]),
        decreases rest@.len(),
    {
        let ghost k = out@.len() as int;
        let b = rest.remove(0);
        assert(b == all[k]);
        out.push(
            RuntimeRef {
                ref_kind: "branch".to_owned(),
                ref_name: b.name,
                ref_remote: None,
                target_oid: b.commit.hex,
            },
        );
        assert(rest@ =~= all.skip(k + 1));
    }
    assert(order::views(out@) =~= all.map_values(|b: LocalBranch| local_ref(b)));
    out
}

fn gather_remote(remotes: Vec<RemoteRow>, found: Vec<RuntimeRef>) -> (r: Vec<RuntimeRef>)
    ensures
        order::views(r@) == order::views(found@) + remote_refs(remotes@),
{
    let ghost all = remotes@;
    let ghost start = order::views(found@);
    let mut rest = remotes;
    let mut out = found;
    let ghost mut n: int = 0;
    assert(all.take(0) =~= Seq::<RemoteRow>::empty());
    assert(start + remote_refs(all.take(0)) =~= start);
    assert(rest@ =~= all.skip(0));
    while rest.len() > 0
        invariant
            0 <= n <= all.len(),
            rest@ == all.skip(n),
            order::views(out@) == start + remote_refs(all.take(n)),
        decreases rest@.len(),
    {
        let ghost before = order::views(out@);
        let row = rest.remove(0);
        assert(row == all[n]);
        assert(rest@ =~= all.skip(n + 1));
        assert(all.take(n + 1).drop_last() =~= all.take(n));
        assert(all.take(n + 1).last() == row);
        if let (Some(name), Some(commit)) = (row.name, row.commit) {
            let found_ref = RuntimeRef {
                ref_kind: "remote_branch".to_owned(),
                ref_name: name,
                ref_remote: row.remote,
                target_oid: commit,
            };
            let ghost m = found_ref@;
            out.push(found_ref);
            assert(order::views(out@) =~= before.push(m));
            assert(before.push(m) =~= start + remote_refs(all.take(n)).push(m));
        }
        proof {
            n = n + 1;
        }
    }
    assert(all.take(n) =~= all);
    out
}

/// The references of a view, in order.
pub fn collect_refs(
    branches: Vec<LocalBranch>,
    remotes: Vec<RemoteRow>,
    include_refs: bool,
    include_remote_tracking: bool,
) -> (r: Vec<RuntimeRef>)
    ensures
        order::in_order(r@),
        order::views(r@).to_multiset() == gathered_refs(
            branches@,
            remotes@,
            include_refs,
            include_remote_tracking,
        ).to_multiset(),
{
    let mut found: Vec<RuntimeRef> = Vec::new();
    assert(order::views(found@) =~= Seq::<RefModel>::empty());
    if include_refs {
        found = gather_local(branches);
        if include_remote_tracking {
            found = gather_remote(remotes, found);
        }
    }
    order::sorted(found)
}

/// The content of a view's references.
#[derive(Debug, PartialEq, Eq)]
pub struct RuntimeRefsFacet {
    pub schema_version: u32,
    pub head_kind: String,
    pub head_target: String,
    pub refs: Vec<RuntimeRef>,
}

/// What a [`RuntimeRefsFacet`] says.
#[verifier::ext_equal]
pub struct FacetModel {
    pub schema_version: u32,
    pub head_kind: Seq<char>,
    pub head_target: Seq<char>,
    pub refs: Seq<RefModel>,
}

impl View for RuntimeRefsFacet {
    type V = FacetModel;

    open spec fn view(&self) -> FacetModel {
        FacetModel {
            schema_version: self.schema_version,
            head_kind: self.head_kind@,
            head_target: self.head_target@,
            refs: order::views(self.refs@),
        }
    }
}

/// What a captured view shows: the content to store, which is the head and the
/// references in order.
pub fn capture_facet(head: CurrentHead, refs: Vec<RuntimeRef>) -> (r: RuntimeRefsFacet)
    ensures
        r@ == (FacetModel {
            schema_version: REFS_FACET_SCHEMA_VERSION,
            head_kind: head.parts().0,
            head_target: head.parts().1,
            refs: order::views(refs@),
        }),
{
    let (head_kind, head_target) = match head {
        CurrentHead::Branch(name) => ("branch".to_owned(), name),
        CurrentHead::Detached(id) => ("detached".to_owned(), id.hex),
    };
    RuntimeRefsFacet { schema_version: REFS_FACET_SCHEMA_VERSION, head_kind, head_target, refs }
}

/// A view as it was captured.
#[derive(Debug, Clone, PartialEq, Eq)]
pub struct OperationViewSnapshot {
    pub head_kind: String,
    pub head_target: String,
    pub refs: Vec<OperationViewRefRecord>,
    pub workspace: Vec<OperationViewWorkspaceRecord>,
}

/// A captured view and the object that holds it.
#[derive(Debug, Clone, PartialEq, Eq)]
pub struct CapturedView {
    pub manifest_oid: Oid,
    pub snapshot: OperationViewSnapshot,
}

/// The record of a reference under a view.
pub open spec fn ref_record(view_id: Seq<char>, m: RefModel) -> ViewRefModel {
    ViewRefModel {
        view_id,
        ref_kind: m.ref_kind,
        ref_name: m.ref_name,
        ref_remote: m.ref_remote,
        target_oid: m.target_oid,
    }
}

/// The records of references under a view.
pub open spec fn ref_records(view_id: Seq<char>, s: Seq<RefModel>) -> Seq<ViewRefModel> {
    s.map_values(|m: RefModel| ref_record(view_id, m))
}

fn records_of_refs(view_id: &str, refs: Vec<RuntimeRef>) -> (r: Vec<OperationViewRefRecord>)
    ensures
        order::views(r@) == ref_records(view_id@, order::views(refs@)),
{
    let ghost all = refs@;
    let mut rest = refs;
    let mut out: Vec<OperationViewRefRecord> = Vec::new();
    while rest.len() > 0
        invariant
            out@.len() + rest@.len() == all.len(),
            rest@ == all.skip(out@.len() as int),
            forall|i: int|
                0 <= i < out@.len() ==> (#[trigger] out@[i])@ == ref_record(view_id@, all[i]@),
        decreases rest@.len(),
    {
        let ghost k = out@.len() as int;
        let x = rest.remove(0);
        assert(x == all[k]);
        out.push(
            OperationViewRefRecord {
                view_id: view_id.to_owned(),
                ref_kind: x.ref_kind,
                ref_name: x.ref_name,
                ref_remote: x.ref_remote,
                target_oid: x.target_oid,
            },
        );
        assert(rest@ =~= all.skip(k + 1));
    }
    assert(order::views(out@) =~= ref_records(view_id@, order::views(all)));
    out
}

/// The workspace pointers of a view: where its head is.
pub open spec fn head_pointer(view_id: Seq<char>, head_target: Seq<char>) -> Seq<
    ViewWorkspaceModel,
> {
    seq![ViewWorkspaceModel { view_id, pointer_kind: "head"@, pointer_value: head_target }]
}

fn point_to_head(view_id: &str, head_target: &str) -> (r: Vec<OperationViewWorkspaceRecord>)
    ensures
        order::views(r@) == head_pointer(view_id@, head_target@),
{
    let mut out: Vec<OperationViewWorkspaceRecord> = Vec::new();
    out.push(
        OperationViewWorkspaceRecord {
            view_id: view_id.to_owned(),
            pointer_kind: "head".to_owned(),
            pointer_value: head_target.to_owned(),
        },
    );
    assert(order::views(out@) =~= head_pointer(view_id@, head_target@));
    out
}

/// The view of a repository that consists of its refs alone.
pub fn repository_view(repo_id: &str, facet_oid: Oid) -> (r: Result<RepoViewV2, ViewCodecError>)
    ensures
        (match r {
            Ok(v) => {
                &&& !text::is_blank(repo_id@)
                &&& v.schema_version == view::REPO_VIEW_SCHEMA_VERSION
                &&& v.repo_id@ == repo_id@
                &&& v.refs_facet_oid == facet_oid
                &&& v.root_texts() == seq![facet_oid@]
            },
            Err(e) => text::is_blank(repo_id@) && e is EmptyRepoId,
        }),
{
    let none: Vec<Oid> = Vec::new();
    let r = RepoViewV2::new(repo_id.to_owned(), facet_oid, OidMap::new(), none, OidMap::new());
    assert(r is Ok ==> r->Ok_0.root_texts() =~= seq![facet_oid@]);
    r
}

/// The captured view, once its content and its manifest are stored.
pub fn capture_view(manifest_oid: Oid, facet: RuntimeRefsFacet) -> (r: CapturedView)
    ensures
        r.manifest_oid == manifest_oid,
        r.snapshot.head_kind@ == facet@.head_kind,
        r.snapshot.head_target@ == facet@.head_target,
        order::views(r.snapshot.refs@) == ref_records(manifest_oid@, facet@.refs),
        order::views(r.snapshot.workspace@) == head_pointer(manifest_oid@, facet@.head_target),
{
    let refs = records_of_refs(manifest_oid.as_str(), facet.refs);
    let workspace = point_to_head(manifest_oid.as_str(), facet.head_target.as_str());
    CapturedView {
        manifest_oid,
        snapshot: OperationViewSnapshot {
            head_kind: facet.head_kind,
            head_target: facet.head_target,
            refs,
            workspace,
        },
    }
}

//// Records

/// The status of a record for a stored status.
pub open spec fn record_status(s: OperationStatusV2) -> OperationStatus {
    match s {
        OperationStatusV2::Running => OperationStatus::Running,
        OperationStatusV2::Success => OperationStatus::Succeeded,
        _ => OperationStatus::Failed,
    }
}

pub fn status_from_v2(status: OperationStatusV2) -> (r: OperationStatus)
    ensures
        r == record_status(status),
{
    match status {
        OperationStatusV2::Running => OperationStatus::Running,
        OperationStatusV2::Success => OperationStatus::Succeeded,
        _ => OperationStatus::Failed,
    }
}

/// The text that is there, or `other`.
pub open spec fn text_or(o: Option<Seq<char>>, other: Seq<char>) -> Seq<char> {
    match o {
        Some(s) => s,
        None => other,
    }
}

fn string_or(o: &Option<String>, other: &str) -> (r: String)
    ensures
        r@ == text_or(text::opt_text(*o), other@),
{
    match o {
        Some(s) => s.clone(),
        None => other.to_owned(),
    }
}

/// The record of an operation.
pub open spec fn record_of(op: OperationModel) -> RecordModel {
    RecordModel {
        op_id: op.op_id,
        repo_id: op.repo_id,
        view_id: op.post_view_oid,
        command_name: text_or(op.metadata.command_name, "unknown"@),
        description: text_or(op.metadata.description, ""@),
        actor: text_or(op.metadata.actor, ""@),
        args_digest: op.metadata.args_digest,
        start_ts: op.start_ts,
        end_ts: op.end_ts,
        status: record_status(op.status),
        worktree_id: text_or(op.metadata.worktree_id, ""@),
        scope_provenance: "declared"@,
        restorable: op.kind is Command || op.kind is Restore,
        control_slot: None,
        claim_owner: None,
        scope_kind: op.metadata.scope_kind,
    }
}

pub fn operation_record_from_v2(operation: &OperationV2) -> (r: OperationRecord)
    ensures
        r@ == record_of(operation@),
{
    OperationRecord {
        op_id: operation.op_id.clone(),
        repo_id: operation.repo_id.clone(),
        view_id: operation.post_view_oid.hex.clone(),
        command_name: string_or(&operation.metadata.command_name, "unknown"),
        description: string_or(&operation.metadata.description, ""),
        actor: string_or(&operation.metadata.actor, ""),
        args_digest: copy_text(&operation.metadata.args_digest),
        start_ts: operation.start_ts,
        end_ts: operation.end_ts,
        status: status_from_v2(operation.status),
        worktree_id: string_or(&operation.metadata.worktree_id, ""),
        scope_provenance: "declared".to_owned(),
        restorable: matches!(operation.kind, OperationKind::Command | OperationKind::Restore),
        control_slot: None,
        claim_owner: None,
        scope_kind: operation.metadata.scope_kind.clone(),
    }
}

pub fn log_item_from_v2(operation: &OperationV2) -> (r: OperationLogListItem)
    ensures
        r@ == record_of(operation@).log_item(),
{
    OperationLogListItem {
        op_id: operation.op_id.clone(),
        command_name: string_or(&operation.metadata.command_name, "unknown"),
        description: string_or(&operation.metadata.description, ""),
        actor: string_or(&operation.metadata.actor, ""),
        end_ts: operation.end_ts,
        status: status_from_v2(operation.status),
    }
}

/// What is wrong with a row: its kind is looked at first, then its status, the
/// ids of its views and that of its predecessors.
pub open spec fn row_fault(row: OperationRow) -> Option<Seq<char>> {
    if OperationKind::named(row.kind@) is None {
        Some("unknown operation kind '"@ + row.kind@ + "'"@)
    } else if OperationStatusV2::named(row.status@) is None {
        Some("unknown operation status '"@ + row.status@ + "'"@)
    } else if oid::oid_of(row.pre_view_oid@) is None {
        Some("invalid object id '"@ + row.pre_view_oid@ + "'"@)
    } else if oid::oid_of(row.post_view_oid@) is None {
        Some("invalid object id '"@ + row.post_view_oid@ + "'"@)
    } else if row.predecessor_map_oid is Some && oid::oid_of(row.predecessor_map_oid->0@) is None {
        Some("invalid object id '"@ + row.predecessor_map_oid->0@ + "'"@)
    } else {
        None
    }
}

fn object_id(value: &str) -> (r: Result<Oid, OperationServiceError>)
    ensures
        (match r {
            Ok(id) => oid::oid_of(value@) == Some(id@) && id.wf(),
            Err(e) => oid::oid_of(value@) is None && e@ == ServiceErrorModel::Storage(
                "invalid object id '"@ + value@ + "'"@,
            ),
        }),
{
    match Oid::parse(value) {
        Some(id) => Ok(id),
        None => Err(OperationServiceError::Storage(quoted("invalid object id '", value))),
    }
}

/// The operation that a row and the ids of its parents say.
pub fn operation_from_model(row: OperationRow, parent_op_ids: Vec<String>) -> (r: Result<
    OperationV2,
    OperationServiceError,
>)
    ensures
        (match r {
            Ok(op) => row_fault(row) is None && op@ == store::row_operation(
                row,
                text::texts(parent_op_ids@),
            ) && op.wf(),
            Err(e) => row_fault(row) matches Some(m) && e@ == ServiceErrorModel::Storage(m),
        }),
{
    let kind = match OperationKind::from_name(row.kind.as_str()) {
        Some(kind) => kind,
        None => {
            return Err(
                OperationServiceError::Storage(
                    quoted("unknown operation kind '", row.kind.as_str()),
                ),
            );
        },
    };
    let status = match OperationStatusV2::from_name(row.status.as_str()) {
        Some(status) => status,
        None => {
            return Err(
                OperationServiceError::Storage(
                    quoted("unknown operation status '", row.status.as_str()),
                ),
            );
        },
    };
    let pre_view_oid = object_id(row.pre_view_oid.as_str())?;
    let post_view_oid = object_id(row.post_view_oid.as_str())?;
    let predecessor_map_oid = match &row.predecessor_map_oid {
        Some(s) => Some(object_id(s.as_str())?),
        None => None,
    };
    Ok(
        OperationV2 {
            op_id: row.op_id,
            repo_id: row.repo_id,
            parent_op_ids,
            pre_view_oid,
            post_view_oid,
            kind,
            status,
            metadata: OperationMetaV2 {
                command_name: row.command_name,
                description: row.description,
                args_digest: row.args_digest,
                actor: row.actor,
                worktree_id: row.worktree_id,
                scope_kind: row.scope_kind,
                causal_context_id: row.causal_context_id,
            },
            restores_op_id: row.restores_op_id,
            reverts_op_id: row.reverts_op_id,
            predecessor_map_oid,
            start_ts: row.start_ts,
            end_ts: row.end_ts,
        },
    )
}

/// The records of rows, or what is wrong with the first row that is not sound.
pub open spec fn read_rows(s: Seq<OperationRow>) -> Result<Seq<RecordModel>, Seq<char>>
    decreases s.len(),
{
    if s.len() == 0 {
        Ok(Seq::empty())
    } else {
        match read_rows(s.drop_last()) {
            Err(m) => Err(m),
            Ok(before) => match row_fault(s.last()) {
                Some(m) => Err(m),
                None => Ok(before.push(record_of(store::row_operation(s.last(), Seq::empty())))),
            },
        }
    }
}

proof fn lemma_read_rows_error(s: Seq<OperationRow>, n: int)
    requires
        0 <= n <= s.len(),
        read_rows(s.take(n)) is Err,
    ensures
        read_rows(s) == read_rows(s.take(n)),
    decreases s.len() - n,
{
    if n < s.len() {
        assert(s.take(n + 1).drop_last() =~= s.take(n));
        lemma_read_rows_error(s, n + 1);
    } else {
        assert(s.take(n) =~= s);
    }
}

/// The records of a listing.
pub fn list_operation_records(rows: Vec<OperationRow>) -> (r: Result<
    Vec<OperationRecord>,
    OperationServiceError,
>)
    ensures
        (match r {
            Ok(v) => read_rows(rows@) == Ok::<Seq<RecordModel>, Seq<char>>(order::views(v@)),
            Err(e) => read_rows(rows@) matches Err(m) && e@ == ServiceErrorModel::Storage(m),
        }),
{
    let ghost all = rows@;
    let mut rest = rows;
    let mut out: Vec<OperationRecord> = Vec::new();
    let ghost mut n: int = 0;
    assert(all.take(0) =~= Seq::<OperationRow>::empty());
    assert(order::views(out@) =~= Seq::<RecordModel>::empty());
    assert(rest@ =~= all.skip(0));
    while rest.len() > 0
        invariant
            all == rows@,
            0 <= n <= all.len(),
            rest@ == all.skip(n),
            read_rows(all.take(n)) == Ok::<Seq<RecordModel>, Seq<char>>(order::views(out@)),
        decreases rest@.len(),
    {
        let ghost before = order::views(out@);
        let row = rest.remove(0);
        assert(row == all[n]);
        assert(rest@ =~= all.skip(n + 1));
        assert(all.take(n + 1).drop_last() =~= all.take(n));
        assert(all.take(n + 1).last() == row);
        let none: Vec<String> = Vec::new();
        assert(text::texts(none@) =~= Seq::<Seq<char>>::empty());
        match operation_from_model(row, none) {
            Ok(operation) => {
                let x = operation_record_from_v2(&operation);
                let ghost m = x@;
                out.push(x);
                assert(order::views(out@) =~= before.push(m));
            },
            Err(e) => {
                proof {
                    lemma_read_rows_error(all, n + 1);
                }
                return Err(e);
            },
        }
        proof {
            n = n + 1;
        }
    }
    assert(all.take(n) =~= all);
    Ok(out)
}

/// Checks the number of records that a listing asks for.
pub fn check_limit(limit: u64) -> (r: Result<(), OperationServiceError>)
    ensures
        legacy_operation::is_verdict(
            r,
            if limit == 0 {
                Some("limit must be greater than 0"@)
            } else {
                None
            },
        ),
{
    if limit == 0 {
        return Err(
            OperationServiceError::InvalidArgument("limit must be greater than 0".to_owned()),
        );
    }
    Ok(())
}

/// An error that is reported as one of storage: its sentence becomes the
/// content of the new one.
pub fn storage_error(error: OperationServiceError) -> (r: OperationServiceError)
    ensures
        r@ == ServiceErrorModel::Storage(error@.message()),
{
    OperationServiceError::Storage(error.message())
}

/// The records that may be duplicates of a command.
pub fn recent_duplicate_candidates(rows: Vec<OperationRow>) -> (r: Result<
    Vec<OperationRecord>,
    OperationServiceError,
>)
    ensures
        (match r {
            Ok(v) => read_rows(rows@) == Ok::<Seq<RecordModel>, Seq<char>>(order::views(v@)),
            Err(e) => read_rows(rows@) matches Err(m) && e@ == ServiceErrorModel::Storage(
                ServiceErrorModel::Storage(m).message(),
            ),
        }),
{
    match list_operation_records(rows) {
        Ok(v) => Ok(v),
        Err(e) => Err(storage_error(e)),
    }
}

/// A page of the operation log.
pub fn list_operations_by_repo_paginated(
    rows: Vec<OperationRow>,
    query: OperationQueryPage,
    total: u64,
) -> (r: Result<OperationPage<OperationLogListItem>, OperationServiceError>)
    ensures
        (match r {
            Ok(page) => {
                &&& read_rows(rows@) matches Ok(records)
                &&& order::views(page.items@) == legacy_operation::log_items(records)
                &&& page.page == query.within_limits().page
                &&& page.per_page == query.within_limits().per_page
                &&& page.total == total
            },
            Err(e) => read_rows(rows@) matches Err(m) && e@ == ServiceErrorModel::Storage(
                ServiceErrorModel::Storage(m).message(),
            ),
        }),
{
    let records = match list_operation_records(rows) {
        Ok(v) => v,
        Err(e) => {
            return Err(storage_error(e));
        },
    };
    let items = legacy_operation::log_items_from_records(records);
    Ok(legacy_operation::OperationService::new_page(items, query, total))
}

/// Who holds the control slot of a worktree: the operation, its command, when
/// it started and its actor.
pub fn running_control(row: Option<OperationRow>) -> (r: Option<
    (String, String, i64, Option<String>),
>)
    ensures
        (match r {
            Some(h) => {
                &&& row matches Some(x)
                &&& h.0 == x.op_id
                &&& h.1@ == text_or(text::opt_text(x.command_name), "unknown"@)
                &&& h.2 == x.start_ts
                &&& h.3 == x.actor
            },
            None => row is None,
        }),
{
    match row {
        Some(x) => {
            let command = string_or(&x.command_name, "unknown");
            Some((x.op_id, command, x.start_ts, x.actor))
        },
        None => None,
    }
}

//// Graphs

/// When a view was made: when its operation ended, or started where it has not
/// ended.
pub open spec fn made_at(op: OperationModel) -> i64 {
    match op.end_ts {
        Some(t) => t,
        None => op.start_ts,
    }
}

/// The view and the references that an operation left.
pub fn decode_view(operation: &OperationV2, facet: RuntimeRefsFacet) -> (r: Result<
    (OperationViewRecord, Vec<OperationViewRefRecord>),
    OperationServiceError,
>)
    ensures
        (match r {
            Ok((view, refs)) => {
                &&& facet.schema_version == REFS_FACET_SCHEMA_VERSION
                &&& view@ == (ViewModel {
                    view_id: operation@.post_view_oid,
                    repo_id: operation@.repo_id,
                    head_kind: facet@.head_kind,
                    head_target: facet@.head_target,
                    created_at: made_at(operation@),
                })
                &&& order::views(refs@) == ref_records(operation@.post_view_oid, facet@.refs)
            },
            Err(e) => facet.schema_version != REFS_FACET_SCHEMA_VERSION && e@
                == ServiceErrorModel::Storage(
                "unsupported refs facet schema version "@ + text::decimal(
                    facet.schema_version as nat,
                ),
            ),
        }),
{
    if facet.schema_version != REFS_FACET_SCHEMA_VERSION {
        return Err(
            OperationServiceError::Storage(
                joined(
                    "unsupported refs facet schema version ",
                    decimal_text(facet.schema_version as u64).as_str(),
                ),
            ),
        );
    }
    let refs = records_of_refs(operation.post_view_oid.as_str(), facet.refs);
    let created_at = match operation.end_ts {
        Some(t) => t,
        None => operation.start_ts,
    };
    let view = OperationViewRecord {
        view_id: operation.post_view_oid.hex.clone(),
        repo_id: operation.repo_id.clone(),
        head_kind: facet.head_kind,
        head_target: facet.head_target,
        created_at,
    };
    Ok((view, refs))
}

/// The parent edges of an operation.
pub open spec fn parent_edges(op: OperationModel) -> Seq<ParentModel> {
    op.parent_op_ids.map_values(
        |p: Seq<char>| ParentModel { op_id: op.op_id, parent_op_id: p },
    )
}

fn edges_of(operation: &OperationV2) -> (r: Vec<OperationParentRecord>)
    ensures
        order::views(r@) == parent_edges(operation@),
{
    let mut out: Vec<OperationParentRecord> = Vec::new();
    let mut i: usize = 0;
    while i < operation.parent_op_ids.len()
        invariant
            i <= operation.parent_op_ids@.len(),
            out@.len() == i,
            forall|j: int|
                0 <= j < i ==> (#[trigger] out@[j])@ == (ParentModel {
                    op_id: operation@.op_id,
                    parent_op_id: operation.parent_op_ids@[j]@,
                }),
        decreases operation.parent_op_ids@.len() - i,
    {
        out.push(
            OperationParentRecord {
                op_id: operation.op_id.clone(),
                parent_op_id: operation.parent_op_ids[i].clone(),
            },
        );
        i += 1;
    }
    assert(order::views(out@) =~= parent_edges(operation@));
    out
}

/// The graph of an operation with its view and references.
pub open spec fn graph_of(op: OperationModel, view: ViewModel, refs: Seq<ViewRefModel>) -> GraphModel {
    GraphModel {
        operation: record_of(op),
        parents: parent_edges(op),
        view,
        refs,
        workspace: head_pointer(view.view_id, view.head_target),
    }
}

pub fn load_graph(
    operation: &OperationV2,
    view: OperationViewRecord,
    refs: Vec<OperationViewRefRecord>,
) -> (r: OperationGraphRecord)
    ensures
        r@ == graph_of(operation@, view@, order::views(refs@)),
{
    let workspace = point_to_head(view.view_id.as_str(), view.head_target.as_str());
    OperationGraphRecord {
        operation: operation_record_from_v2(operation),
        parents: edges_of(operation),
        view,
        refs,
        workspace,
    }
}

/// The status that is stored for a record's.
pub open spec fn stored_status(s: OperationStatus) -> OperationStatusV2 {
    match s {
        OperationStatus::Running => OperationStatusV2::Running,
        OperationStatus::Succeeded => OperationStatusV2::Success,
        OperationStatus::Failed => OperationStatusV2::Failed,
        OperationStatus::Canceled => OperationStatusV2::Aborted,
    }
}

/// The operation that stores a graph whose views are known.
pub open spec fn operation_of(g: GraphModel, pre: Seq<char>, post: Seq<char>) -> OperationModel {
    OperationModel {
        op_id: g.operation.op_id,
        repo_id: g.operation.repo_id,
        parent_op_ids: g.parents.map_values(|p: ParentModel| p.parent_op_id),
        pre_view_oid: pre,
        post_view_oid: post,
        kind: if g.operation.command_name == "op restore"@ {
            OperationKind::Restore
        } else {
            OperationKind::Command
        },
        status: stored_status(g.operation.status),
        metadata: MetaModel {
            command_name: Some(g.operation.command_name),
            description: Some(g.operation.description),
            args_digest: g.operation.args_digest,
            actor: Some(g.operation.actor),
            worktree_id: Some(g.operation.worktree_id),
            scope_kind: g.operation.scope_kind,
            causal_context_id: None,
        },
        restores_op_id: None,
        reverts_op_id: None,
        predecessor_map_oid: None,
        start_ts: g.operation.start_ts,
        end_ts: g.operation.end_ts,
    }
}

/// The view from which a graph starts: the one its first parent left, where
/// that is known and sound, else its own.
pub open spec fn view_before(g: GraphModel, parent_view: Option<Seq<char>>, post: Seq<char>) -> Seq<
    char,
> {
    if g.parents.len() > 0 && parent_view is Some && oid::oid_of(parent_view->0) is Some {
        oid::oid_of(parent_view->0)->0
    } else {
        post
    }
}

fn parents_of(graph: &OperationGraphRecord) -> (r: Vec<String>)
    ensures
        text::texts(r@) == graph@.parents.map_values(|p: ParentModel| p.parent_op_id),
{
    let mut out: Vec<String> = Vec::new();
    let mut i: usize = 0;
    while i < graph.parents.len()
        invariant
            i <= graph.parents@.len(),
            out@.len() == i,
            forall|j: int|
                0 <= j < i ==> (#[trigger] out@[j])@ == graph.parents@[j].parent_op_id@,
        decreases graph.parents@.len() - i,
    {
        out.push(graph.parents[i].parent_op_id.clone());
        i += 1;
    }
    assert(text::texts(out@) =~= graph@.parents.map_values(|p: ParentModel| p.parent_op_id));
    out
}

/// The operation that stores a graph. `parent_view` is the view that the first
/// parent left, as it is stored.
pub fn persist_graph(graph: &OperationGraphRecord, parent_view: Option<String>) -> (r: Result<
    OperationV2,
    OperationServiceError,
>)
    ensures
        (match r {
            Ok(op) => {
                &&& oid::oid_of(graph@.view.view_id) matches Some(post)
                &&& op@ == operation_of(
                    graph@,
                    view_before(graph@, text::opt_text(parent_view), post),
                    post,
                )
                &&& op.wf()
            },
            Err(e) => oid::oid_of(graph@.view.view_id) is None && e@ == ServiceErrorModel::Storage(
                "invalid v2 view id '"@ + graph@.view.view_id + "'"@,
            ),
        }),
{
    let post_view_oid = match Oid::parse(graph.view.view_id.as_str()) {
        Some(id) => id,
        None => {
            return Err(
                OperationServiceError::Storage(
                    quoted("invalid v2 view id '", graph.view.view_id.as_str()),
                ),
            );
        },
    };
    let mut pre_view_oid = post_view_oid.clone();
    if graph.parents.len() > 0 {
        if let Some(s) = &parent_view {
            if let Some(id) = Oid::parse(s.as_str()) {
                pre_view_oid = id;
            }
        }
    }
    let record = &graph.operation;
    let kind = if same(record.command_name.as_str(), "op restore") {
        OperationKind::Restore
    } else {
        OperationKind::Command
    };
    let status = match record.status {
        OperationStatus::Running => OperationStatusV2::Running,
        OperationStatus::Succeeded => OperationStatusV2::Success,
        OperationStatus::Failed => OperationStatusV2::Failed,
        OperationStatus::Canceled => OperationStatusV2::Aborted,
    };
    Ok(
        OperationV2 {
            op_id: record.op_id.clone(),
            repo_id: record.repo_id.clone(),
            parent_op_ids: parents_of(graph),
            pre_view_oid,
            post_view_oid,
            kind,
            status,
            metadata: OperationMetaV2 {
                command_name: Some(record.command_name.clone()),
                description: Some(record.description.clone()),
                args_digest: copy_text(&record.args_digest),
                actor: Some(record.actor.clone()),
                worktree_id: Some(record.worktree_id.clone()),
                scope_kind: record.scope_kind.clone(),
                causal_context_id: None,
            },
            restores_op_id: None,
            reverts_op_id: None,
            predecessor_map_oid: None,
            start_ts: record.start_ts,
            end_ts: record.end_ts,
        },
    )
}

/// The head that a stored operation becomes: only a success becomes one, a
/// generation behind the heads that are there. `Err` where no generation is
/// left.
pub fn head_after(operation: &OperationV2, current: &[OpHead]) -> (r: Result<
    Option<OpHead>,
    MiddlewareError,
>)
    ensures
        (match r {
            Ok(Some(head)) => operation.status is Success && head@ == (HeadModel {
                op_id: operation@.op_id,
                generation: store::next_generation(order::views(current@)),
            }) && store::next_generation(order::views(current@)) <= i64::MAX,
            Ok(None) => !(operation.status is Success),
            Err(e) => operation.status is Success && e is GenerationsExhausted
                && store::next_generation(order::views(current@)) > i64::MAX,
        }),
{
    match operation.status {
        OperationStatusV2::Success => match generation_after(current) {
            Some(generation) => Ok(Some(OpHead { op_id: operation.op_id.clone(), generation })),
            None => Err(MiddlewareError::GenerationsExhausted),
        },
        _ => Ok(None),
    }
}

//// Laws

/// The command that stands for a class is of that class.
pub proof fn law_class_command_is_of_class(class: MutationClass)
    ensures
        middleware::class_of(class_command(class)) == Some(class),
{
    reveal_strlit("status");
    reveal_strlit("add");
    reveal_strlit("commit");
    reveal_strlit("branch");
    reveal_strlit("index");
    reveal_strlit("external");
    reveal_strlit("internal-worker");
    let name = class_command(class);
    assert(text::trim_start(name) == name);
    assert(text::trim_end(name) == name);
    assert(text::ascii_lower(name) =~= name);
    reveal_command_names();
}

proof fn reveal_command_names()
    ensures
        "status"@.len() == 6 && "status"@[2] == 'a',
        "log"@.len() == 3 && "log"@[0] == 'l',
        "show"@.len() == 4,
        "diff"@.len() == 4,
        "op"@.len() == 2,
        "help"@.len() == 4,
        "add"@.len() == 3 && "add"@[0] == 'a',
        "checkout"@.len() == 8 && "checkout"@[0] == 'c',
        "switch"@.len() == 6 && "switch"@[0] == 's' && "switch"@[2] == 'i',
        "restore"@.len() == 7,
        "reset"@.len() == 5 && "reset"@[0] == 'r',
        "clean"@.len() == 5 && "clean"@[0] == 'c',
        "commit"@.len() == 6 && "commit"@[0] == 'c',
        "merge"@.len() == 5 && "merge"@[0] == 'm',
        "rebase"@.len() == 6 && "rebase"@[0] == 'r',
        "cherry-pick"@.len() == 11,
        "revert"@.len() == 6 && "revert"@[0] == 'r',
        "am"@.len() == 2,
        "branch"@.len() == 6 && "branch"@[0] == 'b',
        "tag"@.len() == 3 && "tag"@[0] == 't',
        "fetch"@.len() == 5 && "fetch"@[0] == 'f',
        "push"@.len() == 4,
        "update-ref"@.len() == 10,
        "index"@.len() == 5 && "index"@[0] == 'i',
        "update-index"@.len() == 12,
        "agent"@.len() == 5,
        "cloud"@.len() == 5,
        "external"@.len() == 8 && "external"@[0] == 'e',
        "status-io-worker"@.len() == 16,
        "internal-worker"@.len() == 15,
{
    reveal_strlit("status");
    reveal_strlit("log");
    reveal_strlit("show");
    reveal_strlit("diff");
    reveal_strlit("op");
    reveal_strlit("help");
    reveal_strlit("add");
    reveal_strlit("checkout");
    reveal_strlit("switch");
    reveal_strlit("restore");
    reveal_strlit("reset");
    reveal_strlit("clean");
    reveal_strlit("commit");
    reveal_strlit("merge");
    reveal_strlit("rebase");
    reveal_strlit("cherry-pick");
    reveal_strlit("revert");
    reveal_strlit("am");
    reveal_strlit("branch");
    reveal_strlit("tag");
    reveal_strlit("fetch");
    reveal_strlit("push");
    reveal_strlit("update-ref");
    reveal_strlit("index");
    reveal_strlit("update-index");
    reveal_strlit("agent");
    reveal_strlit("cloud");
    reveal_strlit("external");
    reveal_strlit("status-io-worker");
    reveal_strlit("internal-worker");
}

/// A graph that was stored is loaded with the record, the edges and the view
/// it had, as far as an operation keeps them: a canceled operation comes back
/// as failed, and claims and provenance are not kept.
pub proof fn law_graph_round_trip(g: GraphModel, pre: Seq<char>)
    requires
        g.fault() is None,
        oid::oid_of(g.view.view_id) == Some(g.view.view_id),
        !(g.operation.status is Canceled),
        g.operation.scope_provenance == "declared"@,
        g.operation.restorable,
        g.operation.control_slot is None,
        g.operation.claim_owner is None,
    ensures
        record_of(operation_of(g, pre, g.view.view_id)) == g.operation,
        parent_edges(operation_of(g, pre, g.view.view_id)) == g.parents,
{
    legacy_operation::law_checked_graph_is_tied(g);
    let op = operation_of(g, pre, g.view.view_id);
    assert(record_of(op) =~= g.operation);
    assert(parent_edges(op) =~= g.parents) by {
        assert forall|i: int| 0 <= i < g.parents.len() implies parent_edges(op)[i]
            == g.parents[i] by {
            assert(g.parents[i].op_id == g.operation.op_id);
        }
    }
}

} // verus!
