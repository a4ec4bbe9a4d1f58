//! Versioned manifests for repository and working-copy state.

use vstd::prelude::*;
use vstd::string::*;

use super::facet::{oid_texts, RestorePolicy};
use super::facet;
use super::store::joined;
use super::store;
use crate::oid::Oid;
use crate::order;
use crate::text;
use crate::text::{blank, decimal_text, same};

verus! {

pub const REPO_VIEW_SCHEMA_VERSION: u32 = 2;

pub const WORKSPACE_SNAPSHOT_SCHEMA_VERSION: u32 = 2;

pub type WorkspaceId = String;

/// A name with an object id.
#[derive(Debug, Clone, PartialEq, Eq)]
pub struct NamedOid {
    pub name: String,
    pub oid: Oid,
}

/// Object ids by name, in the order of the names.
#[derive(Debug, Clone, PartialEq, Eq)]
pub struct OidMap {
    pub entries: Vec<NamedOid>,
}

pub open spec fn entry_names(v: Seq<NamedOid>) -> Seq<Seq<char>> {
    v.map_values(|e: NamedOid| e.name@)
}

pub open spec fn entry_oids(v: Seq<NamedOid>) -> Seq<Seq<char>> {
    v.map_values(|e: NamedOid| e.oid@)
}

impl OidMap {
    /// Whether the names stand in their order, each once.
    pub open spec fn wf(self) -> bool {
        facet::strictly_ordered(entry_names(self.entries@))
    }

    /// The id under `name`.
    pub open spec fn lookup(self, name: Seq<char>) -> Option<Seq<char>> {
        let k = facet::place_of(entry_names(self.entries@), name, 0);
        if k < self.entries@.len() {
            Some(self.entries@[k].oid@)
        } else {
            None
        }
    }

    pub fn new() -> (r: Self)
        ensures
            r.wf(),
            r.entries@.len() == 0,
    {
        OidMap { entries: Vec::new() }
    }

    /// Puts `oid` under `name`, in place of what stood there.
    pub fn insert(&mut self, name: String, oid: Oid)
        requires
            old(self).wf(),
        ensures
            final(self).wf(),
            final(self).lookup(name@) == Some(oid@),
            forall|n: Seq<char>| n != name@ ==> #[trigger] final(self).lookup(n) == old(self).lookup(n),
    {
        let ghost before = self.entries@;
        let ghost names = entry_names(before);
        let mut k: usize = 0;
        while k < self.entries.len() && !same(self.entries[k].name.as_str(), name.as_str())
            && order::text_not_after(self.entries[k].name.as_str(), name.as_str())
            invariant
                k <= self.entries@.len(),
                self.entries@ == before,
                names == entry_names(before),
                forall|j: int|
                    0 <= j < k ==> order::text_le(#[trigger] names[j], name@) && names[j] != name@,
            decreases self.entries@.len() - k,
        {
            assert(names[k as int] == before[k as int].name@);
            k += 1;
        }
        let ghost added = name@;
        let ghost id = oid@;
        if k < self.entries.len() && same(self.entries[k].name.as_str(), name.as_str()) {
            let old_name = self.entries[k].name.clone();
            self.entries[k] = NamedOid { name: old_name, oid };
            assert(entry_names(self.entries@) =~= names);
            proof {
                lemma_place_unique(names, added, k as int);
                assert forall|n: Seq<char>| n != added implies #[trigger] self.lookup(n) == old(
                    self,
                ).lookup(n) by {
                    facet::lemma_place_of(names, n, 0);
                }
            }
        } else {
            proof {
                if k < before.len() {
                    assert(names[k as int] == before[k as int].name@);
                    order::lemma_text_le_total(names[k as int], added);
                }
                lemma_name_is_new(names, k as int, added);
                facet::lemma_insert_name(names, k as int, added);
            }
            self.entries.insert(k, NamedOid { name, oid });
            proof {
                before.insert_ensures(k as int, self.entries@[k as int]);
                names.insert_ensures(k as int, added);
                let now = entry_names(self.entries@);
                assert(now =~= names.insert(k as int, added));
                lemma_place_unique(now, added, k as int);
                assert(self.lookup(added) == Some(id));
                assert forall|n: Seq<char>| n != added implies #[trigger] self.lookup(n) == old(
                    self,
                ).lookup(n) by {
                    lemma_place_insert(names, k as int, added, n);
                    facet::lemma_place_of(names, n, 0);
                    let p = facet::place_of(names, n, 0);
                    if p < k {
                        assert(self.entries@[p] == before[p]);
                    } else if p < before.len() {
                        assert(self.entries@[p + 1] == before[p]);
                    }
                }
            }
        }
    }

    /// The ids, in the order of their names.
    pub fn values(&self) -> (r: Vec<Oid>)
        ensures
            oid_texts(r@) == entry_oids(self.entries@),
            forall|i: int| 0 <= i < self.entries@.len() ==> r@[i] == (#[trigger] self.entries@[i]).oid,
    {
        let mut out: Vec<Oid> = Vec::new();
        let mut i: usize = 0;
        while i < self.entries.len()
            invariant
                i <= self.entries@.len(),
                out@.len() == i,
                forall|j: int| 0 <= j < i ==> #[trigger] out@[j] == self.entries@[j].oid,
            decreases self.entries@.len() - i,
        {
            out.push(self.entries[i].oid.clone());
            i += 1;
        }
        assert(oid_texts(out@) =~= entry_oids(self.entries@));
        out
    }
}

/// A name that does not stand where it belongs is not there.
proof fn lemma_name_is_new(names: Seq<Seq<char>>, k: int, name: Seq<char>)
    requires
        facet::strictly_ordered(names),
        0 <= k <= names.len(),
        forall|j: int| 0 <= j < k ==> #[trigger] names[j] != name,
        k < names.len() ==> names[k] != name && order::text_le(name, names[k]),
    ensures
        !names.contains(name),
{
    if names.contains(name) {
        let j = choose|j: int| 0 <= j < names.len() && names[j] == name;
        if j > k {
            assert(order::text_le(names[k], names[j]));
            order::lemma_text_le_antisymmetric(names[k], name);
        }
    }
}

proof fn lemma_place_unique(names: Seq<Seq<char>>, name: Seq<char>, k: int)
    requires
        facet::strictly_ordered(names),
        0 <= k < names.len(),
        names[k] == name,
    ensures
        facet::place_of(names, name, 0) == k,
{
    facet::lemma_place_of(names, name, 0);
    let p = facet::place_of(names, name, 0);
    if p < k {
        assert(names[p] != names[k]);
    }
}

proof fn lemma_place_insert(names: Seq<Seq<char>>, k: int, added: Seq<char>, n: Seq<char>)
    requires
        0 <= k <= names.len(),
        n != added,
    ensures
        ({
            let p = facet::place_of(names, n, 0);
            facet::place_of(names.insert(k, added), n, 0) == if p < k {
                p
            } else {
                p + 1
            }
        }),
{
    let now = names.insert(k, added);
    names.insert_ensures(k, added);
    facet::lemma_place_of(names, n, 0);
    facet::lemma_place_of(now, n, 0);
    let p = facet::place_of(names, n, 0);
    let q = facet::place_of(now, n, 0);
    if p < k {
        assert(now[p] == names[p]);
        if q < p {
            assert(now[q] == names[q]);
        }
    } else {
        if p < names.len() {
            assert(now[p + 1] == names[p]);
        }
        if q < p + 1 {
            if q < k {
                assert(now[q] == names[q]);
            } else if q > k {
                assert(now[q - 1 + 1] == names[q - 1]);
            }
        }
    }
}

#[derive(Debug, Clone, PartialEq, Eq)]
#[allow(inconsistent_fields)]
pub enum HeadState {
    Symbolic { ref_name: String },
    Detached { oid: Oid },
    Unborn { ref_name: String },
}

#[derive(Debug, Clone, Copy, PartialEq, Eq, Structural)]
pub enum CapturePolicy {
    TrackedOnly,
    TrackedAndUntracked,
    FailClosed,
}

#[derive(Debug, Clone, Copy, PartialEq, Eq, Structural)]
pub enum Completeness {
    Full,
    Partial,
}

/// The restore policy of a facet.
#[derive(Debug, Clone, PartialEq, Eq)]
pub struct FacetPolicy {
    pub facet: String,
    pub policy: RestorePolicy,
}

/// Restore policies by facet name, in the order of the names.
#[derive(Debug, Clone, PartialEq, Eq)]
pub struct PolicyMap {
    pub entries: Vec<FacetPolicy>,
}

pub open spec fn policy_names(v: Seq<FacetPolicy>) -> Seq<Seq<char>> {
    v.map_values(|e: FacetPolicy| e.facet@)
}

impl PolicyMap {
    /// Whether the names stand in their order, each once.
    pub open spec fn wf(self) -> bool {
        facet::strictly_ordered(policy_names(self.entries@))
    }

    /// The policy of the facet `name`.
    pub open spec fn lookup(self, name: Seq<char>) -> Option<RestorePolicy> {
        let k = facet::place_of(policy_names(self.entries@), name, 0);
        if k < self.entries@.len() {
            Some(self.entries@[k].policy)
        } else {
            None
        }
    }

    pub fn new() -> (r: Self)
        ensures
            r.wf(),
            r.entries@.len() == 0,
    {
        PolicyMap { entries: Vec::new() }
    }

    /// Gives the facet `name` the policy, in place of the one it had.
    pub fn insert(&mut self, name: String, policy: RestorePolicy)
        requires
            old(self).wf(),
        ensures
            final(self).wf(),
            final(self).lookup(name@) == Some(policy),
            forall|n: Seq<char>|
                n != name@ ==> #[trigger] final(self).lookup(n) == old(self).lookup(n),
    {
        let ghost before = self.entries@;
        let ghost names = policy_names(before);
        let mut k: usize = 0;
        while k < self.entries.len() && !same(self.entries[k].facet.as_str(), name.as_str())
            && order::text_not_after(self.entries[k].facet.as_str(), name.as_str())
            invariant
                k <= self.entries@.len(),
                self.entries@ == before,
                names == policy_names(before),
                forall|j: int|
                    0 <= j < k ==> order::text_le(#[trigger] names[j], name@) && names[j] != name@,
            decreases self.entries@.len() - k,
        {
            assert(names[k as int] == before[k as int].facet@);
            k += 1;
        }
        let ghost added = name@;
        if k < self.entries.len() && same(self.entries[k].facet.as_str(), name.as_str()) {
            self.entries[k] = FacetPolicy { facet: name, policy };
            assert(policy_names(self.entries@) =~= names);
            proof {
                lemma_place_unique(names, added, k as int);
                assert forall|n: Seq<char>| n != added implies #[trigger] self.lookup(n) == old(
                    self,
                ).lookup(n) by {
                    facet::lemma_place_of(names, n, 0);
                }
            }
        } else {
            proof {
                if k < before.len() {
                    assert(names[k as int] == before[k as int].facet@);
                    order::lemma_text_le_total(names[k as int], added);
                }
                lemma_name_is_new(names, k as int, added);
                facet::lemma_insert_name(names, k as int, added);
            }
            self.entries.insert(k, FacetPolicy { facet: name, policy });
            proof {
                before.insert_ensures(k as int, self.entries@[k as int]);
                names.insert_ensures(k as int, added);
                let now = policy_names(self.entries@);
                assert(now =~= names.insert(k as int, added));
                lemma_place_unique(now, added, k as int);
                assert forall|n: Seq<char>| n != added implies #[trigger] self.lookup(n) == old(
                    self,
                ).lookup(n) by {
                    lemma_place_insert(names, k as int, added, n);
                    facet::lemma_place_of(names, n, 0);
                    let p = facet::place_of(names, n, 0);
                    if p < k {
                        assert(self.entries@[p] == before[p]);
                    } else if p < before.len() {
                        assert(self.entries@[p + 1] == before[p]);
                    }
                }
            }
        }
    }
}

#[derive(Debug, Clone, PartialEq, Eq)]
pub struct RepoViewV2 {
    pub schema_version: u32,
    pub repo_id: String,
    pub refs_facet_oid: Oid,
    pub workspaces: OidMap,
    pub change_roots: Vec<Oid>,
    pub extension_facets: OidMap,
}

#[derive(Debug, Clone, PartialEq, Eq)]
pub struct WorkspaceSnapshotV2 {
    pub schema_version: u32,
    pub workspace_id: WorkspaceId,
    pub head: HeadState,
    pub index_tree_oid: Oid,
    pub raw_index_blob_oid: Oid,
    pub working_copy_tree_oid: Oid,
    pub untracked_manifest_oid: Oid,
    pub sparse_facet_oid: Option<Oid>,
    pub sequencer_facet_oid: Option<Oid>,
    pub worktree_generation: u64,
    pub capture_policy: CapturePolicy,
    pub completeness: Completeness,
    pub facet_restore_policies: PolicyMap,
}

#[derive(Debug, PartialEq, Eq)]
pub enum ViewCodecError {
    InvalidJson(String),
    UnsupportedSchemaVersion { kind: &'static str, version: u32, expected: u32 },
    WrongObjectType { expected: &'static str },
    MissingObject(Oid),
    EmptyRepoId,
    EmptyWorkspaceId,
    Storage(String),
}

/// What a [`ViewCodecError`] says.
pub enum ViewErrorModel {
    InvalidJson(Seq<char>),
    UnsupportedSchemaVersion { kind: Seq<char>, version: u32, expected: u32 },
    WrongObjectType { expected: Seq<char> },
    MissingObject(Seq<char>),
    EmptyRepoId,
    EmptyWorkspaceId,
    Storage(Seq<char>),
}

impl View for ViewCodecError {
    type V = ViewErrorModel;

    open spec fn view(&self) -> ViewErrorModel {
        match self {
            ViewCodecError::InvalidJson(m) => ViewErrorModel::InvalidJson(m@),
            ViewCodecError::UnsupportedSchemaVersion { kind, version, expected } => {
                ViewErrorModel::UnsupportedSchemaVersion {
                    kind: kind@,
                    version: *version,
                    expected: *expected,
                }
            },
            ViewCodecError::WrongObjectType { expected } => {
                ViewErrorModel::WrongObjectType { expected: expected@ }
            },
            ViewCodecError::MissingObject(id) => ViewErrorModel::MissingObject(id@),
            ViewCodecError::EmptyRepoId => ViewErrorModel::EmptyRepoId,
            ViewCodecError::EmptyWorkspaceId => ViewErrorModel::EmptyWorkspaceId,
            ViewCodecError::Storage(m) => ViewErrorModel::Storage(m@),
        }
    }
}

impl ViewErrorModel {
    /// The sentence that reports the error.
    pub open spec fn message(self) -> Seq<char> {
        match self {
            ViewErrorModel::InvalidJson(m) => "invalid canonical manifest JSON: "@ + m,
            ViewErrorModel::UnsupportedSchemaVersion { kind, version, expected } => {
                "unsupported "@ + kind + " schema version "@ + text::decimal(version as nat)
                    + "; expected "@ + text::decimal(expected as nat)
            },
            ViewErrorModel::WrongObjectType { expected } => {
                "manifest object is not a "@ + expected + " object"@
            },
            ViewErrorModel::MissingObject(id) => "manifest references missing object "@ + id,
            ViewErrorModel::EmptyRepoId => "empty repo_id"@,
            ViewErrorModel::EmptyWorkspaceId => "empty workspace_id"@,
            ViewErrorModel::Storage(m) => "failed to persist manifest: "@ + m,
        }
    }
}

impl ViewCodecError {
    /// The sentence that reports the error.
    pub fn message(&self) -> (r: String)
        ensures
            r@ == self@.message(),
    {
        match self {
            ViewCodecError::InvalidJson(m) => joined(
                "invalid canonical manifest JSON: ",
                m.as_str(),
            ),
            ViewCodecError::UnsupportedSchemaVersion { kind, version, expected } => {
                let mut out = joined("unsupported ", kind);
                out.append(" schema version ");
                out.append(decimal_text(*version as u64).as_str());
                out.append("; expected ");
                out.append(decimal_text(*expected as u64).as_str());
                out
            },
            ViewCodecError::WrongObjectType { expected } => {
                let mut out = joined("manifest object is not a ", expected);
                out.append(" object");
                out
            },
            ViewCodecError::MissingObject(id) => joined(
                "manifest references missing object ",
                id.as_str(),
            ),
            ViewCodecError::EmptyRepoId => "empty repo_id".to_owned(),
            ViewCodecError::EmptyWorkspaceId => "empty workspace_id".to_owned(),
            ViewCodecError::Storage(m) => joined("failed to persist manifest: ", m.as_str()),
        }
    }
}

/// Whether `r` tells which of `roots` is missing: the first for which
/// `contains` said no.
pub open spec fn closure_checked<F: Fn(&Oid) -> bool>(
    roots: Seq<Oid>,
    contains: F,
    r: Result<(), ViewCodecError>,
) -> bool {
    match r {
        Ok(_) => forall|i: int|
            #![trigger roots[i]]
            0 <= i < roots.len() ==> call_ensures(contains, (&roots[i],), true),
        Err(e) => exists|i: int|
            #![trigger roots[i]]
            0 <= i < roots.len() && call_ensures(contains, (&roots[i],), false) && e@
                == ViewErrorModel::MissingObject(roots[i]@) && forall|j: int|
                #![trigger roots[j]]
                0 <= j < i ==> call_ensures(contains, (&roots[j],), true),
    }
}

fn check_closure<F: Fn(&Oid) -> bool>(roots: &[Oid], contains: F) -> (r: Result<
    (),
    ViewCodecError,
>)
    requires
        forall|id: &Oid| call_requires(contains, (id,)),
    ensures
        closure_checked(roots@, contains, r),
{
    let mut i: usize = 0;
    while i < roots.len()
        invariant
            i <= roots@.len(),
            forall|id: &Oid| call_requires(contains, (id,)),
            forall|j: int|
                #![trigger roots@[j]]
                0 <= j < i ==> call_ensures(contains, (&roots@[j],), true),
        decreases roots@.len() - i,
    {
        if !contains(&roots[i]) {
            let ghost k = i as int;
            assert(call_ensures(contains, (&roots@[k],), false));
            return Err(ViewCodecError::MissingObject(roots[i].clone()));
        }
        i += 1;
    }
    Ok(())
}

impl RepoViewV2 {
    /// Whether each workspace and each extension stands once, in the order of
    /// their names.
    pub open spec fn wf(self) -> bool {
        self.workspaces.wf() && self.extension_facets.wf()
    }

    /// What is wrong with a view: its schema is looked at before its repository.
    pub open spec fn fault(self) -> Option<ViewErrorModel> {
        if self.schema_version != REPO_VIEW_SCHEMA_VERSION {
            Some(
                ViewErrorModel::UnsupportedSchemaVersion {
                    kind: "RepoViewV2"@,
                    version: self.schema_version,
                    expected: REPO_VIEW_SCHEMA_VERSION,
                },
            )
        } else if text::is_blank(self.repo_id@) {
            Some(ViewErrorModel::EmptyRepoId)
        } else {
            None
        }
    }

    /// The objects that the view refers to.
    pub open spec fn root_texts(self) -> Seq<Seq<char>> {
        seq![self.refs_facet_oid@] + entry_oids(self.workspaces.entries@) + oid_texts(
            self.change_roots@,
        ) + entry_oids(self.extension_facets.entries@)
    }

    pub fn new(
        repo_id: String,
        refs_facet_oid: Oid,
        workspaces: OidMap,
        change_roots: Vec<Oid>,
        extension_facets: OidMap,
    ) -> (r: Result<Self, ViewCodecError>)
        ensures
            (match r {
                Ok(v) => {
                    &&& !text::is_blank(repo_id@)
                    &&& v.schema_version == REPO_VIEW_SCHEMA_VERSION
                    &&& v.repo_id == repo_id
                    &&& v.refs_facet_oid == refs_facet_oid
                    &&& v.workspaces == workspaces
                    &&& workspaces.wf() && extension_facets.wf() ==> v.wf()
                    &&& v.change_roots == change_roots
                    &&& v.extension_facets == extension_facets
                },
                Err(e) => text::is_blank(repo_id@) && e@ == ViewErrorModel::EmptyRepoId,
            }),
    {
        let view = RepoViewV2 {
            schema_version: REPO_VIEW_SCHEMA_VERSION,
            repo_id,
            refs_facet_oid,
            workspaces,
            change_roots,
            extension_facets,
        };
        match view.validate_schema() {
            Ok(_) => Ok(view),
            Err(e) => Err(e),
        }
    }

    /// Checks a view before it is encoded, or after it was decoded.
    pub fn validate_schema(&self) -> (r: Result<(), ViewCodecError>)
        ensures
            (match r {
                Ok(_) => self.fault() is None,
                Err(e) => self.fault() == Some(e@),
            }),
    {
        if self.schema_version != REPO_VIEW_SCHEMA_VERSION {
            return Err(
                ViewCodecError::UnsupportedSchemaVersion {
                    kind: "RepoViewV2",
                    version: self.schema_version,
                    expected: REPO_VIEW_SCHEMA_VERSION,
                },
            );
        }
        if blank(self.repo_id.as_str()) {
            return Err(ViewCodecError::EmptyRepoId);
        }
        Ok(())
    }

    pub fn roots(&self) -> (r: Vec<Oid>)
        ensures
            oid_texts(r@) == self.root_texts(),
    {
        let mut out: Vec<Oid> = Vec::new();
        out.push(self.refs_facet_oid.clone());
        let mut spaces = self.workspaces.values();
        let mut changes = copy_oids(self.change_roots.as_slice());
        let mut extensions = self.extension_facets.values();
        let ghost a = oid_texts(spaces@);
        let ghost b = oid_texts(changes@);
        let ghost c = oid_texts(extensions@);
        out.append(&mut spaces);
        out.append(&mut changes);
        out.append(&mut extensions);
        assert(oid_texts(out@) =~= seq![self.refs_facet_oid@] + a + b + c);
        out
    }

    pub fn validate_closure<F: Fn(&Oid) -> bool>(&self, contains: F) -> (r: Result<
        (),
        ViewCodecError,
    >)
        requires
            forall|id: &Oid| call_requires(contains, (id,)),
        ensures
            exists|roots: Seq<Oid>| #[trigger]
                oid_texts(roots) == self.root_texts() && closure_checked(roots, contains, r),
    {
        let roots = self.roots();
        check_closure(roots.as_slice(), contains)
    }
}

pub fn copy_oids(v: &[Oid]) -> (r: Vec<Oid>)
    ensures
        r@ == v@,
{
    let mut out: Vec<Oid> = Vec::new();
    let mut i: usize = 0;
    while i < v.len()
        invariant
            i <= v.len(),
            out@ == v@.take(i as int),
        decreases v.len() - i,
    {
        out.push(v[i].clone());
        i += 1;
    }
    assert(v@.take(i as int) =~= v@);
    out
}

pub open spec fn opt_roots(o: Option<Oid>) -> Seq<Seq<char>> {
    match o {
        Some(id) => seq![id@],
        None => Seq::empty(),
    }
}

impl WorkspaceSnapshotV2 {
    /// Whether each facet has one restore policy, in the order of their names.
    pub open spec fn wf(self) -> bool {
        self.facet_restore_policies.wf()
    }

    /// What is wrong with a snapshot.
    pub open spec fn fault(self) -> Option<ViewErrorModel> {
        if self.schema_version != WORKSPACE_SNAPSHOT_SCHEMA_VERSION {
            Some(
                ViewErrorModel::UnsupportedSchemaVersion {
                    kind: "WorkspaceSnapshotV2"@,
                    version: self.schema_version,
                    expected: WORKSPACE_SNAPSHOT_SCHEMA_VERSION,
                },
            )
        } else if text::is_blank(self.workspace_id@) {
            Some(ViewErrorModel::EmptyWorkspaceId)
        } else {
            None
        }
    }

    /// The objects that the snapshot refers to: also the commit of a detached
    /// head.
    pub open spec fn root_texts(self) -> Seq<Seq<char>> {
        seq![
            self.index_tree_oid@,
            self.raw_index_blob_oid@,
            self.working_copy_tree_oid@,
            self.untracked_manifest_oid@,
        ] + opt_roots(self.sparse_facet_oid) + opt_roots(self.sequencer_facet_oid) + (
        match self.head {
            HeadState::Detached { oid } => seq![oid@],
            _ => Seq::empty(),
        })
    }

    pub fn new(
        workspace_id: WorkspaceId,
        head: HeadState,
        index_tree_oid: Oid,
        raw_index_blob_oid: Oid,
        working_copy_tree_oid: Oid,
        untracked_manifest_oid: Oid,
    ) -> (r: Result<Self, ViewCodecError>)
        ensures
            (match r {
                Ok(s) => {
                    &&& !text::is_blank(workspace_id@)
                    &&& s.schema_version == WORKSPACE_SNAPSHOT_SCHEMA_VERSION
                    &&& s.workspace_id == workspace_id
                    &&& s.head == head
                    &&& s.index_tree_oid == index_tree_oid
                    &&& s.raw_index_blob_oid == raw_index_blob_oid
                    &&& s.working_copy_tree_oid == working_copy_tree_oid
                    &&& s.untracked_manifest_oid == untracked_manifest_oid
                    &&& s.sparse_facet_oid is None
                    &&& s.sequencer_facet_oid is None
                    &&& s.worktree_generation == 0
                    &&& s.capture_policy is TrackedOnly
                    &&& s.completeness is Full
                    &&& s.facet_restore_policies.entries@.len() == 0
                    &&& s.wf()
                },
                Err(e) => text::is_blank(workspace_id@) && e@ == ViewErrorModel::EmptyWorkspaceId,
            }),
    {
        let snapshot = WorkspaceSnapshotV2 {
            schema_version: WORKSPACE_SNAPSHOT_SCHEMA_VERSION,
            workspace_id,
            head,
            index_tree_oid,
            raw_index_blob_oid,
            working_copy_tree_oid,
            untracked_manifest_oid,
            sparse_facet_oid: None,
            sequencer_facet_oid: None,
            worktree_generation: 0,
            capture_policy: CapturePolicy::TrackedOnly,
            completeness: Completeness::Full,
            facet_restore_policies: PolicyMap::new(),
        };
        match snapshot.validate_schema() {
            Ok(_) => Ok(snapshot),
            Err(e) => Err(e),
        }
    }

    /// Checks a snapshot before it is encoded, or after it was decoded.
    pub fn validate_schema(&self) -> (r: Result<(), ViewCodecError>)
        ensures
            (match r {
                Ok(_) => self.fault() is None,
                Err(e) => self.fault() == Some(e@),
            }),
    {
        if self.schema_version != WORKSPACE_SNAPSHOT_SCHEMA_VERSION {
            return Err(
                ViewCodecError::UnsupportedSchemaVersion {
                    kind: "WorkspaceSnapshotV2",
                    version: self.schema_version,
                    expected: WORKSPACE_SNAPSHOT_SCHEMA_VERSION,
                },
            );
        }
        if blank(self.workspace_id.as_str()) {
            return Err(ViewCodecError::EmptyWorkspaceId);
        }
        Ok(())
    }

    pub fn roots(&self) -> (r: Vec<Oid>)
        ensures
            oid_texts(r@) == self.root_texts(),
    {
        let mut out: Vec<Oid> = Vec::new();
        out.push(self.index_tree_oid.clone());
        out.push(self.raw_index_blob_oid.clone());
        out.push(self.working_copy_tree_oid.clone());
        out.push(self.untracked_manifest_oid.clone());
        if let Some(id) = &self.sparse_facet_oid {
            out.push(id.clone());
        }
        if let Some(id) = &self.sequencer_facet_oid {
            out.push(id.clone());
        }
        if let HeadState::Detached { oid } = &self.head {
            out.push(oid.clone());
        }
        assert(oid_texts(out@) =~= self.root_texts());
        out
    }

    pub fn validate_closure<F: Fn(&Oid) -> bool>(&self, contains: F) -> (r: Result<
        (),
        ViewCodecError,
    >)
        requires
            forall|id: &Oid| call_requires(contains, (id,)),
        ensures
            exists|roots: Seq<Oid>| #[trigger]
                oid_texts(roots) == self.root_texts() && closure_checked(roots, contains, r),
    {
        let roots = self.roots();
        check_closure(roots.as_slice(), contains)
    }
}

} // verus!
