//! Durable worktree pointer and operation-head staleness classification.
//!
//! A pointer records the operation/view pair last materialized in one
//! workspace. It is deliberately separate from the operation heads: these are
//! the repository's publish point, while the pointer is the local checkout's
//! acknowledgement of that point.

use vstd::prelude::*;

use super::store::OpHead;
use crate::oid;
use crate::oid::Oid;
use crate::text;
use crate::text::{blank, decimal_text, same};

verus! {

pub const POINTER_SCHEMA_VERSION: u32 = 2;

#[derive(Debug, Clone, PartialEq, Eq)]
pub struct WorkspaceStatePointer {
    pub last_op_id: String,
    pub last_snapshot_oid: Oid,
    pub generation: i64,
}

#[derive(Debug, Clone, Copy, PartialEq, Eq, Structural)]
pub enum Staleness {
    Fresh,
    Stale,
    Sibling,
}

#[derive(Debug, PartialEq, Eq)]
pub enum PointerError {
    Io(String),
    Json(String),
    InvalidSnapshotOid(String),
    UnsupportedSchema(u32),
    EmptyOperationId,
}

/// What a [`PointerError`] says.
pub enum PointerErrorModel {
    Io(Seq<char>),
    Json(Seq<char>),
    InvalidSnapshotOid(Seq<char>),
    UnsupportedSchema(u32),
    EmptyOperationId,
}

impl View for PointerError {
    type V = PointerErrorModel;

    open spec fn view(&self) -> PointerErrorModel {
        match self {
            PointerError::Io(m) => PointerErrorModel::Io(m@),
            PointerError::Json(m) => PointerErrorModel::Json(m@),
            PointerError::InvalidSnapshotOid(m) => PointerErrorModel::InvalidSnapshotOid(m@),
            PointerError::UnsupportedSchema(v) => PointerErrorModel::UnsupportedSchema(*v),
            PointerError::EmptyOperationId => PointerErrorModel::EmptyOperationId,
        }
    }
}

impl PointerErrorModel {
    /// The sentence that reports the error.
    pub open spec fn message(self) -> Seq<char> {
        match self {
            PointerErrorModel::Io(m) => "workspace pointer I/O error: "@ + m,
            PointerErrorModel::Json(m) => "workspace pointer JSON error: "@ + m,
            PointerErrorModel::InvalidSnapshotOid(m) => {
                "workspace pointer has invalid snapshot object id '"@ + m + "'"@
            },
            PointerErrorModel::UnsupportedSchema(v) => {
                "workspace pointer schema version "@ + text::decimal(v as nat) + " is unsupported"@
            },
            PointerErrorModel::EmptyOperationId => {
                "workspace pointer operation id must not be empty"@
            },
        }
    }
}

impl PointerError {
    /// The sentence that reports the error.
    pub fn message(&self) -> (r: String)
        ensures
            r@ == self@.message(),
    {
        match self {
            PointerError::Io(m) => super::store::joined("workspace pointer I/O error: ", m.as_str()),
            PointerError::Json(m) => super::store::joined(
                "workspace pointer JSON error: ",
                m.as_str(),
            ),
            PointerError::InvalidSnapshotOid(m) => super::store::quoted(
                "workspace pointer has invalid snapshot object id '",
                m.as_str(),
            ),
            PointerError::UnsupportedSchema(v) => {
                let mut out = super::store::joined(
                    "workspace pointer schema version ",
                    decimal_text(*v as u64).as_str(),
                );
                vstd::string::StringExecFns::append(&mut out, " is unsupported");
                out
            },
            PointerError::EmptyOperationId => {
                "workspace pointer operation id must not be empty".to_owned()
            },
        }
    }
}

/// The pointer as its file holds it.
#[derive(Debug, PartialEq, Eq)]
pub struct PointerFile {
    pub schema_version: u32,
    pub last_op_id: String,
    pub last_snapshot_oid: String,
    pub generation: i64,
}

/// What is wrong with a pointer file: the schema is looked at first, then the
/// object id, then the operation id.
pub open spec fn pointer_fault(f: PointerFile) -> Option<PointerErrorModel> {
    if f.schema_version != POINTER_SCHEMA_VERSION {
        Some(PointerErrorModel::UnsupportedSchema(f.schema_version))
    } else if oid::oid_of(f.last_snapshot_oid@) is None {
        Some(PointerErrorModel::InvalidSnapshotOid(f.last_snapshot_oid@))
    } else if text::is_blank(f.last_op_id@) {
        Some(PointerErrorModel::EmptyOperationId)
    } else {
        None
    }
}

impl WorkspaceStatePointer {
    pub fn new(last_op_id: String, last_snapshot_oid: Oid, generation: i64) -> (r: Result<
        Self,
        PointerError,
    >)
        ensures
            (match r {
                Ok(p) => !text::is_blank(last_op_id@) && p.last_op_id == last_op_id
                    && p.last_snapshot_oid == last_snapshot_oid && p.generation == generation,
                Err(e) => text::is_blank(last_op_id@) && e@ == PointerErrorModel::EmptyOperationId,
            }),
    {
        if blank(last_op_id.as_str()) {
            return Err(PointerError::EmptyOperationId);
        }
        Ok(WorkspaceStatePointer { last_op_id, last_snapshot_oid, generation })
    }

    /// The pointer that a file holds.
    pub fn from_file(file: PointerFile) -> (r: Result<Self, PointerError>)
        ensures
            (match r {
                Ok(p) => {
                    &&& pointer_fault(file) is None
                    &&& p.last_op_id@ == file.last_op_id@
                    &&& oid::oid_of(file.last_snapshot_oid@) == Some(p.last_snapshot_oid@)
                    &&& p.last_snapshot_oid.wf()
                    &&& p.generation == file.generation
                },
                Err(e) => pointer_fault(file) == Some(e@),
            }),
    {
        if file.schema_version != POINTER_SCHEMA_VERSION {
            return Err(PointerError::UnsupportedSchema(file.schema_version));
        }
        match Oid::parse(file.last_snapshot_oid.as_str()) {
            Some(id) => WorkspaceStatePointer::new(file.last_op_id, id, file.generation),
            None => Err(PointerError::InvalidSnapshotOid(file.last_snapshot_oid)),
        }
    }

    /// What a file holds for the pointer.
    pub fn to_file(&self) -> (r: Result<PointerFile, PointerError>)
        ensures
            (match r {
                Ok(f) => {
                    &&& !text::is_blank(self.last_op_id@)
                    &&& f.schema_version == POINTER_SCHEMA_VERSION
                    &&& f.last_op_id@ == self.last_op_id@
                    &&& f.last_snapshot_oid@ == self.last_snapshot_oid@
                    &&& f.generation == self.generation
                },
                Err(e) => text::is_blank(self.last_op_id@) && e@
                    == PointerErrorModel::EmptyOperationId,
            }),
    {
        if blank(self.last_op_id.as_str()) {
            return Err(PointerError::EmptyOperationId);
        }
        Ok(
            PointerFile {
                schema_version: POINTER_SCHEMA_VERSION,
                last_op_id: self.last_op_id.clone(),
                last_snapshot_oid: self.last_snapshot_oid.hex.clone(),
                generation: self.generation,
            },
        )
    }

    /// Whether a head is the operation that the pointer names, in whatever
    /// generation it was published.
    pub open spec fn is_at(self, head: OpHead) -> bool {
        head.op_id@ == self.last_op_id@
    }

    /// Compare this local pointer with the currently published heads.
    ///
    /// `is_ancestor(a, b)` must answer whether operation `a` is an ancestor
    /// of operation `b`. Generation is used as a cheap guard before walking
    /// the DAG; an equal operation id is always fresh.
    pub fn staleness<F: Fn(&str, &str) -> bool>(&self, heads: &[OpHead], is_ancestor: F) -> (r:
        Staleness)
        requires
            forall|a: &str, b: &str| call_requires(is_ancestor, (a, b)),
        ensures
            r is Fresh <==> exists|i: int|
                0 <= i < heads@.len() && self.is_at(#[trigger] heads@[i]),
            r is Stale ==> exists|i: int, a: &str, b: &str|
                #![trigger heads@[i], call_ensures(is_ancestor, (a, b), true)]
                0 <= i < heads@.len() && heads@[i].generation >= self.generation && a@
                    == self.last_op_id@ && b@ == heads@[i].op_id@ && call_ensures(
                    is_ancestor,
                    (a, b),
                    true,
                ),
            r is Sibling ==> forall|i: int|
                0 <= i < heads@.len() && (#[trigger] heads@[i]).generation >= self.generation
                    ==> exists|a: &str, b: &str|
                    a@ == self.last_op_id@ && b@ == heads@[i].op_id@ && #[trigger] call_ensures(
                        is_ancestor,
                        (a, b),
                        false,
                    ),
    {
        let mut i: usize = 0;
        while i < heads.len()
            invariant
                i <= heads@.len(),
                forall|j: int| 0 <= j < i ==> !self.is_at(#[trigger] heads@[j]),
            decreases heads@.len() - i,
        {
            if same(heads[i].op_id.as_str(), self.last_op_id.as_str()) {
                assert(self.is_at(heads@[i as int]));
                return Staleness::Fresh;
            }
            i += 1;
        }
        let mut k: usize = 0;
        while k < heads.len()
            invariant
                k <= heads@.len(),
                forall|a: &str, b: &str| call_requires(is_ancestor, (a, b)),
                forall|j: int| 0 <= j < heads@.len() ==> !self.is_at(#[trigger] heads@[j]),
                forall|j: int|
                    0 <= j < k && (#[trigger] heads@[j]).generation >= self.generation ==> exists|
                        a: &str,
                        b: &str,
                    |
                        a@ == self.last_op_id@ && b@ == heads@[j].op_id@
                            && #[trigger] call_ensures(is_ancestor, (a, b), false),
            decreases heads@.len() - k,
        {
            if heads[k].generation >= self.generation {
                let from = self.last_op_id.as_str();
                let to = heads[k].op_id.as_str();
                if is_ancestor(from, to) {
                    assert(call_ensures(is_ancestor, (from, to), true));
                    assert(heads@[k as int].generation >= self.generation);
                    return Staleness::Stale;
                }
                assert(call_ensures(is_ancestor, (from, to), false));
            }
            k += 1;
        }
        Staleness::Sibling
    }
}

/// A pointer that is saved is loaded as it was.
pub proof fn law_pointer_round_trip(p: WorkspaceStatePointer, f: PointerFile)
    requires
        p.last_snapshot_oid.wf(),
        !text::is_blank(p.last_op_id@),
        f.schema_version == POINTER_SCHEMA_VERSION,
        f.last_op_id@ == p.last_op_id@,
        f.last_snapshot_oid@ == p.last_snapshot_oid@,
        f.generation == p.generation,
    ensures
        pointer_fault(f) is None,
        oid::oid_of(f.last_snapshot_oid@) == Some(p.last_snapshot_oid@),
{
}

} // verus!
