//! File-backed index, sequencer, and sparse-state facets.
//!
//! Each adapter owns one controlled path. The restore policy belongs to the
//! facet (index and sequencer are auto-restorable; sparse state is rebuilt by
//! default), while the registry decides whether a complete snapshot may be
//! advertised as fully restorable. What the file at the path holds is read by
//! the caller, who also performs the writes that a restore asks for.

use vstd::prelude::*;
use vstd::slice::slice_to_vec;

use super::facet::{
    CaptureModel, FacetCapture, FacetCaptureCtx, FacetDiff, FacetError, FacetErrorModel, FacetName,
    FacetRestoreCtx, FacetWrite, RestorePolicy, StateFacet,
};
use super::facet;
use crate::oid;
use crate::oid::{HashKind, Oid};
use crate::text::same;

verus! {

pub const FACET_SCHEMA_VERSION: u32 = 1;

/// A facet that is one file.
#[derive(Debug, PartialEq, Eq)]
pub struct FileStateFacet {
    pub name: FacetName,
    /// What the file holds, or why it could not be read.
    pub content: Result<Vec<u8>, String>,
    /// The capture's meta document, which tells the path.
    pub meta: String,
    pub policy: RestorePolicy,
}

impl Clone for FileStateFacet {
    fn clone(&self) -> (r: Self)
        ensures
            r.name == self.name && r.meta == self.meta && r.policy == self.policy,
            (match self.content {
                Ok(data) => r.content matches Ok(copy) && copy@ == data@,
                Err(m) => r.content matches Err(copy) && copy@ == m@,
            }),
    {
        FileStateFacet {
            name: self.name.clone(),
            content: match &self.content {
                Ok(data) => Ok(slice_to_vec(data.as_slice())),
                Err(m) => Err(m.clone()),
            },
            meta: self.meta.clone(),
            policy: self.policy,
        }
    }
}

fn copy_oid(o: &Option<Oid>) -> (r: Option<Oid>)
    ensures
        r == *o,
{
    match o {
        Some(id) => Some(id.clone()),
        None => None,
    }
}

/// Whether a capture is one of the facet `name`.
pub open spec fn is_own(name: Seq<char>, c: CaptureModel) -> bool {
    c.facet == name && c.schema_version == FACET_SCHEMA_VERSION
}

/// The object that a capture refers to, as a list.
pub open spec fn payload_roots(c: CaptureModel) -> Seq<Seq<char>> {
    match c.payload_oid {
        Some(id) => seq![id],
        None => Seq::empty(),
    }
}

pub open spec fn mismatch(name: Seq<char>) -> FacetErrorModel {
    FacetErrorModel::InvalidCapture(name, "facet identity mismatch"@)
}

impl FileStateFacet {
    pub fn new(
        name: &str,
        content: Result<Vec<u8>, String>,
        meta: String,
        policy: RestorePolicy,
    ) -> (r: Self)
        ensures
            r.name@ == name@,
            r.content == content,
            r.meta == meta,
            r.policy == policy,
    {
        FileStateFacet { name: name.to_owned(), content, meta, policy }
    }

    /// The capture of the file: a blob of its content, named by `id` of it. A
    /// file that could not be read has none.
    pub fn capture_named(&self, id: Oid) -> (r: Result<FacetCapture, FacetError>)
        ensures
            (match r {
                Ok(c) => self.content is Ok && c@ == (CaptureModel {
                    facet: self.name@,
                    schema_version: FACET_SCHEMA_VERSION,
                    payload_oid: Some(id@),
                    meta: self.meta@,
                }),
                Err(e) => self.content matches Err(m) && e@ == FacetErrorModel::Operation(
                    self.name@,
                    m@,
                ),
            }),
    {
        match &self.content {
            Ok(_) => Ok(
                FacetCapture {
                    facet: self.name.clone(),
                    schema_version: FACET_SCHEMA_VERSION,
                    payload_oid: Some(id),
                    meta: self.meta.clone(),
                },
            ),
            Err(m) => Err(FacetError::Operation(self.name.clone(), m.clone())),
        }
    }

    /// Whether `r` is a capture of the file by some hash, or says why there is
    /// none.
    pub open spec fn is_capture(self, r: Result<FacetCapture, FacetError>) -> bool {
        match r {
            Ok(c) => self.content is Ok && exists|kind: HashKind|
                c@ == (CaptureModel {
                    facet: self.name@,
                    schema_version: FACET_SCHEMA_VERSION,
                    payload_oid: Some(#[trigger] oid::blob_hash(kind, self.content->Ok_0@)),
                    meta: self.meta@,
                }),
            Err(e) => self.content matches Err(m) && e@ == FacetErrorModel::Operation(
                self.name@,
                m@,
            ),
        }
    }

    /// Whether `r` is the answer to a restore that took the context from
    /// `before` to `after`: one more write is asked for, or the capture has no
    /// object to write.
    pub open spec fn is_restore(
        self,
        capture: CaptureModel,
        before: FacetRestoreCtx,
        after: FacetRestoreCtx,
        r: Result<(), FacetError>,
    ) -> bool {
        &&& after.workspace_id == before.workspace_id
        &&& match r {
            Ok(_) => {
                &&& after.writes@.len() == before.writes@.len() + 1
                &&& after.writes@.drop_last() == before.writes@
                &&& after.writes@.last().facet@ == self.name@
                &&& capture.payload_oid == Some(after.writes@.last().object@)
            },
            Err(e) => {
                &&& after.writes@ == before.writes@
                &&& capture.payload_oid is None
                &&& e@ == FacetErrorModel::InvalidCapture(self.name@, "missing payload object"@)
            },
        }
    }

    /// Whether `r` compares two captures, or refuses one that is not the
    /// facet's own.
    pub open spec fn is_diff(
        self,
        from: FacetCapture,
        to: FacetCapture,
        r: Result<FacetDiff, FacetError>,
    ) -> bool {
        match r {
            Ok(d) => {
                &&& is_own(self.name@, from@)
                &&& is_own(self.name@, to@)
                &&& d.facet@ == self.name@
                &&& d.from == from.payload_oid
                &&& d.to == to.payload_oid
            },
            Err(e) => !(is_own(self.name@, from@) && is_own(self.name@, to@)) && e@ == mismatch(
                self.name@,
            ),
        }
    }

    /// The capture of the file: a blob of its content, named by the hash that
    /// the thread is set to.
    pub fn capture_file(&self) -> (r: Result<FacetCapture, FacetError>)
        ensures
            self.is_capture(r),
    {
        match &self.content {
            Ok(data) => self.capture_named(Oid::of_blob(data.as_slice())),
            Err(m) => Err(FacetError::Operation(self.name.clone(), m.clone())),
        }
    }

    /// The object whose content restores the file.
    pub fn payload(&self, capture: &FacetCapture) -> (r: Result<Oid, FacetError>)
        ensures
            (match r {
                Ok(id) => capture@.payload_oid == Some(id@),
                Err(e) => capture@.payload_oid is None && e@ == FacetErrorModel::InvalidCapture(
                    self.name@,
                    "missing payload object"@,
                ),
            }),
    {
        match &capture.payload_oid {
            Some(id) => Ok(id.clone()),
            None => Err(
                FacetError::InvalidCapture(self.name.clone(), "missing payload object".to_owned()),
            ),
        }
    }

    fn check(&self, capture: &FacetCapture) -> (r: Result<(), FacetError>)
        ensures
            (match r {
                Ok(_) => is_own(self.name@, capture@),
                Err(e) => !is_own(self.name@, capture@) && e@ == mismatch(self.name@),
            }),
    {
        if !same(capture.facet.as_str(), self.name.as_str()) || capture.schema_version
            != FACET_SCHEMA_VERSION {
            return Err(
                FacetError::InvalidCapture(
                    self.name.clone(),
                    "facet identity mismatch".to_owned(),
                ),
            );
        }
        Ok(())
    }

    fn compare(&self, from: &FacetCapture, to: &FacetCapture) -> (r: Result<FacetDiff, FacetError>)
        ensures
            self.is_diff(*from, *to, r),
    {
        match self.check(from) {
            Ok(_) => {},
            Err(e) => {
                return Err(e);
            },
        }
        match self.check(to) {
            Ok(_) => {},
            Err(e) => {
                return Err(e);
            },
        }
        Ok(
            FacetDiff {
                facet: self.name.clone(),
                from: copy_oid(&from.payload_oid),
                to: copy_oid(&to.payload_oid),
            },
        )
    }

    fn refers_to(&self, capture: &FacetCapture) -> (r: Vec<Oid>)
        ensures
            facet::oid_texts(r@) == payload_roots(capture@),
    {
        let mut out: Vec<Oid> = Vec::new();
        if let Some(id) = &capture.payload_oid {
            out.push(id.clone());
        }
        assert(facet::oid_texts(out@) =~= payload_roots(capture@));
        out
    }
}

impl StateFacet for FileStateFacet {
    open spec fn name_model(&self) -> Seq<char> {
        self.name@
    }

    open spec fn version_model(&self) -> u32 {
        FACET_SCHEMA_VERSION
    }

    open spec fn policy_model(&self) -> RestorePolicy {
        self.policy
    }

    open spec fn accepts(&self, capture: CaptureModel) -> bool {
        is_own(self.name@, capture)
    }

    open spec fn roots_model(&self, capture: CaptureModel) -> Seq<Seq<char>> {
        payload_roots(capture)
    }

    fn name(&self) -> (r: FacetName) {
        self.name.clone()
    }

    fn schema_version(&self) -> (r: u32) {
        FACET_SCHEMA_VERSION
    }

    fn restore_policy(&self) -> (r: RestorePolicy) {
        self.policy
    }

    fn capture(&self, _ctx: &FacetCaptureCtx) -> (r: Result<FacetCapture, FacetError>)
        ensures
            self.is_capture(r),
    {
        self.capture_file()
    }

    fn validate(&self, capture: &FacetCapture) -> (r: Result<(), FacetError>)
        ensures
            r matches Err(e) ==> e@ == mismatch(self.name@),
    {
        self.check(capture)
    }

    /// Asks for the file to be written from the object of the capture.
    fn restore(&self, capture: &FacetCapture, ctx: &mut FacetRestoreCtx) -> (r: Result<
        (),
        FacetError,
    >)
        ensures
            self.is_restore(capture@, *old(ctx), *final(ctx), r),
    {
        match self.payload(capture) {
            Ok(object) => {
                ctx.writes.push(FacetWrite { facet: self.name.clone(), object });
                assert(ctx.writes@.drop_last() =~= old(ctx).writes@);
                Ok(())
            },
            Err(e) => Err(e),
        }
    }

    fn diff(&self, from: &FacetCapture, to: &FacetCapture) -> (r: Result<FacetDiff, FacetError>)
        ensures
            self.is_diff(*from, *to, r),
    {
        self.compare(from, to)
    }

    fn roots(&self, capture: &FacetCapture) -> (r: Vec<Oid>) {
        self.refers_to(capture)
    }
}

/// The facet of the index file.
pub struct IndexFacet(pub FileStateFacet);

impl IndexFacet {
    pub fn index(content: Result<Vec<u8>, String>, meta: String) -> (r: Self)
        ensures
            r.0.name@ == "index"@,
            r.0.content == content,
            r.0.meta == meta,
            r.0.policy == RestorePolicy::AutoRestore,
    {
        IndexFacet(FileStateFacet::new("index", content, meta, RestorePolicy::AutoRestore))
    }

    /// The facet as the registry takes it.
    pub fn into_facet(self) -> (r: FileStateFacet)
        ensures
            r == self.0,
    {
        self.0
    }
}

impl StateFacet for IndexFacet {
    open spec fn name_model(&self) -> Seq<char> {
        self.0.name_model()
    }

    open spec fn version_model(&self) -> u32 {
        self.0.version_model()
    }

    open spec fn policy_model(&self) -> RestorePolicy {
        self.0.policy_model()
    }

    open spec fn accepts(&self, capture: CaptureModel) -> bool {
        self.0.accepts(capture)
    }

    open spec fn roots_model(&self, capture: CaptureModel) -> Seq<Seq<char>> {
        self.0.roots_model(capture)
    }

    fn name(&self) -> (r: FacetName) {
        self.0.name()
    }

    fn schema_version(&self) -> (r: u32) {
        self.0.schema_version()
    }

    fn restore_policy(&self) -> (r: RestorePolicy) {
        self.0.restore_policy()
    }

    fn capture(&self, ctx: &FacetCaptureCtx) -> (r: Result<FacetCapture, FacetError>)
        ensures
            self.0.is_capture(r),
    {
        self.0.capture(ctx)
    }

    fn validate(&self, capture: &FacetCapture) -> (r: Result<(), FacetError>)
        ensures
            r matches Err(e) ==> e@ == mismatch(self.0.name@),
    {
        self.0.validate(capture)
    }

    fn restore(&self, capture: &FacetCapture, ctx: &mut FacetRestoreCtx) -> (r: Result<
        (),
        FacetError,
    >)
        ensures
            self.0.is_restore(capture@, *old(ctx), *final(ctx), r),
    {
        self.0.restore(capture, ctx)
    }

    fn diff(&self, from: &FacetCapture, to: &FacetCapture) -> (r: Result<FacetDiff, FacetError>)
        ensures
            self.0.is_diff(*from, *to, r),
    {
        self.0.diff(from, to)
    }

    fn roots(&self, capture: &FacetCapture) -> (r: Vec<Oid>) {
        self.0.roots(capture)
    }
}

/// The facet of the sequencer file.
pub struct SequencerFacet(pub FileStateFacet);

impl SequencerFacet {
    pub fn sequencer(content: Result<Vec<u8>, String>, meta: String) -> (r: Self)
        ensures
            r.0.name@ == "sequencer"@,
            r.0.content == content,
            r.0.meta == meta,
            r.0.policy == RestorePolicy::AutoRestore,
    {
        SequencerFacet(FileStateFacet::new("sequencer", content, meta, RestorePolicy::AutoRestore))
    }

    /// The facet as the registry takes it.
    pub fn into_facet(self) -> (r: FileStateFacet)
        ensures
            r == self.0,
    {
        self.0
    }
}

impl StateFacet for SequencerFacet {
    open spec fn name_model(&self) -> Seq<char> {
        self.0.name_model()
    }

    open spec fn version_model(&self) -> u32 {
        self.0.version_model()
    }

    open spec fn policy_model(&self) -> RestorePolicy {
        self.0.policy_model()
    }

    open spec fn accepts(&self, capture: CaptureModel) -> bool {
        self.0.accepts(capture)
    }

    open spec fn roots_model(&self, capture: CaptureModel) -> Seq<Seq<char>> {
        self.0.roots_model(capture)
    }

    fn name(&self) -> (r: FacetName) {
        self.0.name()
    }

    fn schema_version(&self) -> (r: u32) {
        self.0.schema_version()
    }

    fn restore_policy(&self) -> (r: RestorePolicy) {
        self.0.restore_policy()
    }

    fn capture(&self, ctx: &FacetCaptureCtx) -> (r: Result<FacetCapture, FacetError>)
        ensures
            self.0.is_capture(r),
    {
        self.0.capture(ctx)
    }

    fn validate(&self, capture: &FacetCapture) -> (r: Result<(), FacetError>)
        ensures
            r matches Err(e) ==> e@ == mismatch(self.0.name@),
    {
        self.0.validate(capture)
    }

    fn restore(&self, capture: &FacetCapture, ctx: &mut FacetRestoreCtx) -> (r: Result<
        (),
        FacetError,
    >)
        ensures
            self.0.is_restore(capture@, *old(ctx), *final(ctx), r),
    {
        self.0.restore(capture, ctx)
    }

    fn diff(&self, from: &FacetCapture, to: &FacetCapture) -> (r: Result<FacetDiff, FacetError>)
        ensures
            self.0.is_diff(*from, *to, r),
    {
        self.0.diff(from, to)
    }

    fn roots(&self, capture: &FacetCapture) -> (r: Vec<Oid>) {
        self.0.roots(capture)
    }
}

/// The facet of the sparse-checkout file.
pub struct SparseFacet(pub FileStateFacet);

impl SparseFacet {
    pub fn sparse(content: Result<Vec<u8>, String>, meta: String) -> (r: Self)
        ensures
            r.0.name@ == "sparse"@,
            r.0.content == content,
            r.0.meta == meta,
            r.0.policy == RestorePolicy::Rebuild,
    {
        SparseFacet(FileStateFacet::new("sparse", content, meta, RestorePolicy::Rebuild))
    }

    /// The facet as the registry takes it.
    pub fn into_facet(self) -> (r: FileStateFacet)
        ensures
            r == self.0,
    {
        self.0
    }
}

impl StateFacet for SparseFacet {
    open spec fn name_model(&self) -> Seq<char> {
        self.0.name_model()
    }

    open spec fn version_model(&self) -> u32 {
        self.0.version_model()
    }

    open spec fn policy_model(&self) -> RestorePolicy {
        self.0.policy_model()
    }

    open spec fn accepts(&self, capture: CaptureModel) -> bool {
        self.0.accepts(capture)
    }

    open spec fn roots_model(&self, capture: CaptureModel) -> Seq<Seq<char>> {
        self.0.roots_model(capture)
    }

    fn name(&self) -> (r: FacetName) {
        self.0.name()
    }

    fn schema_version(&self) -> (r: u32) {
        self.0.schema_version()
    }

    fn restore_policy(&self) -> (r: RestorePolicy) {
        self.0.restore_policy()
    }

    fn capture(&self, ctx: &FacetCaptureCtx) -> (r: Result<FacetCapture, FacetError>)
        ensures
            self.0.is_capture(r),
    {
        self.0.capture(ctx)
    }

    fn validate(&self, capture: &FacetCapture) -> (r: Result<(), FacetError>)
        ensures
            r matches Err(e) ==> e@ == mismatch(self.0.name@),
    {
        self.0.validate(capture)
    }

    fn restore(&self, capture: &FacetCapture, ctx: &mut FacetRestoreCtx) -> (r: Result<
        (),
        FacetError,
    >)
        ensures
            self.0.is_restore(capture@, *old(ctx), *final(ctx), r),
    {
        self.0.restore(capture, ctx)
    }

    fn diff(&self, from: &FacetCapture, to: &FacetCapture) -> (r: Result<FacetDiff, FacetError>)
        ensures
            self.0.is_diff(*from, *to, r),
    {
        self.0.diff(from, to)
    }

    fn roots(&self, capture: &FacetCapture) -> (r: Vec<Oid>) {
        self.0.roots(capture)
    }
}

} // verus!
