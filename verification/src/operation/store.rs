//! Operation Log v2 rows, journal phases, and op-head compare-and-swap.

use vstd::prelude::*;
use vstd::string::*;

use crate::oid;
use crate::oid::Oid;
use crate::order;
use crate::order::Ranked;
use crate::patch_mode::apply::debug_text;
use crate::text;
use crate::text::{blank, same, signed_decimal_text};

verus! {

#[derive(Debug, Clone, Copy, PartialEq, Eq, Structural)]
pub enum OperationKind {
    Command,
    ExternalSnapshot,
    Undo,
    Redo,
    Restore,
    Revert,
    Reconcile,
}

impl OperationKind {
    /// The name under which the kind is stored.
    pub open spec fn name(self) -> Seq<char> {
        match self {
            OperationKind::Command => "command"@,
            OperationKind::ExternalSnapshot => "external_snapshot"@,
            OperationKind::Undo => "undo"@,
            OperationKind::Redo => "redo"@,
            OperationKind::Restore => "restore"@,
            OperationKind::Revert => "revert"@,
            OperationKind::Reconcile => "reconcile"@,
        }
    }

    /// The kind that a stored name stands for.
    pub open spec fn named(s: Seq<char>) -> Option<OperationKind> {
        if s == "command"@ {
            Some(OperationKind::Command)
        } else if s == "external_snapshot"@ {
            Some(OperationKind::ExternalSnapshot)
        } else if s == "undo"@ {
            Some(OperationKind::Undo)
        } else if s == "redo"@ {
            Some(OperationKind::Redo)
        } else if s == "restore"@ {
            Some(OperationKind::Restore)
        } else if s == "revert"@ {
            Some(OperationKind::Revert)
        } else if s == "reconcile"@ {
            Some(OperationKind::Reconcile)
        } else {
            None
        }
    }

    pub fn as_str(self) -> (r: &'static str)
        ensures
            r@ == self.name(),
    {
        match self {
            OperationKind::Command => "command",
            OperationKind::ExternalSnapshot => "external_snapshot",
            OperationKind::Undo => "undo",
            OperationKind::Redo => "redo",
            OperationKind::Restore => "restore",
            OperationKind::Revert => "revert",
            OperationKind::Reconcile => "reconcile",
        }
    }

    /// The kind that a stored name stands for.
    pub fn from_name(value: &str) -> (r: Option<Self>)
        ensures
            r == OperationKind::named(value@),
    {
        if same(value, "command") {
            Some(OperationKind::Command)
        } else if same(value, "external_snapshot") {
            Some(OperationKind::ExternalSnapshot)
        } else if same(value, "undo") {
            Some(OperationKind::Undo)
        } else if same(value, "redo") {
            Some(OperationKind::Redo)
        } else if same(value, "restore") {
            Some(OperationKind::Restore)
        } else if same(value, "revert") {
            Some(OperationKind::Revert)
        } else if same(value, "reconcile") {
            Some(OperationKind::Reconcile)
        } else {
            None
        }
    }

    pub fn parse(value: &str) -> (r: Result<Self, StoreError>)
        ensures
            (match r {
                Ok(k) => OperationKind::named(value@) == Some(k),
                Err(e) => OperationKind::named(value@) is None && e@
                    == StoreErrorModel::Corrupt("unknown operation kind '"@ + value@ + "'"@),
            }),
    {
        match OperationKind::from_name(value) {
            Some(k) => Ok(k),
            None => Err(StoreError::Corrupt(quoted("unknown operation kind '", value))),
        }
    }
}

/// `lead`, then `value`, then a closing quote.
pub fn quoted(lead: &str, value: &str) -> (r: String)
    ensures
        r@ == lead@ + value@ + "'"@,
{
    let mut out = lead.to_owned();
    out.append(value);
    out.append("'");
    out
}

#[derive(Debug, Clone, Copy, PartialEq, Eq, Structural)]
pub enum OperationStatusV2 {
    Running,
    Success,
    Failed,
    Partial,
    Aborted,
}

impl OperationStatusV2 {
    /// The name under which the status is stored.
    pub open spec fn name(self) -> Seq<char> {
        match self {
            OperationStatusV2::Running => "running"@,
            OperationStatusV2::Success => "success"@,
            OperationStatusV2::Failed => "failed"@,
            OperationStatusV2::Partial => "partial"@,
            OperationStatusV2::Aborted => "aborted"@,
        }
    }

    /// The status that a stored name stands for.
    pub open spec fn named(s: Seq<char>) -> Option<OperationStatusV2> {
        if s == "running"@ {
            Some(OperationStatusV2::Running)
        } else if s == "success"@ {
            Some(OperationStatusV2::Success)
        } else if s == "failed"@ {
            Some(OperationStatusV2::Failed)
        } else if s == "partial"@ {
            Some(OperationStatusV2::Partial)
        } else if s == "aborted"@ {
            Some(OperationStatusV2::Aborted)
        } else {
            None
        }
    }

    pub fn as_str(self) -> (r: &'static str)
        ensures
            r@ == self.name(),
    {
        match self {
            OperationStatusV2::Running => "running",
            OperationStatusV2::Success => "success",
            OperationStatusV2::Failed => "failed",
            OperationStatusV2::Partial => "partial",
            OperationStatusV2::Aborted => "aborted",
        }
    }

    /// The status that a stored name stands for.
    pub fn from_name(value: &str) -> (r: Option<Self>)
        ensures
            r == OperationStatusV2::named(value@),
    {
        if same(value, "running") {
            Some(OperationStatusV2::Running)
        } else if same(value, "success") {
            Some(OperationStatusV2::Success)
        } else if same(value, "failed") {
            Some(OperationStatusV2::Failed)
        } else if same(value, "partial") {
            Some(OperationStatusV2::Partial)
        } else if same(value, "aborted") {
            Some(OperationStatusV2::Aborted)
        } else {
            None
        }
    }

    pub fn parse(value: &str) -> (r: Result<Self, StoreError>)
        ensures
            (match r {
                Ok(k) => OperationStatusV2::named(value@) == Some(k),
                Err(e) => OperationStatusV2::named(value@) is None && e@
                    == StoreErrorModel::Corrupt("unknown operation status '"@ + value@ + "'"@),
            }),
    {
        match OperationStatusV2::from_name(value) {
            Some(k) => Ok(k),
            None => Err(StoreError::Corrupt(quoted("unknown operation status '", value))),
        }
    }
}

#[derive(Debug, Clone, Copy, PartialEq, Eq, Structural)]
pub enum JournalPhase {
    Reserved,
    PreView,
    Mutation,
    PostView,
    Publish,
}

impl JournalPhase {
    /// The name under which the phase is stored.
    pub open spec fn name(self) -> Seq<char> {
        match self {
            JournalPhase::Reserved => "reserved"@,
            JournalPhase::PreView => "pre_view"@,
            JournalPhase::Mutation => "mutation"@,
            JournalPhase::PostView => "post_view"@,
            JournalPhase::Publish => "publish"@,
        }
    }

    /// The phase that a stored name stands for.
    pub open spec fn named(s: Seq<char>) -> Option<JournalPhase> {
        if s == "reserved"@ {
            Some(JournalPhase::Reserved)
        } else if s == "pre_view"@ {
            Some(JournalPhase::PreView)
        } else if s == "mutation"@ {
            Some(JournalPhase::Mutation)
        } else if s == "post_view"@ {
            Some(JournalPhase::PostView)
        } else if s == "publish"@ {
            Some(JournalPhase::Publish)
        } else {
            None
        }
    }

    pub fn as_str(self) -> (r: &'static str)
        ensures
            r@ == self.name(),
    {
        match self {
            JournalPhase::Reserved => "reserved",
            JournalPhase::PreView => "pre_view",
            JournalPhase::Mutation => "mutation",
            JournalPhase::PostView => "post_view",
            JournalPhase::Publish => "publish",
        }
    }

    pub fn parse(value: &str) -> (r: Result<Self, StoreError>)
        ensures
            (match r {
                Ok(k) => JournalPhase::named(value@) == Some(k),
                Err(e) => JournalPhase::named(value@) is None && e@ == StoreErrorModel::Corrupt(
                    "unknown journal phase '"@ + value@ + "'"@,
                ),
            }),
    {
        if same(value, "reserved") {
            Ok(JournalPhase::Reserved)
        } else if same(value, "pre_view") {
            Ok(JournalPhase::PreView)
        } else if same(value, "mutation") {
            Ok(JournalPhase::Mutation)
        } else if same(value, "post_view") {
            Ok(JournalPhase::PostView)
        } else if same(value, "publish") {
            Ok(JournalPhase::Publish)
        } else {
            Err(StoreError::Corrupt(quoted("unknown journal phase '", value)))
        }
    }
}

/// Every kind, status and phase is read back from the name it is stored under.
pub proof fn law_names_round_trip(k: OperationKind, s: OperationStatusV2, p: JournalPhase)
    ensures
        OperationKind::named(k.name()) == Some(k),
        OperationStatusV2::named(s.name()) == Some(s),
        JournalPhase::named(p.name()) == Some(p),
{
    lemma_kind_round_trip(k);
    lemma_status_round_trip(s);
    lemma_phase_round_trip(p);
}

proof fn lemma_kind_round_trip(k: OperationKind)
    ensures
        OperationKind::named(k.name()) == Some(k),
{
    reveal_strlit("command");
    reveal_strlit("external_snapshot");
    reveal_strlit("undo");
    reveal_strlit("redo");
    reveal_strlit("restore");
    reveal_strlit("revert");
    reveal_strlit("reconcile");
    assert("command"@.len() == 7 && "command"@[0] == 'c');
    assert("external_snapshot"@.len() == 17);
    assert("undo"@.len() == 4 && "undo"@[0] == 'u');
    assert("redo"@.len() == 4 && "redo"@[0] == 'r');
    assert("restore"@.len() == 7 && "restore"@[0] == 'r');
    assert("revert"@.len() == 6);
    assert("reconcile"@.len() == 9);
}

proof fn lemma_status_round_trip(s: OperationStatusV2)
    ensures
        OperationStatusV2::named(s.name()) == Some(s),
{
    reveal_strlit("running");
    reveal_strlit("success");
    reveal_strlit("failed");
    reveal_strlit("partial");
    reveal_strlit("aborted");
    assert("running"@[0] == 'r');
    assert("success"@[0] == 's');
    assert("partial"@[0] == 'p');
    assert("aborted"@[0] == 'a');
}

proof fn lemma_phase_round_trip(p: JournalPhase)
    ensures
        JournalPhase::named(p.name()) == Some(p),
{
    reveal_strlit("reserved");
    reveal_strlit("pre_view");
    reveal_strlit("mutation");
    reveal_strlit("post_view");
    reveal_strlit("publish");
    assert("reserved"@.len() == 8 && "reserved"@[0] == 'r');
    assert("pre_view"@.len() == 8 && "pre_view"@[0] == 'p');
    assert("mutation"@.len() == 8 && "mutation"@[0] == 'm');
    assert("post_view"@.len() == 9);
    assert("publish"@.len() == 7);
}

#[derive(Debug, PartialEq, Eq)]
pub struct OpHead {
    pub op_id: String,
    pub generation: i64,
}

/// What an [`OpHead`] says.
#[verifier::ext_equal]
pub struct HeadModel {
    pub op_id: Seq<char>,
    pub generation: int,
}

impl View for OpHead {
    type V = HeadModel;

    open spec fn view(&self) -> HeadModel {
        HeadModel { op_id: self.op_id@, generation: self.generation as int }
    }
}

impl Clone for OpHead {
    fn clone(&self) -> (r: Self)
        ensures
            r == *self,
    {
        OpHead { op_id: self.op_id.clone(), generation: self.generation }
    }
}

/// The order of heads: by generation, then by operation id.
pub open spec fn head_le(a: HeadModel, b: HeadModel) -> bool {
    a.generation < b.generation || (a.generation == b.generation && order::text_le(a.op_id, b.op_id))
}

impl Ranked for OpHead {
    open spec fn rank_le(self, other: Self) -> bool {
        head_le(self@, other@)
    }

    proof fn rank_total(a: Self, b: Self) {
        order::lemma_text_le_total(a.op_id@, b.op_id@);
    }

    proof fn rank_trans(a: Self, b: Self, c: Self) {
        if a.generation == b.generation && b.generation == c.generation {
            order::lemma_text_le_trans(a.op_id@, b.op_id@, c.op_id@);
        }
    }

    fn not_after(&self, other: &Self) -> (r: bool) {
        self.generation < other.generation || (self.generation == other.generation
            && order::text_not_after(self.op_id.as_str(), other.op_id.as_str()))
    }
}

pub fn copy_heads(v: &[OpHead]) -> (r: Vec<OpHead>)
    ensures
        r@ == v@,
{
    let mut out: Vec<OpHead> = Vec::new();
    let mut i: usize = 0;
    while i < v.len()
        invariant
            i <= v.len(),
            out@ == v@.take(i as int),
        decreases v.len() - i,
    {
        out.push(v[i].clone());
        i += 1;
    }
    assert(v@.take(i as int) =~= v@);
    out
}

#[derive(Debug, PartialEq, Eq)]
pub enum StoreError {
    InvalidArgument(String),
    Database(String),
    Storage(String),
    Corrupt(String),
    CasConflict { current: Vec<OpHead> },
    InvalidObjectHash(String),
}

/// What a [`StoreError`] says.
pub enum StoreErrorModel {
    InvalidArgument(Seq<char>),
    Database(Seq<char>),
    Storage(Seq<char>),
    Corrupt(Seq<char>),
    CasConflict { current: Seq<HeadModel> },
    InvalidObjectHash(Seq<char>),
}

impl View for StoreError {
    type V = StoreErrorModel;

    open spec fn view(&self) -> StoreErrorModel {
        match self {
            StoreError::InvalidArgument(m) => StoreErrorModel::InvalidArgument(m@),
            StoreError::Database(m) => StoreErrorModel::Database(m@),
            StoreError::Storage(m) => StoreErrorModel::Storage(m@),
            StoreError::Corrupt(m) => StoreErrorModel::Corrupt(m@),
            StoreError::CasConflict { current } => {
                StoreErrorModel::CasConflict { current: order::views(current@) }
            },
            StoreError::InvalidObjectHash(m) => StoreErrorModel::InvalidObjectHash(m@),
        }
    }
}

/// A head in debugging form.
pub open spec fn head_debug(h: HeadModel) -> Seq<char> {
    "OpHead { op_id: "@ + crate::patch_mode::apply::debug_of(h.op_id) + ", generation: "@
        + text::signed_decimal(h.generation) + " }"@
}

/// Heads in debugging form, with commas between.
pub open spec fn heads_debug(v: Seq<HeadModel>) -> Seq<char>
    decreases v.len(),
{
    if v.len() == 0 {
        Seq::empty()
    } else if v.len() == 1 {
        head_debug(v[0])
    } else {
        heads_debug(v.drop_last()) + ", "@ + head_debug(v.last())
    }
}

impl StoreErrorModel {
    /// The sentence that reports the error.
    pub open spec fn message(self) -> Seq<char> {
        match self {
            StoreErrorModel::InvalidArgument(m) => "operation argument is invalid: "@ + m,
            StoreErrorModel::Database(m) => "operation database error: "@ + m,
            StoreErrorModel::Storage(m) => "operation storage error: "@ + m,
            StoreErrorModel::Corrupt(m) => "operation data is corrupt: "@ + m,
            StoreErrorModel::CasConflict { current } => {
                "operation head CAS conflict; current heads: ["@ + heads_debug(current) + "]"@
            },
            StoreErrorModel::InvalidObjectHash(m) => {
                "operation object "@ + m + " has an invalid hash"@
            },
        }
    }
}

pub fn joined(a: &str, b: &str) -> (r: String)
    ensures
        r@ == a@ + b@,
{
    let mut out = a.to_owned();
    out.append(b);
    out
}

impl StoreError {
    /// The sentence that reports the error.
    pub fn message(&self) -> (r: String)
        ensures
            r@ == self@.message(),
    {
        match self {
            StoreError::InvalidArgument(m) => joined("operation argument is invalid: ", m.as_str()),
            StoreError::Database(m) => joined("operation database error: ", m.as_str()),
            StoreError::Storage(m) => joined("operation storage error: ", m.as_str()),
            StoreError::Corrupt(m) => joined("operation data is corrupt: ", m.as_str()),
            StoreError::CasConflict { current } => {
                let t = heads_text(current.as_slice());
                let mut out = joined("operation head CAS conflict; current heads: [", t.as_str());
                out.append("]");
                out
            },
            StoreError::InvalidObjectHash(m) => {
                let mut out = joined("operation object ", m.as_str());
                out.append(" has an invalid hash");
                out
            },
        }
    }
}

fn head_text(h: &OpHead) -> (r: String)
    ensures
        r@ == head_debug(h@),
{
    let mut out = joined("OpHead { op_id: ", debug_text(h.op_id.as_str()).as_str());
    out.append(", generation: ");
    out.append(signed_decimal_text(h.generation).as_str());
    out.append(" }");
    out
}

fn heads_text(v: &[OpHead]) -> (r: String)
    ensures
        r@ == heads_debug(order::views(v@)),
{
    let ghost m = order::views(v@);
    let mut out = String::new();
    let mut i: usize = 0;
    assert(out@ =~= heads_debug(m.take(0)));
    while i < v.len()
        invariant
            i <= v.len(),
            m == order::views(v@),
            out@ == heads_debug(m.take(i as int)),
        decreases v.len() - i,
    {
        assert(m.take(i + 1).drop_last() =~= m.take(i as int));
        if i > 0 {
            out.append(", ");
        }
        out.append(head_text(&v[i]).as_str());
        assert(out@ =~= heads_debug(m.take(i + 1)));
        i += 1;
    }
    assert(m.take(i as int) =~= m);
    out
}

//// Head compare-and-swap

/// `current` and what of `proposed` it does not hold yet.
pub open spec fn with_missing(current: Seq<HeadModel>, proposed: Seq<HeadModel>) -> Seq<HeadModel>
    decreases proposed.len(),
{
    if proposed.len() == 0 {
        current
    } else if current.contains(proposed[0]) {
        with_missing(current, proposed.drop_first())
    } else {
        with_missing(current.push(proposed[0]), proposed.drop_first())
    }
}

/// The heads that are stored after an update: the proposed ones where the
/// expected ones were still there, else the current and the proposed ones.
pub open spec fn heads_after(
    current: Seq<HeadModel>,
    expected: Seq<HeadModel>,
    proposed: Seq<HeadModel>,
) -> Seq<HeadModel> {
    if current == expected {
        proposed
    } else {
        current + proposed
    }
}

/// How to update the stored heads.
#[derive(Debug, PartialEq, Eq)]
pub struct HeadUpdate {
    /// Whether the stored heads are deleted first.
    pub replace: bool,
    /// The heads to insert.
    pub insert: Vec<OpHead>,
    /// What the update returns once that is done.
    pub outcome: Result<Vec<OpHead>, StoreError>,
}

/// Whether `u` is the update of `current`, which `expected` should be, to
/// `proposed`. A conflict reports all heads in order.
pub open spec fn is_head_update(
    u: HeadUpdate,
    current: Seq<HeadModel>,
    expected: Seq<HeadModel>,
    proposed: Seq<HeadModel>,
) -> bool {
    &&& u.replace == (current == expected)
    &&& order::views(u.insert@) == proposed
    &&& match u.outcome {
        Ok(v) => current == expected && order::views(v@) == proposed,
        Err(e) => current != expected && (e matches StoreError::CasConflict { current: merged }
            && order::in_order(merged@) && order::views(merged@).to_multiset() == with_missing(
            current,
            proposed,
        ).to_multiset()),
    }
}

fn same_head(a: &OpHead, b: &OpHead) -> (r: bool)
    ensures
        r == (a@ == b@),
{
    a.generation == b.generation && same(a.op_id.as_str(), b.op_id.as_str())
}

fn same_heads(a: &[OpHead], b: &[OpHead]) -> (r: bool)
    ensures
        r == (order::views(a@) == order::views(b@)),
{
    let ghost ma = order::views(a@);
    let ghost mb = order::views(b@);
    assert(ma.len() == a@.len() && mb.len() == b@.len());
    if a.len() != b.len() {
        return false;
    }
    let mut i: usize = 0;
    while i < a.len()
        invariant
            i <= a.len() == b.len(),
            ma == order::views(a@),
            mb == order::views(b@),
            forall|j: int| 0 <= j < i ==> ma[j] == mb[j],
        decreases a.len() - i,
    {
        assert(ma[i as int] == a@[i as int]@);
        assert(mb[i as int] == b@[i as int]@);
        if !same_head(&a[i], &b[i]) {
            return false;
        }
        i += 1;
    }
    assert(ma =~= mb);
    true
}

fn has_head(v: &[OpHead], h: &OpHead) -> (r: bool)
    ensures
        r == order::views(v@).contains(h@),
{
    let ghost m = order::views(v@);
    let mut i: usize = 0;
    while i < v.len()
        invariant
            i <= v.len(),
            m == order::views(v@),
            forall|j: int| 0 <= j < i ==> m[j] != h@,
        decreases v.len() - i,
    {
        assert(m[i as int] == v@[i as int]@);
        if same_head(&v[i], h) {
            return true;
        }
        i += 1;
    }
    false
}

/// Decides how to replace the head set when `expected` still matches. If it
/// does not, the proposed heads are retained as additional heads so a
/// concurrent branch is never silently lost.
pub fn cas_update_op_heads(
    current: &[OpHead],
    expected: &[OpHead],
    proposed: &[OpHead],
) -> (r: HeadUpdate)
    ensures
        is_head_update(
            r,
            order::views(current@),
            order::views(expected@),
            order::views(proposed@),
        ),
{
    if same_heads(current, expected) {
        return HeadUpdate {
            replace: true,
            insert: copy_heads(proposed),
            outcome: Ok(copy_heads(proposed)),
        };
    }
    let mut merged = copy_heads(current);
    let ghost p = order::views(proposed@);
    let mut i: usize = 0;
    assert(p.skip(0) =~= p);
    while i < proposed.len()
        invariant
            i <= proposed.len(),
            p == order::views(proposed@),
            with_missing(order::views(merged@), p.skip(i as int)) == with_missing(
                order::views(current@),
                p,
            ),
        decreases proposed.len() - i,
    {
        assert(p.skip(i as int)[0] == proposed@[i as int]@);
        assert(p.skip(i as int).drop_first() =~= p.skip(i + 1));
        let ghost before = order::views(merged@);
        if !has_head(merged.as_slice(), &proposed[i]) {
            merged.push(proposed[i].clone());
            assert(order::views(merged@) =~= before.push(proposed@[i as int]@));
        }
        i += 1;
    }
    HeadUpdate {
        replace: false,
        insert: copy_heads(proposed),
        outcome: Err(StoreError::CasConflict { current: order::sorted(merged) }),
    }
}

proof fn lemma_with_missing_keeps(
    current: Seq<HeadModel>,
    proposed: Seq<HeadModel>,
    h: HeadModel,
)
    ensures
        with_missing(current, proposed).contains(h) == (current.contains(h) || proposed.contains(h)),
    decreases proposed.len(),
{
    if proposed.len() > 0 {
        let rest = proposed.drop_first();
        assert(proposed.contains(h) == (proposed[0] == h || rest.contains(h))) by {
            if proposed.contains(h) {
                let i = choose|i: int| 0 <= i < proposed.len() && proposed[i] == h;
                if i > 0 {
                    assert(rest[i - 1] == h);
                }
            }
            if rest.contains(h) {
                let i = choose|i: int| 0 <= i < rest.len() && rest[i] == h;
                assert(proposed[i + 1] == h);
            }
            if proposed[0] == h {
                assert(proposed.contains(proposed[0]));
            }
        }
        if current.contains(proposed[0]) {
            lemma_with_missing_keeps(current, rest, h);
        } else {
            let c2 = current.push(proposed[0]);
            lemma_with_missing_keeps(c2, rest, h);
            assert(c2.contains(h) == (current.contains(h) || h == proposed[0])) by {
                assert(c2[current.len() as int] == proposed[0]);
                if current.contains(h) {
                    let i = choose|i: int| 0 <= i < current.len() && current[i] == h;
                    assert(c2[i] == h);
                }
                if c2.contains(h) {
                    let i = choose|i: int| 0 <= i < c2.len() && c2[i] == h;
                    if i < current.len() {
                        assert(current[i] == h);
                    }
                }
            }
        }
    }
}

/// A conflict loses no head: every current and every proposed head is stored
/// afterwards and is among those that the error reports.
pub proof fn law_conflict_keeps_every_head(
    u: HeadUpdate,
    current: Seq<HeadModel>,
    expected: Seq<HeadModel>,
    proposed: Seq<HeadModel>,
    h: HeadModel,
)
    requires
        is_head_update(u, current, expected, proposed),
        current != expected,
        current.contains(h) || proposed.contains(h),
    ensures
        heads_after(current, expected, proposed).contains(h),
        u.outcome matches Err(StoreError::CasConflict { current: merged }) && order::views(
            merged@,
        ).contains(h),
{
    broadcast use vstd::seq_lib::group_to_multiset_ensures;

    lemma_with_missing_keeps(current, proposed, h);
    let all = current + proposed;
    if current.contains(h) {
        let i = choose|i: int| 0 <= i < current.len() && current[i] == h;
        assert(all[i] == h);
    } else {
        let i = choose|i: int| 0 <= i < proposed.len() && proposed[i] == h;
        assert(all[current.len() + i] == h);
    }
    if let Err(StoreError::CasConflict { current: merged }) = u.outcome {
        let m = order::views(merged@);
        assert(with_missing(current, proposed).to_multiset().count(h) > 0);
        assert(m.to_multiset().count(h) > 0);
        assert(m.contains(h));
    }
}

/// The generation behind all of `heads`.
pub open spec fn next_generation(heads: Seq<HeadModel>) -> int {
    highest_generation(heads) + 1
}

/// The highest generation of `heads`, where there are any, else zero.
pub open spec fn highest_generation(heads: Seq<HeadModel>) -> int
    decreases heads.len(),
{
    if heads.len() == 0 {
        0
    } else if heads.len() == 1 {
        heads[0].generation
    } else {
        let h = highest_generation(heads.drop_last());
        if heads.last().generation > h {
            heads.last().generation
        } else {
            h
        }
    }
}

/// The generation behind all of `heads`; `None` where there is no such number
/// left.
pub fn generation_after(heads: &[OpHead]) -> (r: Option<i64>)
    ensures
        (match r {
            Some(g) => g == next_generation(order::views(heads@)),
            None => next_generation(order::views(heads@)) > i64::MAX,
        }),
{
    if heads.len() == 0 {
        return Some(1);
    }
    let ghost m = order::views(heads@);
    let mut top: i64 = heads[0].generation;
    let mut i: usize = 1;
    assert(m.take(1) =~= seq![m[0]]);
    while i < heads.len()
        invariant
            1 <= i <= heads.len(),
            m == order::views(heads@),
            top == highest_generation(m.take(i as int)),
        decreases heads.len() - i,
    {
        assert(m.take(i + 1).drop_last() =~= m.take(i as int));
        if heads[i].generation > top {
            top = heads[i].generation;
        }
        i += 1;
    }
    assert(m.take(i as int) =~= m);
    if top == i64::MAX {
        None
    } else {
        Some(top + 1)
    }
}

/// The next generation is behind every head.
pub proof fn law_next_generation_is_new(heads: Seq<HeadModel>, i: int)
    requires
        0 <= i < heads.len(),
    ensures
        next_generation(heads) > heads[i].generation,
    decreases heads.len(),
{
    if heads.len() > 1 {
        if i < heads.len() - 1 {
            law_next_generation_is_new(heads.drop_last(), i);
        }
    }
}

//// Operations and their rows

#[derive(Debug, PartialEq, Eq)]
pub struct OperationMetaV2 {
    pub command_name: Option<String>,
    pub description: Option<String>,
    pub args_digest: Option<String>,
    pub actor: Option<String>,
    pub worktree_id: Option<String>,
    pub scope_kind: String,
    pub causal_context_id: Option<String>,
}

/// What an [`OperationMetaV2`] says.
#[verifier::ext_equal]
pub struct MetaModel {
    pub command_name: Option<Seq<char>>,
    pub description: Option<Seq<char>>,
    pub args_digest: Option<Seq<char>>,
    pub actor: Option<Seq<char>>,
    pub worktree_id: Option<Seq<char>>,
    pub scope_kind: Seq<char>,
    pub causal_context_id: Option<Seq<char>>,
}

impl View for OperationMetaV2 {
    type V = MetaModel;

    open spec fn view(&self) -> MetaModel {
        MetaModel {
            command_name: text::opt_text(self.command_name),
            description: text::opt_text(self.description),
            args_digest: text::opt_text(self.args_digest),
            actor: text::opt_text(self.actor),
            worktree_id: text::opt_text(self.worktree_id),
            scope_kind: self.scope_kind@,
            causal_context_id: text::opt_text(self.causal_context_id),
        }
    }
}

pub fn copy_text(o: &Option<String>) -> (r: Option<String>)
    ensures
        r == *o,
{
    match o {
        Some(s) => Some(s.clone()),
        None => None,
    }
}

impl Clone for OperationMetaV2 {
    fn clone(&self) -> (r: Self)
        ensures
            r == *self,
    {
        OperationMetaV2 {
            command_name: copy_text(&self.command_name),
            description: copy_text(&self.description),
            args_digest: copy_text(&self.args_digest),
            actor: copy_text(&self.actor),
            worktree_id: copy_text(&self.worktree_id),
            scope_kind: self.scope_kind.clone(),
            causal_context_id: copy_text(&self.causal_context_id),
        }
    }
}

impl Default for OperationMetaV2 {
    fn default() -> (r: Self)
        ensures
            r@ == (MetaModel {
                command_name: None,
                description: None,
                args_digest: None,
                actor: None,
                worktree_id: None,
                scope_kind: Seq::empty(),
                causal_context_id: None,
            }),
    {
        OperationMetaV2 {
            command_name: None,
            description: None,
            args_digest: None,
            actor: None,
            worktree_id: None,
            scope_kind: String::new(),
            causal_context_id: None,
        }
    }
}

#[derive(Debug, PartialEq, Eq)]
pub struct OperationV2 {
    pub op_id: String,
    pub repo_id: String,
    pub parent_op_ids: Vec<String>,
    pub pre_view_oid: Oid,
    pub post_view_oid: Oid,
    pub kind: OperationKind,
    pub status: OperationStatusV2,
    pub metadata: OperationMetaV2,
    pub restores_op_id: Option<String>,
    pub reverts_op_id: Option<String>,
    pub predecessor_map_oid: Option<Oid>,
    pub start_ts: i64,
    pub end_ts: Option<i64>,
}

/// What an [`OperationV2`] says.
#[verifier::ext_equal]
pub struct OperationModel {
    pub op_id: Seq<char>,
    pub repo_id: Seq<char>,
    pub parent_op_ids: Seq<Seq<char>>,
    pub pre_view_oid: Seq<char>,
    pub post_view_oid: Seq<char>,
    pub kind: OperationKind,
    pub status: OperationStatusV2,
    pub metadata: MetaModel,
    pub restores_op_id: Option<Seq<char>>,
    pub reverts_op_id: Option<Seq<char>>,
    pub predecessor_map_oid: Option<Seq<char>>,
    pub start_ts: i64,
    pub end_ts: Option<i64>,
}

pub open spec fn opt_oid(o: Option<Oid>) -> Option<Seq<char>> {
    match o {
        Some(id) => Some(id@),
        None => None,
    }
}

impl View for OperationV2 {
    type V = OperationModel;

    open spec fn view(&self) -> OperationModel {
        OperationModel {
            op_id: self.op_id@,
            repo_id: self.repo_id@,
            parent_op_ids: text::texts(self.parent_op_ids@),
            pre_view_oid: self.pre_view_oid@,
            post_view_oid: self.post_view_oid@,
            kind: self.kind,
            status: self.status,
            metadata: self.metadata@,
            restores_op_id: text::opt_text(self.restores_op_id),
            reverts_op_id: text::opt_text(self.reverts_op_id),
            predecessor_map_oid: opt_oid(self.predecessor_map_oid),
            start_ts: self.start_ts,
            end_ts: self.end_ts,
        }
    }
}

impl Clone for OperationV2 {
    fn clone(&self) -> (r: Self)
        ensures
            r@ == self@,
            self.wf() ==> r.wf(),
    {
        OperationV2 {
            op_id: self.op_id.clone(),
            repo_id: self.repo_id.clone(),
            parent_op_ids: text::copy_strings(self.parent_op_ids.as_slice()),
            pre_view_oid: self.pre_view_oid.clone(),
            post_view_oid: self.post_view_oid.clone(),
            kind: self.kind,
            status: self.status,
            metadata: self.metadata.clone(),
            restores_op_id: copy_text(&self.restores_op_id),
            reverts_op_id: copy_text(&self.reverts_op_id),
            predecessor_map_oid: match &self.predecessor_map_oid {
                Some(id) => Some(id.clone()),
                None => None,
            },
            start_ts: self.start_ts,
            end_ts: self.end_ts,
        }
    }
}

impl OperationV2 {
    /// Whether the ids of an operation are ids.
    pub open spec fn wf(self) -> bool {
        &&& self.pre_view_oid.wf()
        &&& self.post_view_oid.wf()
        &&& self.predecessor_map_oid matches Some(id) ==> id.wf()
    }
}

/// What is wrong with an operation that is to be written.
pub open spec fn operation_fault(op: OperationModel) -> Option<StoreErrorModel> {
    if text::is_blank(op.op_id) || text::is_blank(op.repo_id) {
        Some(StoreErrorModel::InvalidArgument("op_id and repo_id must not be empty"@))
    } else if text::is_blank(op.metadata.scope_kind) {
        Some(StoreErrorModel::InvalidArgument("scope_kind must not be empty"@))
    } else if op.end_ts matches Some(end) && end < op.start_ts {
        Some(StoreErrorModel::InvalidArgument("end_ts must not precede start_ts"@))
    } else {
        None
    }
}

pub fn validate_operation(operation: &OperationV2) -> (r: Result<(), StoreError>)
    ensures
        (match r {
            Ok(_) => operation_fault(operation@) is None,
            Err(e) => operation_fault(operation@) == Some(e@),
        }),
{
    if blank(operation.op_id.as_str()) || blank(operation.repo_id.as_str()) {
        return Err(
            StoreError::InvalidArgument("op_id and repo_id must not be empty".to_owned()),
        );
    }
    if blank(operation.metadata.scope_kind.as_str()) {
        return Err(StoreError::InvalidArgument("scope_kind must not be empty".to_owned()));
    }
    match operation.end_ts {
        Some(end) => {
            if end < operation.start_ts {
                return Err(
                    StoreError::InvalidArgument("end_ts must not precede start_ts".to_owned()),
                );
            }
        },
        None => {},
    }
    Ok(())
}

/// A row of the operation table.
#[derive(Debug, PartialEq, Eq)]
pub struct OperationRow {
    pub op_id: String,
    pub repo_id: String,
    pub format_version: i32,
    pub kind: String,
    pub status: String,
    pub command_name: Option<String>,
    pub description: Option<String>,
    pub args_digest: Option<String>,
    pub actor: Option<String>,
    pub worktree_id: Option<String>,
    pub scope_kind: String,
    pub pre_view_oid: String,
    pub post_view_oid: String,
    pub restores_op_id: Option<String>,
    pub reverts_op_id: Option<String>,
    pub predecessor_map_oid: Option<String>,
    pub causal_context_id: Option<String>,
    pub start_ts: i64,
    pub end_ts: Option<i64>,
}

/// A row of the parent table.
#[derive(Debug, PartialEq, Eq)]
pub struct ParentRow {
    pub op_id: String,
    pub parent_op_id: String,
    pub ordinal: i32,
}

/// Whether `row` stores `op`.
pub open spec fn is_row_of(row: OperationRow, op: OperationModel) -> bool {
    &&& row.op_id@ == op.op_id
    &&& row.repo_id@ == op.repo_id
    &&& row.format_version == 2
    &&& row.kind@ == op.kind.name()
    &&& row.status@ == op.status.name()
    &&& text::opt_text(row.command_name) == op.metadata.command_name
    &&& text::opt_text(row.description) == op.metadata.description
    &&& text::opt_text(row.args_digest) == op.metadata.args_digest
    &&& text::opt_text(row.actor) == op.metadata.actor
    &&& text::opt_text(row.worktree_id) == op.metadata.worktree_id
    &&& row.scope_kind@ == op.metadata.scope_kind
    &&& row.pre_view_oid@ == op.pre_view_oid
    &&& row.post_view_oid@ == op.post_view_oid
    &&& text::opt_text(row.restores_op_id) == op.restores_op_id
    &&& text::opt_text(row.reverts_op_id) == op.reverts_op_id
    &&& text::opt_text(row.predecessor_map_oid) == op.predecessor_map_oid
    &&& text::opt_text(row.causal_context_id) == op.metadata.causal_context_id
    &&& row.start_ts == op.start_ts
    &&& row.end_ts == op.end_ts
}

/// Whether `rows` store the parents of `op`, in their order.
pub open spec fn are_parent_rows(rows: Seq<ParentRow>, op: OperationModel) -> bool {
    &&& rows.len() == op.parent_op_ids.len()
    &&& forall|i: int|
        0 <= i < rows.len() ==> (#[trigger] rows[i]).op_id@ == op.op_id && rows[i].parent_op_id@
            == op.parent_op_ids[i] && rows[i].ordinal == i
}

fn copy_oid_text(o: &Option<Oid>) -> (r: Option<String>)
    ensures
        text::opt_text(r) == opt_oid(*o),
{
    match o {
        Some(id) => Some(id.hex.clone()),
        None => None,
    }
}

/// The rows that write an operation.
pub fn rows_for_operation(operation: &OperationV2) -> (r: Result<
    (OperationRow, Vec<ParentRow>),
    StoreError,
>)
    ensures
        (match r {
            Ok((row, parents)) => operation_fault(operation@) is None && is_row_of(row, operation@)
                && are_parent_rows(parents@, operation@),
            Err(e) => if operation_fault(operation@) is Some {
                operation_fault(operation@) == Some(e@)
            } else {
                operation@.parent_op_ids.len() > i32::MAX + 1 && e@
                    == StoreErrorModel::InvalidArgument("too many operation parents"@)
            },
        }),
{
    match validate_operation(operation) {
        Ok(_) => {},
        Err(e) => {
            return Err(e);
        },
    }
    let mut parents: Vec<ParentRow> = Vec::new();
    let n = operation.parent_op_ids.len();
    let ghost m = operation@.parent_op_ids;
    assert(m.len() == n);
    let mut i: usize = 0;
    while i < n
        invariant
            i <= n == operation.parent_op_ids@.len(),
            i <= i32::MAX + 1,
            m == text::texts(operation.parent_op_ids@),
            operation_fault(operation@) is None,
            m == operation@.parent_op_ids,
            parents@.len() == i,
            forall|j: int|
                0 <= j < i ==> (#[trigger] parents@[j]).op_id@ == operation.op_id@
                    && parents@[j].parent_op_id@ == m[j] && parents@[j].ordinal == j,
        decreases n - i,
    {
        if i > i32::MAX as usize {
            return Err(StoreError::InvalidArgument("too many operation parents".to_owned()));
        }
        parents.push(
            ParentRow {
                op_id: operation.op_id.clone(),
                parent_op_id: operation.parent_op_ids[i].clone(),
                ordinal: i as i32,
            },
        );
        i += 1;
    }
    let meta = &operation.metadata;
    let row = OperationRow {
        op_id: operation.op_id.clone(),
        repo_id: operation.repo_id.clone(),
        format_version: 2,
        kind: operation.kind.as_str().to_owned(),
        status: operation.status.as_str().to_owned(),
        command_name: copy_text(&meta.command_name),
        description: copy_text(&meta.description),
        args_digest: copy_text(&meta.args_digest),
        actor: copy_text(&meta.actor),
        worktree_id: copy_text(&meta.worktree_id),
        scope_kind: meta.scope_kind.clone(),
        pre_view_oid: operation.pre_view_oid.hex.clone(),
        post_view_oid: operation.post_view_oid.hex.clone(),
        restores_op_id: copy_text(&operation.restores_op_id),
        reverts_op_id: copy_text(&operation.reverts_op_id),
        predecessor_map_oid: copy_oid_text(&operation.predecessor_map_oid),
        causal_context_id: copy_text(&meta.causal_context_id),
        start_ts: operation.start_ts,
        end_ts: operation.end_ts,
    };
    Ok((row, parents))
}

pub fn parse_oid(value: &str) -> (r: Result<Oid, StoreError>)
    ensures
        (match r {
            Ok(id) => oid::oid_of(value@) == Some(id@) && id.wf(),
            Err(e) => oid::oid_of(value@) is None && e@ == StoreErrorModel::InvalidObjectHash(
                value@,
            ),
        }),
{
    match Oid::parse(value) {
        Some(id) => Ok(id),
        None => Err(StoreError::InvalidObjectHash(value.to_owned())),
    }
}

pub fn parse_opt_oid(value: &Option<String>) -> (r: Result<Option<Oid>, StoreError>)
    ensures
        (match r {
            Ok(o) => opt_oid_read(text::opt_text(*value)) == Ok::<
                Option<Seq<char>>,
                StoreErrorModel,
            >(opt_oid(o)) && (o matches Some(id) ==> id.wf()),
            Err(e) => opt_oid_read(text::opt_text(*value)) == Err::<
                Option<Seq<char>>,
                StoreErrorModel,
            >(e@),
        }),
{
    match value {
        Some(s) => match parse_oid(s.as_str()) {
            Ok(id) => Ok(Some(id)),
            Err(e) => Err(e),
        },
        None => Ok(None),
    }
}

/// An optional id as it is read.
pub open spec fn opt_oid_read(o: Option<Seq<char>>) -> Result<Option<Seq<char>>, StoreErrorModel> {
    match o {
        None => Ok(None),
        Some(s) => match oid::oid_of(s) {
            Some(id) => Ok(Some(id)),
            None => Err(StoreErrorModel::InvalidObjectHash(s)),
        },
    }
}

/// What is wrong with a row that is read: the format is looked at first, then
/// the ids of the views, the kind, the status and the id of the predecessors.
pub open spec fn row_fault(row: OperationRow) -> Option<StoreErrorModel> {
    if row.format_version != 2 {
        Some(
            StoreErrorModel::Corrupt(
                "unsupported operation format version "@ + text::signed_decimal(
                    row.format_version as int,
                ),
            ),
        )
    } else if oid::oid_of(row.pre_view_oid@) is None {
        Some(StoreErrorModel::InvalidObjectHash(row.pre_view_oid@))
    } else if oid::oid_of(row.post_view_oid@) is None {
        Some(StoreErrorModel::InvalidObjectHash(row.post_view_oid@))
    } else if OperationKind::named(row.kind@) is None {
        Some(StoreErrorModel::Corrupt("unknown operation kind '"@ + row.kind@ + "'"@))
    } else if OperationStatusV2::named(row.status@) is None {
        Some(StoreErrorModel::Corrupt("unknown operation status '"@ + row.status@ + "'"@))
    } else if opt_oid_read(text::opt_text(row.predecessor_map_oid)) is Err {
        Some(StoreErrorModel::InvalidObjectHash(text::opt_text(row.predecessor_map_oid)->0))
    } else {
        None
    }
}

/// The operation that a sound row and a list of parents say.
pub open spec fn row_operation(row: OperationRow, parents: Seq<Seq<char>>) -> OperationModel {
    OperationModel {
        op_id: row.op_id@,
        repo_id: row.repo_id@,
        parent_op_ids: parents,
        pre_view_oid: oid::oid_of(row.pre_view_oid@)->0,
        post_view_oid: oid::oid_of(row.post_view_oid@)->0,
        kind: OperationKind::named(row.kind@)->0,
        status: OperationStatusV2::named(row.status@)->0,
        metadata: MetaModel {
            command_name: text::opt_text(row.command_name),
            description: text::opt_text(row.description),
            args_digest: text::opt_text(row.args_digest),
            actor: text::opt_text(row.actor),
            worktree_id: text::opt_text(row.worktree_id),
            scope_kind: row.scope_kind@,
            causal_context_id: text::opt_text(row.causal_context_id),
        },
        restores_op_id: text::opt_text(row.restores_op_id),
        reverts_op_id: text::opt_text(row.reverts_op_id),
        predecessor_map_oid: opt_oid_read(text::opt_text(row.predecessor_map_oid))->Ok_0,
        start_ts: row.start_ts,
        end_ts: row.end_ts,
    }
}

/// The operation that a row and the ids of its parents say.
pub fn operation_from_model(row: OperationRow, parent_op_ids: Vec<String>) -> (r: Result<
    OperationV2,
    StoreError,
>)
    ensures
        (match r {
            Ok(op) => row_fault(row) is None && op@ == row_operation(
                row,
                text::texts(parent_op_ids@),
            ) && op.wf(),
            Err(e) => row_fault(row) == Some(e@),
        }),
{
    if row.format_version != 2 {
        return Err(
            StoreError::Corrupt(
                joined(
                    "unsupported operation format version ",
                    signed_decimal_text(row.format_version as i64).as_str(),
                ),
            ),
        );
    }
    let pre_view_oid = match parse_oid(row.pre_view_oid.as_str()) {
        Ok(id) => id,
        Err(e) => {
            return Err(e);
        },
    };
    let post_view_oid = match parse_oid(row.post_view_oid.as_str()) {
        Ok(id) => id,
        Err(e) => {
            return Err(e);
        },
    };
    let kind = match OperationKind::parse(row.kind.as_str()) {
        Ok(kind) => kind,
        Err(e) => {
            return Err(e);
        },
    };
    let status = match OperationStatusV2::parse(row.status.as_str()) {
        Ok(status) => status,
        Err(e) => {
            return Err(e);
        },
    };
    let predecessor_map_oid = match parse_opt_oid(&row.predecessor_map_oid) {
        Ok(o) => o,
        Err(e) => {
            return Err(e);
        },
    };
    Ok(
        OperationV2 {
            op_id: row.op_id,
            repo_id: row.repo_id,
            parent_op_ids,
            pre_view_oid,
            post_view_oid,
            kind,
            status,
            metadata: OperationMetaV2 {
                command_name: row.command_name,
                description: row.description,
                args_digest: row.args_digest,
                actor: row.actor,
                worktree_id: row.worktree_id,
                scope_kind: row.scope_kind,
                causal_context_id: row.causal_context_id,
            },
            restores_op_id: row.restores_op_id,
            reverts_op_id: row.reverts_op_id,
            predecessor_map_oid,
            start_ts: row.start_ts,
            end_ts: row.end_ts,
        },
    )
}

/// An operation that is written is read back as it was.
pub proof fn law_operation_round_trip(op: OperationV2, row: OperationRow)
    requires
        op.wf(),
        is_row_of(row, op@),
    ensures
        row_fault(row) is None,
        row_operation(row, op@.parent_op_ids) == op@,
{
    law_names_round_trip(op.kind, op.status, JournalPhase::Reserved);
}

#[derive(Debug, Clone, PartialEq, Eq)]
pub struct OperationJournalEntry {
    pub journal_id: String,
    pub op_id: String,
    pub phase: JournalPhase,
    pub pre_view_oid: Option<Oid>,
    pub target_view_oid: Option<Oid>,
    pub owner: String,
    pub updated_at: i64,
    pub recovery_payload: Option<String>,
}

/// A row of the journal table.
#[derive(Debug, PartialEq, Eq)]
pub struct JournalRow {
    pub journal_id: String,
    pub op_id: String,
    pub phase: String,
    pub pre_view_oid: Option<String>,
    pub target_view_oid: Option<String>,
    pub owner: String,
    pub updated_at: i64,
    pub recovery_payload: Option<String>,
}

/// What is wrong with a journal row that is read.
pub open spec fn journal_fault(row: JournalRow) -> Option<StoreErrorModel> {
    if JournalPhase::named(row.phase@) is None {
        Some(StoreErrorModel::Corrupt("unknown journal phase '"@ + row.phase@ + "'"@))
    } else if opt_oid_read(text::opt_text(row.pre_view_oid)) is Err {
        Some(StoreErrorModel::InvalidObjectHash(text::opt_text(row.pre_view_oid)->0))
    } else if opt_oid_read(text::opt_text(row.target_view_oid)) is Err {
        Some(StoreErrorModel::InvalidObjectHash(text::opt_text(row.target_view_oid)->0))
    } else {
        None
    }
}

/// The journal entry that a row says.
pub fn journal_from_model(row: JournalRow) -> (r: Result<OperationJournalEntry, StoreError>)
    ensures
        (match r {
            Ok(entry) => {
                &&& journal_fault(row) is None
                &&& entry.journal_id@ == row.journal_id@
                &&& entry.op_id@ == row.op_id@
                &&& JournalPhase::named(row.phase@) == Some(entry.phase)
                &&& opt_oid_read(text::opt_text(row.pre_view_oid)) == Ok::<
                    Option<Seq<char>>,
                    StoreErrorModel,
                >(opt_oid(entry.pre_view_oid))
                &&& opt_oid_read(text::opt_text(row.target_view_oid)) == Ok::<
                    Option<Seq<char>>,
                    StoreErrorModel,
                >(opt_oid(entry.target_view_oid))
                &&& entry.owner@ == row.owner@
                &&& entry.updated_at == row.updated_at
                &&& entry.recovery_payload == row.recovery_payload
            },
            Err(e) => journal_fault(row) == Some(e@),
        }),
{
    let phase = match JournalPhase::parse(row.phase.as_str()) {
        Ok(phase) => phase,
        Err(e) => {
            return Err(e);
        },
    };
    let pre_view_oid = match parse_opt_oid(&row.pre_view_oid) {
        Ok(o) => o,
        Err(e) => {
            return Err(e);
        },
    };
    let target_view_oid = match parse_opt_oid(&row.target_view_oid) {
        Ok(o) => o,
        Err(e) => {
            return Err(e);
        },
    };
    Ok(
        OperationJournalEntry {
            journal_id: row.journal_id,
            op_id: row.op_id,
            phase,
            pre_view_oid,
            target_view_oid,
            owner: row.owner,
            updated_at: row.updated_at,
            recovery_payload: row.recovery_payload,
        },
    )
}

/// The row with which a journal entry begins.
pub fn reserved_journal_row(
    journal_id: &str,
    op_id: &str,
    owner: &str,
    updated_at: i64,
) -> (r: JournalRow)
    ensures
        r.journal_id@ == journal_id@,
        r.op_id@ == op_id@,
        r.phase@ == JournalPhase::Reserved.name(),
        r.pre_view_oid is None,
        r.target_view_oid is None,
        r.owner@ == owner@,
        r.updated_at == updated_at,
        r.recovery_payload is None,
{
    JournalRow {
        journal_id: journal_id.to_owned(),
        op_id: op_id.to_owned(),
        phase: JournalPhase::Reserved.as_str().to_owned(),
        pre_view_oid: None,
        target_view_oid: None,
        owner: owner.to_owned(),
        updated_at,
        recovery_payload: None,
    }
}

/// The row of a journal entry in its next phase; its id, operation and owner
/// stay.
pub fn journal_row_in_phase(
    row: JournalRow,
    phase: JournalPhase,
    pre_view_oid: &Option<Oid>,
    target_view_oid: &Option<Oid>,
    recovery_payload: Option<String>,
    updated_at: i64,
) -> (r: JournalRow)
    ensures
        r.journal_id == row.journal_id,
        r.op_id == row.op_id,
        r.owner == row.owner,
        r.phase@ == phase.name(),
        text::opt_text(r.pre_view_oid) == opt_oid(*pre_view_oid),
        text::opt_text(r.target_view_oid) == opt_oid(*target_view_oid),
        r.recovery_payload == recovery_payload,
        r.updated_at == updated_at,
{
    JournalRow {
        journal_id: row.journal_id,
        op_id: row.op_id,
        phase: phase.as_str().to_owned(),
        pre_view_oid: copy_oid_text(pre_view_oid),
        target_view_oid: copy_oid_text(target_view_oid),
        owner: row.owner,
        updated_at,
        recovery_payload,
    }
}

/// Whether a row writes a journal entry.
pub open spec fn is_journal_row_of(row: JournalRow, entry: OperationJournalEntry) -> bool {
    &&& row.journal_id@ == entry.journal_id@
    &&& row.op_id@ == entry.op_id@
    &&& row.phase@ == entry.phase.name()
    &&& text::opt_text(row.pre_view_oid) == opt_oid(entry.pre_view_oid)
    &&& text::opt_text(row.target_view_oid) == opt_oid(entry.target_view_oid)
    &&& row.owner@ == entry.owner@
    &&& row.updated_at == entry.updated_at
    &&& row.recovery_payload == entry.recovery_payload
}

/// A journal entry that is written is read back as it was.
pub proof fn law_journal_round_trip(row: JournalRow, entry: OperationJournalEntry)
    requires
        is_journal_row_of(row, entry),
        entry.pre_view_oid matches Some(id) ==> id.wf(),
        entry.target_view_oid matches Some(id) ==> id.wf(),
    ensures
        journal_fault(row) is None,
        JournalPhase::named(row.phase@) == Some(entry.phase),
        opt_oid_read(text::opt_text(row.pre_view_oid)) == Ok::<
            Option<Seq<char>>,
            StoreErrorModel,
        >(opt_oid(entry.pre_view_oid)),
        opt_oid_read(text::opt_text(row.target_view_oid)) == Ok::<
            Option<Seq<char>>,
            StoreErrorModel,
        >(opt_oid(entry.target_view_oid)),
{
    law_names_round_trip(OperationKind::Command, OperationStatusV2::Running, entry.phase);
}

} // verus!
