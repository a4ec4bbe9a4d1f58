//! Bounded working-copy capture into a v2 workspace snapshot.
//!
//! Capture is a snapshot operation, not a commit. Reading directories and
//! files is the caller's; which entries count, and the byte and file budgets,
//! are decided here. Paths are bytes with `/` between their parts.

use vstd::prelude::*;
use vstd::slice::slice_to_vec;

use super::store::joined;
use super::view::{
    CapturePolicy, Completeness, HeadState, ViewErrorModel, WorkspaceSnapshotV2,
};
use crate::oid;
use crate::oid::Oid;
use crate::order;
use crate::order::Ranked;
use crate::patch_mode::apply;
use crate::patch_mode::apply::decode_lossy;
use crate::text;

verus! {

pub const MAX_FILES: usize = 10_000;

pub const MAX_BYTES: u64 = 67_108_864;

#[derive(Debug, PartialEq, Eq)]
pub enum SnapshotError {
    Io(String),
    WorktreeIo(String),
    Storage(String),
    Manifest(String),
    UnsafePath(String),
}

/// What a [`SnapshotError`] says.
pub enum SnapshotErrorModel {
    Io(Seq<char>),
    WorktreeIo(Seq<char>),
    Storage(Seq<char>),
    Manifest(Seq<char>),
    UnsafePath(Seq<char>),
}

impl View for SnapshotError {
    type V = SnapshotErrorModel;

    open spec fn view(&self) -> SnapshotErrorModel {
        match self {
            SnapshotError::Io(m) => SnapshotErrorModel::Io(m@),
            SnapshotError::WorktreeIo(m) => SnapshotErrorModel::WorktreeIo(m@),
            SnapshotError::Storage(m) => SnapshotErrorModel::Storage(m@),
            SnapshotError::Manifest(m) => SnapshotErrorModel::Manifest(m@),
            SnapshotError::UnsafePath(m) => SnapshotErrorModel::UnsafePath(m@),
        }
    }
}

impl SnapshotErrorModel {
    /// The sentence that reports the error.
    pub open spec fn message(self) -> Seq<char> {
        match self {
            SnapshotErrorModel::Io(m) => "snapshot I/O error: "@ + m,
            SnapshotErrorModel::WorktreeIo(m) => "snapshot worktree I/O error: "@ + m,
            SnapshotErrorModel::Storage(m) => "snapshot object storage error: "@ + m,
            SnapshotErrorModel::Manifest(m) => "snapshot manifest error: "@ + m,
            SnapshotErrorModel::UnsafePath(m) => {
                "snapshot path is not a safe relative path: "@ + m
            },
        }
    }
}

impl SnapshotError {
    /// The sentence that reports the error.
    pub fn message(&self) -> (r: String)
        ensures
            r@ == self@.message(),
    {
        match self {
            SnapshotError::Io(m) => joined("snapshot I/O error: ", m.as_str()),
            SnapshotError::WorktreeIo(m) => joined("snapshot worktree I/O error: ", m.as_str()),
            SnapshotError::Storage(m) => joined("snapshot object storage error: ", m.as_str()),
            SnapshotError::Manifest(m) => joined("snapshot manifest error: ", m.as_str()),
            SnapshotError::UnsafePath(m) => joined(
                "snapshot path is not a safe relative path: ",
                m.as_str(),
            ),
        }
    }
}

//// Safe paths

/// Where the part of a path that starts at `i` ends.
pub open spec fn part_end(p: Seq<u8>, i: int) -> int
    decreases p.len() - i,
{
    if 0 <= i < p.len() && p[i] != 47 {
        part_end(p, i + 1)
    } else {
        i
    }
}

/// Whether any part of a path from `i` on leads upwards.
pub open spec fn leads_up(p: Seq<u8>, i: int) -> bool
    decreases p.len() + 1 - i,
    via leads_up_decreases
{
    if i < 0 || i >= p.len() {
        false
    } else {
        p.subrange(i, part_end(p, i)) == seq![46u8, 46u8] || leads_up(p, part_end(p, i) + 1)
    }
}

#[via_fn]
proof fn leads_up_decreases(p: Seq<u8>, i: int) {
    if 0 <= i < p.len() {
        lemma_part_end(p, i);
    }
}

pub proof fn lemma_part_end(p: Seq<u8>, i: int)
    requires
        0 <= i <= p.len(),
    ensures
        i <= part_end(p, i) <= p.len(),
    decreases p.len() - i,
{
    if i < p.len() && p[i] != 47 {
        lemma_part_end(p, i + 1);
    }
}

/// Whether a path stays below the directory it is taken from: it is neither
/// empty nor absolute, does not start with a `.` part, and leads nowhere up.
pub open spec fn is_safe(p: Seq<u8>) -> bool {
    p.len() > 0 && p[0] != 47 && p.subrange(0, part_end(p, 0)) != seq![46u8] && !leads_up(p, 0)
}

fn end_of_part(p: &[u8], from: usize) -> (r: usize)
    requires
        from <= p@.len(),
    ensures
        r == part_end(p@, from as int),
        from <= r <= p@.len(),
{
    let mut i = from;
    while i < p.len() && p[i] != 47
        invariant
            from <= i <= p@.len(),
            part_end(p@, i as int) == part_end(p@, from as int),
        decreases p@.len() - i,
    {
        i += 1;
    }
    i
}

pub fn ensure_safe_relative(path: &[u8]) -> (r: Result<(), SnapshotError>)
    ensures
        (match r {
            Ok(_) => is_safe(path@),
            Err(e) => !is_safe(path@) && e@ == SnapshotErrorModel::UnsafePath(
                apply::lossy_text(path@),
            ),
        }),
{
    let n = path.len();
    if n == 0 || path[0] == 47 {
        return Err(SnapshotError::UnsafePath(decode_lossy(path)));
    }
    let first = end_of_part(path, 0);
    let ghost part = path@.subrange(0, first as int);
    if first == 1 && path[0] == 46 {
        assert(part =~= seq![46u8]);
        return Err(SnapshotError::UnsafePath(decode_lossy(path)));
    }
    assert(part != seq![46u8]) by {
        if part == seq![46u8] {
            assert(part.len() == 1 && part[0] == 46);
        }
    }
    let mut i: usize = 0;
    while i < n
        invariant
            i <= n == path@.len(),
            leads_up(path@, i as int) == leads_up(path@, 0),
            n > 0 && path@[0] != 47 && path@.subrange(0, part_end(path@, 0)) != seq![46u8],
        decreases n - i,
    {
        let end = end_of_part(path, i);
        let ghost here = path@.subrange(i as int, end as int);
        if end - i == 2 && path[i] == 46 && path[i + 1] == 46 {
            assert(here =~= seq![46u8, 46u8]);
            return Err(SnapshotError::UnsafePath(decode_lossy(path)));
        }
        assert(here != seq![46u8, 46u8]) by {
            if here == seq![46u8, 46u8] {
                assert(here.len() == 2 && here[0] == 46 && here[1] == 46);
            }
        }
        if end == n {
            assert(!leads_up(path@, end + 1));
            return Ok(());
        }
        i = end + 1;
    }
    Ok(())
}

//// Scanning

/// A path, ordered part by part.
#[derive(Debug, PartialEq, Eq)]
pub struct FilePath {
    pub bytes: Vec<u8>,
}

impl View for FilePath {
    type V = Seq<u8>;

    open spec fn view(&self) -> Seq<u8> {
        self.bytes@
    }
}

/// The place of a byte in the order of paths: the separator comes first.
pub open spec fn byte_rank(b: u8) -> int {
    if b == 47 {
        -1
    } else {
        b as int
    }
}

/// Whether path `a` stands before path `b` or is the same: part by part.
pub open spec fn path_le(a: Seq<u8>, b: Seq<u8>) -> bool
    decreases a.len(),
{
    if a.len() == 0 {
        true
    } else if b.len() == 0 {
        false
    } else if a[0] != b[0] {
        byte_rank(a[0]) < byte_rank(b[0])
    } else {
        path_le(a.drop_first(), b.drop_first())
    }
}

proof fn lemma_path_total(a: Seq<u8>, b: Seq<u8>)
    ensures
        path_le(a, b) || path_le(b, a),
    decreases a.len(),
{
    if a.len() > 0 && b.len() > 0 && a[0] == b[0] {
        lemma_path_total(a.drop_first(), b.drop_first());
    }
}

proof fn lemma_path_trans(a: Seq<u8>, b: Seq<u8>, c: Seq<u8>)
    requires
        path_le(a, b),
        path_le(b, c),
    ensures
        path_le(a, c),
    decreases a.len(),
{
    if a.len() > 0 && b.len() > 0 && c.len() > 0 && a[0] == b[0] && b[0] == c[0] {
        lemma_path_trans(a.drop_first(), b.drop_first(), c.drop_first());
    }
}

fn rank_of_byte(b: u8) -> (r: i16)
    ensures
        r == byte_rank(b),
{
    if b == 47 {
        -1
    } else {
        b as i16
    }
}

impl Ranked for FilePath {
    open spec fn rank_le(self, other: Self) -> bool {
        path_le(self@, other@)
    }

    proof fn rank_total(a: Self, b: Self) {
        lemma_path_total(a@, b@);
    }

    proof fn rank_trans(a: Self, b: Self, c: Self) {
        lemma_path_trans(a@, b@, c@);
    }

    fn not_after(&self, other: &Self) -> (r: bool) {
        let a = self.bytes.as_slice();
        let b = other.bytes.as_slice();
        let mut i: usize = 0;
        assert(a@.skip(0) =~= a@);
        assert(b@.skip(0) =~= b@);
        while i < a.len()
            invariant
                i <= a.len(),
                i <= b.len(),
                a@ == self@,
                b@ == other@,
                path_le(a@.skip(i as int), b@.skip(i as int)) == path_le(a@, b@),
            decreases a.len() - i,
        {
            if i >= b.len() {
                return false;
            }
            if a[i] != b[i] {
                return rank_of_byte(a[i]) < rank_of_byte(b[i]);
            }
            assert(a@.skip(i as int).drop_first() =~= a@.skip(i + 1));
            assert(b@.skip(i as int).drop_first() =~= b@.skip(i + 1));
            i += 1;
        }
        true
    }
}

/// An entry of a directory.
#[derive(Debug, PartialEq, Eq)]
pub struct DirEntry {
    pub name: Vec<u8>,
    pub is_dir: bool,
    pub is_file: bool,
    pub is_symlink: bool,
}

/// What an [`DirEntry`] says.
#[verifier::ext_equal]
pub struct EntryModel {
    pub name: Seq<u8>,
    pub is_dir: bool,
    pub is_file: bool,
    pub is_symlink: bool,
}

impl View for DirEntry {
    type V = EntryModel;

    open spec fn view(&self) -> EntryModel {
        EntryModel {
            name: self.name@,
            is_dir: self.is_dir,
            is_file: self.is_file,
            is_symlink: self.is_symlink,
        }
    }
}

/// Whether a name is that of a repository's own directory.
pub open spec fn is_private(name: Seq<u8>) -> bool {
    name == seq![46u8, 103, 105, 116] || name == seq![46u8, 108, 105, 98, 114, 97]
}

/// The path of `name` in the directory `dir`.
pub open spec fn child_path(dir: Seq<u8>, name: Seq<u8>) -> Seq<u8> {
    if dir.len() == 0 {
        name
    } else {
        dir.push(47u8) + name
    }
}

/// How far a scan is.
#[verifier::ext_equal]
pub struct ScanModel {
    pub queue: Seq<Seq<u8>>,
    pub files: Seq<Seq<u8>>,
    pub partial: bool,
}

/// The scan after the entries of `dir`: directories wait, plain files count,
/// and a full list of files ends the directory. An unsafe path is an error.
pub open spec fn scan_entries(
    s: ScanModel,
    dir: Seq<u8>,
    entries: Seq<EntryModel>,
    max_files: int,
) -> Result<ScanModel, SnapshotErrorModel>
    decreases entries.len(),
{
    if entries.len() == 0 {
        Ok(s)
    } else {
        let e = entries[0];
        let rest = entries.drop_first();
        let child = child_path(dir, e.name);
        if is_private(e.name) {
            scan_entries(s, dir, rest, max_files)
        } else if e.is_dir {
            scan_entries(ScanModel { queue: s.queue.push(child), ..s }, dir, rest, max_files)
        } else if e.is_file && !e.is_symlink {
            if !is_safe(child) {
                Err(SnapshotErrorModel::UnsafePath(apply::lossy_text(child)))
            } else {
                let t = ScanModel { files: s.files.push(child), ..s };
                if t.files.len() >= max_files {
                    Ok(ScanModel { partial: true, ..t })
                } else {
                    scan_entries(t, dir, rest, max_files)
                }
            }
        } else {
            scan_entries(s, dir, rest, max_files)
        }
    }
}

/// A scan of a working copy: the directories that wait, the files found, and
/// whether anything was left out.
#[derive(Debug, PartialEq, Eq)]
pub struct WorkingCopyScan {
    pub queue: Vec<FilePath>,
    pub files: Vec<FilePath>,
    pub partial: bool,
    pub max_files: usize,
}

impl View for WorkingCopyScan {
    type V = ScanModel;

    open spec fn view(&self) -> ScanModel {
        ScanModel {
            queue: order::views(self.queue@),
            files: order::views(self.files@),
            partial: self.partial,
        }
    }
}

fn bytes_are_private(name: &[u8]) -> (r: bool)
    ensures
        r == is_private(name@),
{
    let n = name.len();
    if n == 4 && name[0] == 46 && name[1] == 103 && name[2] == 105 && name[3] == 116 {
        assert(name@ =~= seq![46u8, 103, 105, 116]);
        return true;
    }
    if n == 6 && name[0] == 46 && name[1] == 108 && name[2] == 105 && name[3] == 98 && name[4]
        == 114 && name[5] == 97 {
        assert(name@ =~= seq![46u8, 108, 105, 98, 114, 97]);
        return true;
    }
    assert(!is_private(name@)) by {
        if name@ == seq![46u8, 103, 105, 116] {
            assert(name@.len() == 4 && name@[0] == 46 && name@[1] == 103 && name@[2] == 105
                && name@[3] == 116);
        }
        if name@ == seq![46u8, 108, 105, 98, 114, 97] {
            assert(name@.len() == 6 && name@[0] == 46 && name@[1] == 108 && name@[2] == 105
                && name@[3] == 98 && name@[4] == 114 && name@[5] == 97);
        }
    }
    false
}

fn join_path(dir: &[u8], name: &[u8]) -> (r: Vec<u8>)
    ensures
        r@ == child_path(dir@, name@),
{
    let mut out = slice_to_vec(dir);
    if dir.len() > 0 {
        out.push(47);
    }
    let mut tail = slice_to_vec(name);
    out.append(&mut tail);
    assert(out@ =~= child_path(dir@, name@));
    out
}

impl WorkingCopyScan {
    /// A scan that starts at the root.
    pub fn new(max_files: usize) -> (r: Self)
        ensures
            r.max_files == max_files,
            r@ == (ScanModel { queue: seq![Seq::empty()], files: Seq::empty(), partial: false }),
    {
        let mut queue: Vec<FilePath> = Vec::new();
        queue.push(FilePath { bytes: Vec::new() });
        let r = WorkingCopyScan { queue, files: Vec::new(), partial: false, max_files };
        assert(r@.queue =~= seq![Seq::<u8>::empty()]);
        assert(r@.files =~= Seq::<Seq<u8>>::empty());
        r
    }

    /// The directory to read next, and how many entries at most.
    pub fn next_directory(&mut self) -> (r: Option<(FilePath, usize)>)
        ensures
            final(self).max_files == old(self).max_files,
            (match r {
                Some((dir, remaining)) => {
                    &&& old(self)@.queue.len() > 0
                    &&& dir@ == old(self)@.queue.last()
                    &&& final(self)@ == (ScanModel {
                        queue: old(self)@.queue.drop_last(),
                        ..old(self)@
                    })
                    &&& remaining == if old(self).max_files > old(self)@.files.len() {
                        (old(self).max_files - old(self)@.files.len()) as int
                    } else {
                        1
                    }
                },
                None => old(self)@.queue.len() == 0 && final(self)@ == old(self)@,
            }),
    {
        let ghost before = self@;
        assert(before.files.len() == self.files@.len());
        match self.queue.pop() {
            Some(dir) => {
                assert(self@.queue =~= before.queue.drop_last());
                let found = self.files.len();
                let remaining = if self.max_files > found {
                    self.max_files - found
                } else {
                    1
                };
                Some((dir, remaining))
            },
            None => {
                assert(before.queue.len() == 0);
                None
            },
        }
    }

    /// Takes the listing of `dir`. `incomplete` tells that the listing was cut
    /// short, timed out or met errors.
    pub fn take_listing(&mut self, dir: &[u8], entries: &[DirEntry], incomplete: bool) -> (r: Result<
        (),
        SnapshotError,
    >)
        ensures
            final(self).max_files == old(self).max_files,
            ({
                let start = ScanModel { partial: old(self)@.partial || incomplete, ..old(self)@ };
                let m = scan_entries(
                    start,
                    dir@,
                    order::views(entries@),
                    old(self).max_files as int,
                );
                match r {
                    Ok(_) => m == Ok::<ScanModel, SnapshotErrorModel>(final(self)@),
                    Err(e) => m == Err::<ScanModel, SnapshotErrorModel>(e@),
                }
            }),
    {
        if incomplete {
            self.partial = true;
        }
        let ghost start = self@;
        let ghost m = order::views(entries@);
        let ghost max = self.max_files as int;
        let mut i: usize = 0;
        assert(m.skip(0) =~= m);
        while i < entries.len()
            invariant
                i <= entries@.len(),
                m == order::views(entries@),
                max == self.max_files,
                self.max_files == old(self).max_files,
                start == (ScanModel { partial: old(self)@.partial || incomplete, ..old(self)@ }),
                scan_entries(self@, dir@, m.skip(i as int), max) == scan_entries(
                    start,
                    dir@,
                    m,
                    max,
                ),
            decreases entries@.len() - i,
        {
            let e = &entries[i];
            assert(m.skip(i as int)[0] == e@);
            assert(m.skip(i as int).drop_first() =~= m.skip(i + 1));
            let ghost before = self@;
            if !bytes_are_private(e.name.as_slice()) {
                let child = join_path(dir, e.name.as_slice());
                let ghost c = child@;
                if e.is_dir {
                    self.queue.push(FilePath { bytes: child });
                    assert(self@.queue =~= before.queue.push(c));
                } else if e.is_file && !e.is_symlink {
                    match ensure_safe_relative(child.as_slice()) {
                        Ok(_) => {},
                        Err(err) => {
                            return Err(err);
                        },
                    }
                    self.files.push(FilePath { bytes: child });
                    assert(self@.files =~= before.files.push(c));
                    assert(self@.files.len() == self.files@.len());
                    if self.files.len() >= self.max_files {
                        self.partial = true;
                        return Ok(());
                    }
                }
            }
            i += 1;
        }
        Ok(())
    }

    /// The files that were found, in order.
    pub fn into_files(self) -> (r: (Vec<FilePath>, bool))
        ensures
            order::in_order(r.0@),
            order::views(r.0@).to_multiset() == self@.files.to_multiset(),
            r.1 == self@.partial,
    {
        (order::sorted(self.files), self.partial)
    }
}

//// Budgets

/// A file of a snapshot.
#[derive(Debug, PartialEq, Eq)]
pub struct FileEntry {
    pub path: Vec<u8>,
    pub oid: String,
    pub len: u64,
}

/// What is left of the file and byte budgets of a capture.
#[derive(Debug, Clone, Copy, PartialEq, Eq, Structural)]
pub struct CaptureBudget {
    pub max_files: usize,
    pub max_bytes: u64,
    pub file_count: usize,
    pub byte_count: u64,
    /// Whether a file was left out.
    pub exceeded: bool,
}

impl CaptureBudget {
    /// Whether the budgets hold.
    pub open spec fn wf(self) -> bool {
        self.file_count <= self.max_files && self.byte_count <= self.max_bytes
    }

    pub fn new(max_files: usize, max_bytes: u64) -> (r: Self)
        ensures
            r.wf(),
            r == (CaptureBudget {
                max_files,
                max_bytes,
                file_count: 0,
                byte_count: 0,
                exceeded: false,
            }),
    {
        CaptureBudget { max_files, max_bytes, file_count: 0, byte_count: 0, exceeded: false }
    }

    /// Whether another file may be read.
    pub open spec fn has_room(self) -> bool {
        self.file_count < self.max_files && self.byte_count < self.max_bytes
    }

    /// Whether a file of `len` bytes goes into the bytes left.
    pub open spec fn fits(self, len: u64) -> bool {
        self.byte_count + len <= self.max_bytes
    }

    /// The budgets once it was asked whether another file may be read.
    pub open spec fn opened(self) -> Self {
        CaptureBudget { exceeded: self.exceeded || !self.has_room(), ..self }
    }

    /// The budgets once a file of `len` bytes was counted or left out.
    pub open spec fn charged(self, len: u64) -> Self {
        if self.fits(len) {
            CaptureBudget {
                file_count: (self.file_count + 1) as usize,
                byte_count: (self.byte_count + len) as u64,
                ..self
            }
        } else {
            CaptureBudget { exceeded: true, ..self }
        }
    }

    /// Whether another file may be read. Once one may not, the capture is
    /// partial.
    pub fn open(&mut self) -> (r: bool)
        requires
            old(self).wf(),
        ensures
            final(self).wf(),
            r == old(self).has_room(),
            *final(self) == old(self).opened(),
    {
        if self.file_count >= self.max_files || self.byte_count >= self.max_bytes {
            self.exceeded = true;
            false
        } else {
            true
        }
    }

    /// Counts a file of `len` bytes, unless it goes beyond the bytes left.
    pub fn charge(&mut self, len: u64) -> (r: bool)
        requires
            old(self).wf(),
            old(self).file_count < old(self).max_files,
        ensures
            final(self).wf(),
            r == old(self).fits(len),
            *final(self) == old(self).charged(len),
    {
        if len > self.max_bytes - self.byte_count {
            self.exceeded = true;
            false
        } else {
            self.byte_count = self.byte_count + len;
            self.file_count = self.file_count + 1;
            true
        }
    }
}

/// Captures and restores working copies within fixed budgets.
#[derive(Debug, Clone, Copy, PartialEq, Eq, Structural)]
pub struct WorkspaceSnapshotter {
    pub max_files: usize,
    pub max_bytes: u64,
}

impl WorkspaceSnapshotter {
    pub fn new() -> (r: Self)
        ensures
            r.max_files == MAX_FILES,
            r.max_bytes == MAX_BYTES,
    {
        WorkspaceSnapshotter { max_files: MAX_FILES, max_bytes: MAX_BYTES }
    }

    /// A snapshotter with budgets of its own.
    pub fn with_limits(max_files: usize, max_bytes: u64) -> (r: Self)
        ensures
            r.max_files == max_files,
            r.max_bytes == max_bytes,
    {
        WorkspaceSnapshotter { max_files, max_bytes }
    }

    /// A scan of a working copy, from its root.
    pub fn scan(&self) -> (r: WorkingCopyScan)
        ensures
            r.max_files == self.max_files,
            r@ == (ScanModel { queue: seq![Seq::empty()], files: Seq::empty(), partial: false }),
    {
        WorkingCopyScan::new(self.max_files)
    }

    /// The budgets of a capture, with nothing used yet.
    pub fn budget(&self) -> (r: CaptureBudget)
        ensures
            r.wf(),
            r == (CaptureBudget {
                max_files: self.max_files,
                max_bytes: self.max_bytes,
                file_count: 0,
                byte_count: 0,
                exceeded: false,
            }),
    {
        CaptureBudget::new(self.max_files, self.max_bytes)
    }
}

/// A stored snapshot.
#[derive(Debug, Clone, PartialEq, Eq)]
pub struct SnapshotCapture {
    pub manifest: WorkspaceSnapshotV2,
    pub manifest_oid: Oid,
    pub file_count: usize,
    pub byte_count: u64,
}

/// The manifest of the files of a snapshot.
#[derive(Debug, PartialEq, Eq)]
pub struct FileManifest {
    pub schema_version: u32,
    pub files: Vec<FileEntry>,
}

/// How many files a capture takes from files of these sizes, in their order:
/// up to the first that does not fit.
pub open spec fn files_taken(lens: Seq<u64>, b: CaptureBudget) -> nat
    decreases lens.len(),
{
    if lens.len() == 0 || !b.has_room() || !b.fits(lens[0]) {
        0
    } else {
        1 + files_taken(lens.drop_first(), b.charged(lens[0]))
    }
}

/// The bytes of the first `n` files.
pub open spec fn bytes_of(lens: Seq<u64>, n: nat) -> int
    decreases n,
{
    if n == 0 || lens.len() == 0 {
        0
    } else {
        lens[0] + bytes_of(lens.drop_first(), (n - 1) as nat)
    }
}

/// The budgets once files of these sizes were gone through, each opened and
/// then charged, up to the first that is left out.
pub open spec fn gone_through(lens: Seq<u64>, b: CaptureBudget) -> CaptureBudget
    decreases lens.len(),
{
    if lens.len() == 0 {
        b
    } else if !b.has_room() {
        b.opened()
    } else if !b.opened().fits(lens[0]) {
        b.opened().charged(lens[0])
    } else {
        gone_through(lens.drop_first(), b.opened().charged(lens[0]))
    }
}

/// Going through files counts those that are taken and their bytes, and tells
/// whether one was left out.
pub proof fn law_capture_counts_what_it_takes(lens: Seq<u64>, b: CaptureBudget)
    requires
        b.wf(),
    ensures
        gone_through(lens, b).wf(),
        gone_through(lens, b).max_files == b.max_files,
        gone_through(lens, b).max_bytes == b.max_bytes,
        gone_through(lens, b).file_count == b.file_count + files_taken(lens, b),
        gone_through(lens, b).byte_count == b.byte_count + bytes_of(lens, files_taken(lens, b)),
        gone_through(lens, b).exceeded == (b.exceeded || files_taken(lens, b) < lens.len()),
    decreases lens.len(),
{
    if lens.len() > 0 && b.has_room() && b.fits(lens[0]) {
        assert(b.opened() == b);
        law_capture_counts_what_it_takes(lens.drop_first(), b.charged(lens[0]));
    }
}

/// What a capture takes keeps within its budgets, whatever the files are.
pub proof fn law_capture_keeps_its_budgets(lens: Seq<u64>, b: CaptureBudget)
    requires
        b.wf(),
    ensures
        files_taken(lens, b) <= lens.len(),
        b.file_count + files_taken(lens, b) <= b.max_files,
        b.byte_count + bytes_of(lens, files_taken(lens, b)) <= b.max_bytes,
    decreases lens.len(),
{
    if lens.len() > 0 && b.has_room() && b.fits(lens[0]) {
        law_capture_keeps_its_budgets(lens.drop_first(), b.charged(lens[0]));
    }
}

/// Whether there is anything to capture: a root without files and without an
/// index has no observable state.
pub fn has_observable_state(entry_count: usize, index_is_empty: bool, had_files: bool) -> (r: bool)
    ensures
        r == !(entry_count == 0 && index_is_empty && !had_files),
{
    !(entry_count == 0 && index_is_empty && !had_files)
}

/// The manifest of a capture.
pub fn capture_manifest(
    workspace_id: String,
    head: HeadState,
    index_oid: Oid,
    file_manifest_oid: Oid,
    capture_policy: CapturePolicy,
    generation: u64,
    partial: bool,
) -> (r: Result<WorkspaceSnapshotV2, SnapshotError>)
    ensures
        (match r {
            Ok(s) => {
                &&& !text::is_blank(workspace_id@)
                &&& s.fault() is None
                &&& s.workspace_id == workspace_id
                &&& s.head == head
                &&& s.index_tree_oid == index_oid
                &&& s.raw_index_blob_oid == index_oid
                &&& s.working_copy_tree_oid == file_manifest_oid
                &&& s.untracked_manifest_oid == file_manifest_oid
                &&& s.sparse_facet_oid is None
                &&& s.sequencer_facet_oid is None
                &&& s.capture_policy == capture_policy
                &&& s.worktree_generation == generation
                &&& s.completeness == if partial || capture_policy is FailClosed {
                    Completeness::Partial
                } else {
                    Completeness::Full
                }
                &&& s.facet_restore_policies.entries@.len() == 0
            },
            Err(e) => text::is_blank(workspace_id@) && e@ == SnapshotErrorModel::Manifest(
                ViewErrorModel::EmptyWorkspaceId.message(),
            ),
        }),
{
    match WorkspaceSnapshotV2::new(
        workspace_id,
        head,
        index_oid.clone(),
        index_oid,
        file_manifest_oid.clone(),
        file_manifest_oid,
    ) {
        Ok(s) => {
            let mut manifest = s;
            manifest.capture_policy = capture_policy;
            manifest.worktree_generation = generation;
            manifest.completeness = if partial || capture_policy == CapturePolicy::FailClosed {
                Completeness::Partial
            } else {
                Completeness::Full
            };
            Ok(manifest)
        },
        Err(e) => Err(SnapshotError::Manifest(e.message())),
    }
}

/// What is kept of a file that is captured: where it was, the object that
/// holds its content, and how long that is.
pub fn captured_file(path: FilePath, id: &Oid, data: &[u8]) -> (r: FileEntry)
    ensures
        r.path@ == path@,
        r.oid@ == id@,
        r.len == data@.len(),
{
    FileEntry { path: path.bytes, oid: id.as_str().to_owned(), len: data.len() as u64 }
}

/// The object that restores a file, or why there is none.
pub open spec fn source(entry: FileEntry) -> Result<Seq<char>, SnapshotErrorModel> {
    if !is_safe(entry.path@) {
        Err(SnapshotErrorModel::UnsafePath(apply::lossy_text(entry.path@)))
    } else {
        match oid::oid_of(entry.oid@) {
            Some(id) => Ok(id),
            None => Err(SnapshotErrorModel::Manifest("invalid file object id"@)),
        }
    }
}

/// The object that restores a file of a snapshot; an unsafe path is refused
/// before anything else.
pub fn restore_source(entry: &FileEntry) -> (r: Result<Oid, SnapshotError>)
    ensures
        (match r {
            Ok(id) => source(*entry) == Ok::<Seq<char>, SnapshotErrorModel>(id@),
            Err(e) => source(*entry) == Err::<Seq<char>, SnapshotErrorModel>(e@),
        }),
{
    match ensure_safe_relative(entry.path.as_slice()) {
        Ok(_) => {},
        Err(e) => {
            return Err(e);
        },
    }
    match Oid::parse(entry.oid.as_str()) {
        Some(id) => Ok(id),
        None => Err(SnapshotError::Manifest("invalid file object id".to_owned())),
    }
}

/// What is wrong with content that is to restore a file.
pub open spec fn length_fault(entry: FileEntry, data: Seq<u8>) -> Option<SnapshotErrorModel> {
    if data.len() == entry.len {
        None
    } else {
        Some(
            SnapshotErrorModel::Manifest(
                "file length changed for "@ + apply::lossy_text(entry.path@),
            ),
        )
    }
}

/// Checks that the content of a file is as long as it was.
pub fn check_restored_length(entry: &FileEntry, data: &[u8]) -> (r: Result<(), SnapshotError>)
    ensures
        (match r {
            Ok(_) => length_fault(*entry, data@) is None,
            Err(e) => length_fault(*entry, data@) == Some(e@),
        }),
{
    if data.len() as u64 != entry.len {
        return Err(
            SnapshotError::Manifest(
                joined(
                    "file length changed for ",
                    decode_lossy(entry.path.as_slice()).as_str(),
                ),
            ),
        );
    }
    Ok(())
}

proof fn lemma_scan_files_safe(
    s: ScanModel,
    dir: Seq<u8>,
    entries: Seq<EntryModel>,
    max_files: int,
)
    requires
        forall|i: int| 0 <= i < s.files.len() ==> is_safe(#[trigger] s.files[i]),
    ensures
        scan_entries(s, dir, entries, max_files) matches Ok(t) ==> forall|i: int|
            0 <= i < t.files.len() ==> is_safe(#[trigger] t.files[i]),
    decreases entries.len(),
{
    if entries.len() > 0 {
        let e = entries[0];
        let rest = entries.drop_first();
        let child = child_path(dir, e.name);
        lemma_scan_files_safe(s, dir, rest, max_files);
        let q = ScanModel { queue: s.queue.push(child), ..s };
        lemma_scan_files_safe(q, dir, rest, max_files);
        if is_safe(child) {
            let t = ScanModel { files: s.files.push(child), ..s };
            assert forall|i: int| 0 <= i < t.files.len() implies is_safe(#[trigger] t.files[i]) by {
                if i < s.files.len() {
                    assert(t.files[i] == s.files[i]);
                }
            }
            lemma_scan_files_safe(t, dir, rest, max_files);
        }
    }
}

/// A scan collects safe paths alone, whatever a directory holds.
pub proof fn law_scanned_files_are_safe(
    s: ScanModel,
    dir: Seq<u8>,
    entries: Seq<EntryModel>,
    max_files: int,
)
    requires
        forall|i: int| 0 <= i < s.files.len() ==> is_safe(#[trigger] s.files[i]),
    ensures
        scan_entries(s, dir, entries, max_files) matches Ok(t) ==> forall|i: int|
            0 <= i < t.files.len() ==> is_safe(#[trigger] t.files[i]),
{
    lemma_scan_files_safe(s, dir, entries, max_files);
}

/// A file that was captured is restored: its path is accepted, its object is
/// the one that was stored, and what was stored is as long as it says. Content
/// of another length is refused.
pub proof fn law_captured_files_restore(entry: FileEntry, path: Seq<u8>, id: Oid, data: Seq<u8>)
    requires
        is_safe(path),
        id.wf(),
        entry.path@ == path,
        entry.oid@ == id@,
        entry.len == data.len(),
    ensures
        source(entry) == Ok::<Seq<char>, SnapshotErrorModel>(id@),
        length_fault(entry, data) is None,
        forall|other: Seq<u8>|
            other.len() != data.len() ==> (#[trigger] length_fault(entry, other)) is Some,
{
    oid::law_oid_round_trip(id);
}

} // verus!
