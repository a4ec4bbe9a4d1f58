//! `add -p` session: auto-advance, `--no-auto-advance`, `s` split, and `e` edit.
//!
//! [`Session`] is a state machine. It says what to write and what it waits
//! for, a line of input or the text that an editor made of a buffer, and takes
//! the answer as a [`SessionEvent`]. [`run_session`] and [`run_session_with`]
//! drive it over given input.

use vstd::prelude::*;
use vstd::slice::slice_subrange;
use vstd::string::*;

use super::apply;
use super::edit;
use super::edit::{
    edited_hunk_applies, format_edit_buffer, is_editable, parse_edited_buffer, EditedHunk,
    CANNOT_EDIT, EDIT_RETRY_PROMPT,
};
use super::model;
use super::model::{split_hunk, FileDiff, Hunk, HunkLine, HunkUse};
use crate::text;
use crate::text::{chars_of, decimal_text, text_of};

verus! {

/// Prompt verb for the current file kind.
#[derive(Debug, Clone, Copy, PartialEq, Eq, Structural)]
pub enum StagePrompt {
    Hunk,
    Deletion,
    Addition,
    ModeChange,
}

/// Which patch-mode verb the session uses (`add -p` vs `reset -p`).
#[derive(Debug, Clone, Copy, PartialEq, Eq, Structural)]
pub enum PatchSessionKind {
    Stage,
    Unstage,
    ApplyToIndex,
}

impl Default for PatchSessionKind {
    fn default() -> (r: Self)
        ensures
            r == PatchSessionKind::Stage,
    {
        PatchSessionKind::Stage
    }
}

/// The question that a prompt asks.
pub open spec fn prompt_verb(p: StagePrompt, kind: PatchSessionKind) -> Seq<char> {
    match (kind, p) {
        (PatchSessionKind::Stage, StagePrompt::Hunk) => "Stage this hunk"@,
        (PatchSessionKind::Stage, StagePrompt::Deletion) => "Stage deletion"@,
        (PatchSessionKind::Stage, StagePrompt::Addition) => "Stage addition"@,
        (PatchSessionKind::Stage, StagePrompt::ModeChange) => "Stage mode change"@,
        (PatchSessionKind::Unstage, StagePrompt::Hunk) => "Unstage this hunk"@,
        (PatchSessionKind::Unstage, StagePrompt::Deletion) => "Unstage deletion"@,
        (PatchSessionKind::Unstage, StagePrompt::Addition) => "Unstage addition"@,
        (PatchSessionKind::Unstage, StagePrompt::ModeChange) => "Unstage mode change"@,
        (PatchSessionKind::ApplyToIndex, StagePrompt::Hunk) => "Apply this hunk to index"@,
        (PatchSessionKind::ApplyToIndex, StagePrompt::Deletion) => "Apply deletion to index"@,
        (PatchSessionKind::ApplyToIndex, StagePrompt::Addition) => "Apply addition to index"@,
        (PatchSessionKind::ApplyToIndex, StagePrompt::ModeChange) => "Apply mode change to index"@,
    }
}

/// Whether a hunk stands for something other than lines.
pub open spec fn is_synthetic(h: model::HunkModel) -> bool {
    h.header.len() == 0 && h.lines.len() == 0
}

/// What a file is asked as: a deletion before all else, then a mode change
/// without any lines, then an addition.
pub open spec fn prompt_of(f: model::FileModel) -> StagePrompt {
    if f.deleted {
        StagePrompt::Deletion
    } else if f.mode_change && forall|i: int|
        0 <= i < f.hunks.len() ==> is_synthetic(#[trigger] f.hunks[i]) {
        StagePrompt::ModeChange
    } else if f.added {
        StagePrompt::Addition
    } else {
        StagePrompt::Hunk
    }
}

fn synthetic_hunk(hunk: &Hunk) -> (r: bool)
    ensures
        r == is_synthetic(hunk@),
{
    hunk.header.as_str().unicode_len() == 0 && hunk.lines.len() == 0
}

impl StagePrompt {
    pub fn as_str(self, kind: PatchSessionKind) -> (r: &'static str)
        ensures
            r@ == prompt_verb(self, kind),
    {
        match (kind, self) {
            (PatchSessionKind::Stage, StagePrompt::Hunk) => "Stage this hunk",
            (PatchSessionKind::Stage, StagePrompt::Deletion) => "Stage deletion",
            (PatchSessionKind::Stage, StagePrompt::Addition) => "Stage addition",
            (PatchSessionKind::Stage, StagePrompt::ModeChange) => "Stage mode change",
            (PatchSessionKind::Unstage, StagePrompt::Hunk) => "Unstage this hunk",
            (PatchSessionKind::Unstage, StagePrompt::Deletion) => "Unstage deletion",
            (PatchSessionKind::Unstage, StagePrompt::Addition) => "Unstage addition",
            (PatchSessionKind::Unstage, StagePrompt::ModeChange) => "Unstage mode change",
            (PatchSessionKind::ApplyToIndex, StagePrompt::Hunk) => "Apply this hunk to index",
            (PatchSessionKind::ApplyToIndex, StagePrompt::Deletion) => "Apply deletion to index",
            (PatchSessionKind::ApplyToIndex, StagePrompt::Addition) => "Apply addition to index",
            (PatchSessionKind::ApplyToIndex, StagePrompt::ModeChange) => {
                "Apply mode change to index"
            },
        }
    }

    pub fn for_file(file: &FileDiff) -> (r: Self)
        ensures
            r == prompt_of(file@),
    {
        if file.deleted {
            return StagePrompt::Deletion;
        }
        let ghost m = file@.hunks;
        let mut all = true;
        let mut i: usize = 0;
        while i < file.hunks.len()
            invariant
                i <= file.hunks.len(),
                m == model::hunk_models(file.hunks@),
                all == forall|j: int| 0 <= j < i ==> is_synthetic(#[trigger] m[j]),
            decreases file.hunks.len() - i,
        {
            assert(m[i as int] == file.hunks@[i as int]@);
            if !synthetic_hunk(&file.hunks[i]) {
                all = false;
            }
            i += 1;
        }
        if file.mode_change && all {
            StagePrompt::ModeChange
        } else if file.added {
            StagePrompt::Addition
        } else {
            StagePrompt::Hunk
        }
    }
}

/// Session knobs for auto-advance, the hunk editor, and apply-check blobs.
#[derive(Debug, Clone)]
pub struct SessionOptions {
    pub auto_advance: bool,
    /// `$GIT_EDITOR` / `core.editor` command, already resolved by the caller.
    pub editor: Option<String>,
    /// Gitdir path for `ADD_EDIT.patch`.
    pub edit_path: Option<String>,
    /// Index blob bytes aligned with the session `files` slice.
    pub index_blobs: Vec<Vec<u8>>,
    /// Prompt / help verb (`Stage` / `Unstage` / `Apply … to index`).
    pub kind: PatchSessionKind,
}

impl Default for SessionOptions {
    fn default() -> (r: Self)
        ensures
            r.auto_advance,
            r.editor is None,
            r.edit_path is None,
            r.index_blobs@.len() == 0,
            r.kind == PatchSessionKind::Stage,
    {
        SessionOptions {
            auto_advance: true,
            editor: None,
            edit_path: None,
            index_blobs: Vec::new(),
            kind: PatchSessionKind::Stage,
        }
    }
}

//// Prompts and help

/// `t` where `c` holds, nothing otherwise.
pub open spec fn only_if(c: bool, t: Seq<char>) -> Seq<char> {
    if c {
        t
    } else {
        Seq::empty()
    }
}

fn push_if(out: &mut String, c: bool, t: &str)
    ensures
        final(out)@ == old(out)@ + only_if(c, t@),
{
    if c {
        out.append(t);
    } else {
        assert(old(out)@ + only_if(c, t@) =~= old(out)@);
    }
}

/// The letters that a prompt offers, in Git's order.
pub open spec fn letters_text(
    hunk_index: int,
    hunk_count: int,
    has_later_undecided: bool,
    has_earlier_undecided: bool,
    auto_advance: bool,
    file_count: int,
    splittable: bool,
    editable: bool,
) -> Seq<char> {
    "y,n,q,a,d"@ + only_if(hunk_index > 0 && has_earlier_undecided, ",k"@) + only_if(
        hunk_index > 0,
        ",K"@,
    ) + only_if(has_later_undecided, ",j"@) + only_if(hunk_index + 1 < hunk_count, ",J"@) + only_if(
        hunk_count > 1,
        ",g,/"@,
    ) + only_if(splittable, ",s"@) + only_if(editable, ",e"@) + only_if(
        !auto_advance && file_count > 1,
        ",>,<"@,
    ) + ",p,P,?"@
}

/// Letters Git would offer. `s` appears only when the current hunk is
/// splittable; `e` appears when the hunk is editable; `>`/`<` appear only
/// when auto-advance is off and more than one file exists.
pub fn available_letters(
    hunk_index: usize,
    hunk_count: usize,
    has_later_undecided: bool,
    has_earlier_undecided: bool,
) -> (r: String)
    ensures
        r@ == letters_text(
            hunk_index as int,
            hunk_count as int,
            has_later_undecided,
            has_earlier_undecided,
            true,
            1,
            false,
            true,
        ),
{
    available_letters_ex(
        hunk_index,
        hunk_count,
        has_later_undecided,
        has_earlier_undecided,
        true,
        1,
        false,
        true,
    )
}

pub fn available_letters_ex(
    hunk_index: usize,
    hunk_count: usize,
    has_later_undecided: bool,
    has_earlier_undecided: bool,
    auto_advance: bool,
    file_count: usize,
    splittable: bool,
    editable: bool,
) -> (r: String)
    ensures
        r@ == letters_text(
            hunk_index as int,
            hunk_count as int,
            has_later_undecided,
            has_earlier_undecided,
            auto_advance,
            file_count as int,
            splittable,
            editable,
        ),
{
    let mut letters = "y,n,q,a,d".to_owned();
    push_if(&mut letters, hunk_index > 0 && has_earlier_undecided, ",k");
    push_if(&mut letters, hunk_index > 0, ",K");
    push_if(&mut letters, has_later_undecided, ",j");
    push_if(&mut letters, hunk_count > 0 && hunk_index < hunk_count - 1, ",J");
    push_if(&mut letters, hunk_count > 1, ",g,/");
    push_if(&mut letters, splittable, ",s");
    push_if(&mut letters, editable, ",e");
    push_if(&mut letters, !auto_advance && file_count > 1, ",>,<");
    letters.append(",p,P,?");
    letters
}

/// What a prompt says of an earlier decision.
pub open spec fn was_text(was: Option<HunkUse>) -> Seq<char> {
    match was {
        Some(HunkUse::Use) => " (was: y)"@,
        Some(HunkUse::Skip) => " (was: n)"@,
        _ => ""@,
    }
}

pub open spec fn at_least_one(n: int) -> int {
    if n > 1 {
        n
    } else {
        1
    }
}

pub open spec fn prompt_text(
    hunk_index: int,
    hunk_count: int,
    prompt: StagePrompt,
    letters: Seq<char>,
    was: Option<HunkUse>,
    kind: PatchSessionKind,
) -> Seq<char> {
    "("@ + text::decimal((hunk_index + 1) as nat) + "/"@ + text::decimal(
        at_least_one(hunk_count) as nat,
    ) + ") "@ + prompt_verb(prompt, kind) + was_text(was) + " ["@ + letters + "]? "@
}

pub fn format_prompt(
    hunk_index: usize,
    hunk_count: usize,
    prompt: StagePrompt,
    letters: &str,
    was: Option<HunkUse>,
    kind: PatchSessionKind,
) -> (r: String)
    requires
        hunk_index < usize::MAX,
    ensures
        r@ == prompt_text(
            hunk_index as int,
            hunk_count as int,
            prompt,
            letters@,
            was,
            kind,
        ),
{
    let mut out = "(".to_owned();
    out.append(decimal_text((hunk_index + 1) as u64).as_str());
    out.append("/");
    let count = if hunk_count > 1 {
        hunk_count
    } else {
        1
    };
    out.append(decimal_text(count as u64).as_str());
    out.append(") ");
    out.append(prompt.as_str(kind));
    let was = match was {
        Some(HunkUse::Use) => " (was: y)",
        Some(HunkUse::Skip) => " (was: n)",
        _ => "",
    };
    out.append(was);
    out.append(" [");
    out.append(letters);
    out.append("]? ");
    out
}

/// Whether a comma-separated list of letters holds `c`.
pub open spec fn offers(letters: Seq<char>, c: char) -> bool {
    text::split_on(letters, ',').contains(seq![c])
}

/// The help line of a letter, where it is offered.
pub open spec fn help_line(letters: Seq<char>, c: char, t: Seq<char>) -> Seq<char> {
    only_if(offers(letters, c), seq![c] + " - "@ + t + "\n"@)
}

/// What the five deciding letters do.
pub open spec fn verb_help(kind: PatchSessionKind) -> (
    Seq<char>,
    Seq<char>,
    Seq<char>,
    Seq<char>,
    Seq<char>,
) {
    match kind {
        PatchSessionKind::Stage => (
            "stage this hunk"@,
            "do not stage this hunk"@,
            "quit; do not stage this hunk or any of the remaining ones"@,
            "stage this hunk and all later hunks in the file"@,
            "do not stage this hunk or any of the later hunks in the file"@,
        ),
        PatchSessionKind::Unstage => (
            "unstage this hunk"@,
            "do not unstage this hunk"@,
            "quit; do not unstage this hunk or any of the remaining ones"@,
            "unstage this hunk and all later hunks in the file"@,
            "do not unstage this hunk or any of the later hunks in the file"@,
        ),
        PatchSessionKind::ApplyToIndex => (
            "apply this hunk to index"@,
            "do not apply this hunk to index"@,
            "quit; do not apply this hunk or any of the remaining ones"@,
            "apply this hunk and all later hunks in the file"@,
            "do not apply this hunk or any of the later hunks in the file"@,
        ),
    }
}

/// The help for the letters that are offered.
pub open spec fn help(letters: Seq<char>, kind: PatchSessionKind) -> Seq<char> {
    let v = verb_help(kind);
    Seq::<char>::empty() + help_line(letters, 'y', v.0) + help_line(letters, 'n', v.1) + help_line(
        letters,
        'q',
        v.2,
    ) + help_line(letters, 'a', v.3) + help_line(letters, 'd', v.4) + help_line(
        letters,
        'j',
        "leave this hunk undecided, see next undecided hunk"@,
    ) + help_line(letters, 'J', "leave this hunk undecided, see next hunk"@) + help_line(
        letters,
        'k',
        "leave this hunk undecided, see previous undecided hunk"@,
    ) + help_line(letters, 'K', "leave this hunk undecided, see previous hunk"@) + help_line(
        letters,
        'g',
        "select a hunk to go to"@,
    ) + help_line(letters, '/', "search for a hunk matching the given regex"@) + help_line(
        letters,
        's',
        "split the current hunk into smaller hunks"@,
    ) + help_line(letters, 'e', "manually edit the current hunk"@) + help_line(
        letters,
        '>',
        "select the next file"@,
    ) + help_line(letters, '<', "select the previous file"@) + help_line(
        letters,
        'p',
        "print the current hunk"@,
    ) + help_line(letters, 'P', "print the current hunk using the pager"@) + help_line(
        letters,
        '?',
        "print help"@,
    )
}

fn push_help(out: &mut String, items: &[Vec<char>], Ghost(letters): Ghost<Seq<char>>, c: char, t: &str)
    requires
        text::char_views(items@) == text::split_on(letters, ','),
    ensures
        final(out)@ == old(out)@ + help_line(letters, c, t@),
{
    let ghost m = text::char_views(items@);
    let mut found = false;
    let mut i: usize = 0;
    while i < items.len()
        invariant
            i <= items.len(),
            m == text::char_views(items@),
            found == exists|j: int| 0 <= j < i && #[trigger] m[j] == seq![c],
        decreases items.len() - i,
    {
        assert(m[i as int] == items@[i as int]@);
        if items[i].len() == 1 && items[i][0] == c {
            found = true;
            assert(m[i as int] =~= seq![c]);
        } else {
            assert(m[i as int] != seq![c]) by {
                if m[i as int] == seq![c] {
                    assert(m[i as int].len() == 1 && m[i as int][0] == c);
                }
            }
        }
        i += 1;
    }
    assert(found == offers(letters, c));
    if found {
        let ghost start = out@;
        out.push(c);
        out.append(" - ");
        out.append(t);
        out.append("\n");
        assert(out@ =~= start + (seq![c] + " - "@ + t@ + "\n"@));
    } else {
        assert(old(out)@ + help_line(letters, c, t@) =~= old(out)@);
    }
}

pub fn help_text(letters: &str) -> (r: String)
    ensures
        r@ == help(letters@, PatchSessionKind::Stage),
{
    help_text_for(letters, PatchSessionKind::Stage)
}

pub fn help_text_for(letters: &str, kind: PatchSessionKind) -> (r: String)
    ensures
        r@ == help(letters@, kind),
{
    let cs = chars_of(letters);
    let found = text::cut_all(cs.as_slice(), ',');
    let items = found.as_slice();
    let ghost l = letters@;
    let (y, n, q, a, d) = match kind {
        PatchSessionKind::Stage => (
            "stage this hunk",
            "do not stage this hunk",
            "quit; do not stage this hunk or any of the remaining ones",
            "stage this hunk and all later hunks in the file",
            "do not stage this hunk or any of the later hunks in the file",
        ),
        PatchSessionKind::Unstage => (
            "unstage this hunk",
            "do not unstage this hunk",
            "quit; do not unstage this hunk or any of the remaining ones",
            "unstage this hunk and all later hunks in the file",
            "do not unstage this hunk or any of the later hunks in the file",
        ),
        PatchSessionKind::ApplyToIndex => (
            "apply this hunk to index",
            "do not apply this hunk to index",
            "quit; do not apply this hunk or any of the remaining ones",
            "apply this hunk and all later hunks in the file",
            "do not apply this hunk or any of the later hunks in the file",
        ),
    };
    let mut out = String::new();
    push_help(&mut out, items, Ghost(l), 'y', y);
    push_help(&mut out, items, Ghost(l), 'n', n);
    push_help(&mut out, items, Ghost(l), 'q', q);
    push_help(&mut out, items, Ghost(l), 'a', a);
    push_help(&mut out, items, Ghost(l), 'd', d);
    push_help(
        &mut out,
        items,
        Ghost(l),
        'j',
        "leave this hunk undecided, see next undecided hunk",
    );
    push_help(&mut out, items, Ghost(l), 'J', "leave this hunk undecided, see next hunk");
    push_help(
        &mut out,
        items,
        Ghost(l),
        'k',
        "leave this hunk undecided, see previous undecided hunk",
    );
    push_help(&mut out, items, Ghost(l), 'K', "leave this hunk undecided, see previous hunk");
    push_help(&mut out, items, Ghost(l), 'g', "select a hunk to go to");
    push_help(&mut out, items, Ghost(l), '/', "search for a hunk matching the given regex");
    push_help(&mut out, items, Ghost(l), 's', "split the current hunk into smaller hunks");
    push_help(&mut out, items, Ghost(l), 'e', "manually edit the current hunk");
    push_help(&mut out, items, Ghost(l), '>', "select the next file");
    push_help(&mut out, items, Ghost(l), '<', "select the previous file");
    push_help(&mut out, items, Ghost(l), 'p', "print the current hunk");
    push_help(&mut out, items, Ghost(l), 'P', "print the current hunk using the pager");
    push_help(&mut out, items, Ghost(l), '?', "print help");
    out
}

/// How many hunks carry the decision `d`.
pub open spec fn decided_count(hunks: Seq<model::HunkModel>, d: HunkUse) -> nat
    decreases hunks.len(),
{
    if hunks.len() == 0 {
        0
    } else {
        decided_count(hunks.drop_last(), d) + if hunks.last().use_decision == d {
            1nat
        } else {
            0nat
        }
    }
}

/// The summary of a file whose hunks are all decided.
pub open spec fn summary(f: model::FileModel) -> Option<Seq<char>> {
    if decided_count(f.hunks, HunkUse::Undecided) > 0 {
        None
    } else {
        Some(
            "HUNKS SUMMARY - Hunks: "@ + text::decimal(f.hunks.len()) + ", USE: "@ + text::decimal(
                decided_count(f.hunks, HunkUse::Use),
            ) + ", SKIP: "@ + text::decimal(decided_count(f.hunks, HunkUse::Skip)),
        )
    }
}

fn count_decided(hunks: &[Hunk], d: HunkUse) -> (r: usize)
    ensures
        r == decided_count(model::hunk_models(hunks@), d),
{
    let ghost m = model::hunk_models(hunks@);
    let mut n: usize = 0;
    let mut i: usize = 0;
    while i < hunks.len()
        invariant
            i <= hunks.len(),
            n <= i,
            m == model::hunk_models(hunks@),
            n == decided_count(m.take(i as int), d),
        decreases hunks.len() - i,
    {
        assert(m.take(i + 1).drop_last() =~= m.take(i as int));
        if hunks[i].use_decision == d {
            n += 1;
        }
        i += 1;
    }
    assert(m.take(i as int) =~= m);
    n
}

pub fn hunks_summary(file: &FileDiff) -> (r: Option<String>)
    ensures
        text::opt_text(r) == summary(file@),
{
    let hunks = file.hunks.as_slice();
    assert(file@.hunks.len() == hunks@.len());
    if count_decided(hunks, HunkUse::Undecided) > 0 {
        return None;
    }
    let mut out = "HUNKS SUMMARY - Hunks: ".to_owned();
    out.append(decimal_text(hunks.len() as u64).as_str());
    out.append(", USE: ");
    out.append(decimal_text(count_decided(hunks, HunkUse::Use) as u64).as_str());
    out.append(", SKIP: ");
    out.append(decimal_text(count_decided(hunks, HunkUse::Skip) as u64).as_str());
    Some(out)
}

#[derive(Debug, Clone, Copy, PartialEq, Eq, Structural)]
pub enum SessionAction {
    Continue,
    Quit,
}

//// The state machine

/// What a session waits for.
#[derive(Debug, Clone, Copy, PartialEq, Eq, Structural)]
pub enum SessionPhase {
    /// The answer to the prompt.
    Answer,
    /// The number of the hunk to go to.
    Goto,
    /// The pattern to search for.
    Search,
    /// The text that the editor made of the buffer.
    Edit,
    /// Whether to edit again.
    Retry,
    /// Nothing: the session is over.
    Done,
}

/// What happened outside a session.
#[derive(Debug, PartialEq, Eq)]
pub enum SessionEvent {
    /// A line of input, with its newline.
    Line(String),
    EndOfInput,
    /// The contents of the edit buffer after the editor ran.
    Edited(String),
    EditorFailed,
}

pub enum EventModel {
    Line(Seq<char>),
    EndOfInput,
    Edited(Seq<char>),
    EditorFailed,
}

impl View for SessionEvent {
    type V = EventModel;

    open spec fn view(&self) -> EventModel {
        match self {
            SessionEvent::Line(l) => EventModel::Line(l@),
            SessionEvent::EndOfInput => EventModel::EndOfInput,
            SessionEvent::Edited(t) => EventModel::Edited(t@),
            SessionEvent::EditorFailed => EventModel::EditorFailed,
        }
    }
}

/// What a session asks of its surroundings, once its output is written.
#[derive(Debug, PartialEq, Eq)]
pub enum SessionRequest {
    /// Read one line of input.
    Line,
    /// Run the editor on this buffer.
    Edit(String),
    /// Stop.
    Finish(SessionAction),
}

pub enum RequestModel {
    Line,
    Edit(Seq<char>),
    Finish(SessionAction),
}

impl View for SessionRequest {
    type V = RequestModel;

    open spec fn view(&self) -> RequestModel {
        match self {
            SessionRequest::Line => RequestModel::Line,
            SessionRequest::Edit(t) => RequestModel::Edit(t@),
            SessionRequest::Finish(a) => RequestModel::Finish(*a),
        }
    }
}

/// What of the options a session goes by.
#[verifier::ext_equal]
pub struct OptionsModel {
    pub auto_advance: bool,
    pub editor: Option<Seq<char>>,
    pub edit_path: Option<Seq<char>>,
    pub blobs: Seq<Seq<u8>>,
    pub kind: PatchSessionKind,
}

impl View for SessionOptions {
    type V = OptionsModel;

    open spec fn view(&self) -> OptionsModel {
        OptionsModel {
            auto_advance: self.auto_advance,
            editor: text::opt_text(self.editor),
            edit_path: text::opt_text(self.edit_path),
            blobs: self.index_blobs@.map_values(|b: Vec<u8>| b@),
            kind: self.kind,
        }
    }
}

/// The state of a session: the files with their decisions, which of them can
/// be asked about, the one that is, and where in each file the cursor stands.
#[verifier::ext_equal]
pub struct SessionModel {
    pub files: Seq<model::FileModel>,
    pub selectable: Seq<int>,
    pub sel: int,
    pub cursors: Seq<int>,
    pub last_rendered: Option<int>,
    pub phase: SessionPhase,
}

/// What one step leads to.
#[verifier::ext_equal]
pub struct StepModel {
    pub session: SessionModel,
    pub output: Seq<char>,
    pub request: RequestModel,
}

/// The file with a hunk to ask about, where it has none but changed.
pub open spec fn with_slot(f: model::FileModel) -> model::FileModel {
    if f.hunks.len() == 0 && (f.mode_change || f.deleted || f.added) {
        model::FileModel {
            hunks: seq![
                model::HunkModel {
                    old_start: 0,
                    old_lines: 0,
                    new_start: 0,
                    new_lines: 0,
                    header: Seq::empty(),
                    lines: Seq::empty(),
                    no_newline_old: false,
                    no_newline_new: false,
                    use_decision: HunkUse::Undecided,
                },
            ],
            ..f
        }
    } else {
        f
    }
}

/// The file with the decision `d` on its hunk at `i`, if it has one there.
pub open spec fn with_decision(f: model::FileModel, i: int, d: HunkUse) -> model::FileModel {
    if 0 <= i < f.hunks.len() {
        model::FileModel {
            hunks: f.hunks.update(i, model::HunkModel { use_decision: d, ..f.hunks[i] }),
            ..f
        }
    } else {
        f
    }
}

/// The file with the decision `d` on its hunks from `i` on.
pub open spec fn with_decisions_from(f: model::FileModel, i: int, d: HunkUse) -> model::FileModel {
    model::FileModel {
        hunks: Seq::new(
            f.hunks.len(),
            |j: int|
                if j < i {
                    f.hunks[j]
                } else {
                    model::HunkModel { use_decision: d, ..f.hunks[j] }
                },
        ),
        ..f
    }
}

/// Whether any hunk of `lo..hi` is undecided.
pub open spec fn undecided_in(hunks: Seq<model::HunkModel>, lo: int, hi: int) -> bool {
    exists|i: int| lo <= i < hi && (#[trigger] hunks[i]).use_decision is Undecided
}

/// The letters offered at hunk `c` of `f`.
pub open spec fn letters_at(f: model::FileModel, c: int, file_count: int, o: OptionsModel) -> Seq<
    char,
> {
    let n = f.hunks.len() as int;
    letters_text(
        c,
        at_least_one(n),
        undecided_in(f.hunks, c + 1, n),
        undecided_in(f.hunks, 0, c),
        o.auto_advance,
        file_count,
        c < n && model::split_pieces(f.hunks[c]) is Some,
        c < n && edit::editable(f, f.hunks[c]),
    )
}

/// A hunk as the prompt shows it.
pub open spec fn shown(f: model::FileModel, c: int, with_header: bool) -> Seq<char> {
    only_if(with_header, f.header) + only_if(
        c < f.hunks.len() && f.hunks[c].header.len() > 0,
        f.hunks[c].header + "\n"@ + model::lines_text(f.hunks[c].lines),
    )
}

/// The decision that a hunk already carries.
pub open spec fn earlier_decision(f: model::FileModel, c: int) -> Option<HunkUse> {
    if c < f.hunks.len() && !(f.hunks[c].use_decision is Undecided) {
        Some(f.hunks[c].use_decision)
    } else {
        None
    }
}

/// A hunk is split where it has more than one island and the line numbers of
/// the parts are machine numbers.
pub open spec fn can_split(h: model::HunkModel) -> bool {
    model::split_pieces(h) is Some && model::numbers_fit(h)
}

/// The next undecided hunk from `i` on, in the direction `step`.
pub open spec fn next_undecided(hunks: Seq<model::HunkModel>, i: int, forward: bool) -> Option<int>
    decreases (if forward { hunks.len() - i } else { i + 1 }),
{
    if i < 0 || i >= hunks.len() {
        None
    } else if hunks[i].use_decision is Undecided {
        Some(i)
    } else if forward {
        next_undecided(hunks, i + 1, forward)
    } else {
        next_undecided(hunks, i - 1, forward)
    }
}

/// Whether the pattern `p` is found in `t`; `None` where `p` is no pattern.
pub uninterp spec fn regex_search(p: Seq<char>, t: Seq<char>) -> Option<bool>;

/// `regex::Regex::new` and `Regex::is_match`: what [`regex_search`] names.
/// Which patterns are valid and what they match is not stated.
#[verifier::external_body]
fn search_regex(p: &str, t: &str) -> (r: Option<bool>)
    ensures
        r == regex_search(p@, t@),
{
    match regex::Regex::new(p) {
        Ok(re) => Some(re.is_match(t)),
        Err(_) => None,
    }
}

/// A hunk line as a search sees it.
pub open spec fn line_debug(l: model::LineModel) -> Seq<char> {
    (match l {
        model::LineModel::Context(_) => "Context("@,
        model::LineModel::Delete(_) => "Delete("@,
        model::LineModel::Insert(_) => "Insert("@,
    }) + apply::debug_of(l.text()) + ")"@
}

/// Hunk lines as a search sees them, with commas between.
pub open spec fn lines_debug(lines: Seq<model::LineModel>) -> Seq<char>
    decreases lines.len(),
{
    if lines.len() == 0 {
        Seq::empty()
    } else if lines.len() == 1 {
        line_debug(lines[0])
    } else {
        lines_debug(lines.drop_last()) + ", "@ + line_debug(lines.last())
    }
}

/// The text of a hunk that a search looks through: its header and the
/// debugging form of its lines.
pub open spec fn search_text(h: model::HunkModel) -> Seq<char> {
    h.header + "["@ + lines_debug(h.lines) + "]"@
}

/// The first other hunk that `p` is found in, looking from the `k`-th behind
/// hunk `c` on and round to the start.
pub open spec fn found_from(hunks: Seq<model::HunkModel>, c: int, p: Seq<char>, k: int) -> Option<
    int,
>
    decreases hunks.len() - k,
{
    if k < 0 || k >= hunks.len() {
        None
    } else {
        let i = (c + 1 + k) % (hunks.len() as int);
        if i != c && regex_search(p, search_text(hunks[i])) == Some(true) {
            Some(i)
        } else {
            found_from(hunks, c, p, k + 1)
        }
    }
}

/// Whether an answer is a single letter.
pub open spec fn is_letter(a: Seq<char>) -> bool {
    a.len() == 1 && a[0] <= '\u{7f}'
}

impl SessionModel {
    pub open spec fn file_index(self) -> int {
        self.selectable[self.sel]
    }

    pub open spec fn file(self) -> model::FileModel {
        self.files[self.file_index()]
    }

    pub open spec fn cursor(self) -> int {
        self.cursors[self.file_index()]
    }

    pub open spec fn with_file(self, f: model::FileModel) -> SessionModel {
        SessionModel { files: self.files.update(self.file_index(), f), ..self }
    }

    pub open spec fn with_cursor(self, c: int) -> SessionModel {
        SessionModel { cursors: self.cursors.update(self.file_index(), c), ..self }
    }

    /// What holds of every session: each file that is asked about exists and
    /// is no binary one, and while the session runs the cursor stands on a
    /// hunk of the file at hand.
    pub open spec fn wf(self) -> bool {
        &&& self.cursors.len() == self.files.len()
        &&& forall|k: int|
            0 <= k < self.selectable.len() ==> 0 <= #[trigger] self.selectable[k]
                < self.files.len() && !self.files[self.selectable[k]].binary
        &&& forall|i: int| 0 <= i < self.cursors.len() ==> 0 <= #[trigger] self.cursors[i]
        &&& 0 <= self.sel
        &&& !(self.phase is Done) ==> self.sel < self.selectable.len() && self.cursor()
            < at_least_one(self.file().hunks.len() as int)
        &&& self.phase is Search || self.phase is Edit || self.phase is Retry ==> self.cursor()
            < self.file().hunks.len()
    }

    pub open spec fn finish(self, a: SessionAction) -> StepModel {
        StepModel {
            session: SessionModel { phase: SessionPhase::Done, ..self },
            output: Seq::empty(),
            request: RequestModel::Finish(a),
        }
    }

    /// Shows the hunk under the cursor, behind the file's header where another
    /// file came before, and asks.
    pub open spec fn prompt(self, o: OptionsModel) -> StepModel {
        let f = with_slot(self.file());
        let n = at_least_one(f.hunks.len() as int);
        let c = if self.cursor() < n {
            self.cursor()
        } else {
            n - 1
        };
        StepModel {
            session: SessionModel {
                last_rendered: Some(self.file_index()),
                phase: SessionPhase::Answer,
                ..self.with_file(f).with_cursor(c)
            },
            output: asked(
                f,
                c,
                self.last_rendered != Some(self.file_index()),
                self.selectable.len() as int,
                o,
            ),
            request: RequestModel::Line,
        }
    }

    /// The next prompt, or the end behind the last file.
    pub open spec fn proceed(self, o: OptionsModel) -> StepModel {
        if self.sel >= self.selectable.len() {
            self.finish(SessionAction::Continue)
        } else {
            self.prompt(o)
        }
    }

    /// Writes `t`, then goes on.
    pub open spec fn say(self, o: OptionsModel, t: Seq<char>) -> StepModel {
        let p = self.proceed(o);
        StepModel { output: t + p.output, ..p }
    }

    /// The next hunk, or the next file behind the last one; nowhere without
    /// auto-advance.
    pub open spec fn advanced(self, o: OptionsModel) -> SessionModel {
        if !o.auto_advance {
            self
        } else if self.cursor() + 1 < at_least_one(self.file().hunks.len() as int) {
            self.with_cursor(self.cursor() + 1)
        } else {
            SessionModel { sel: self.sel + 1, ..self }
        }
    }

    /// The decision `d` on the rest of the file, and on to the next one.
    pub open spec fn decide_rest(self, o: OptionsModel, d: HunkUse) -> SessionModel {
        let s = self.with_file(with_decisions_from(self.file(), self.cursor(), d));
        if o.auto_advance {
            SessionModel { sel: s.sel + 1, ..s }
        } else {
            s
        }
    }

    pub open spec fn move_undecided(self, o: OptionsModel, forward: bool) -> StepModel {
        let from = if forward {
            self.cursor() + 1
        } else {
            self.cursor() - 1
        };
        match next_undecided(self.file().hunks, from, forward) {
            Some(i) => self.with_cursor(i).proceed(o),
            None => self.say(o, "No other hunk\n"@),
        }
    }

    /// The next or the previous hunk, whatever was decided on it.
    pub open spec fn move_any(self, o: OptionsModel, forward: bool) -> StepModel {
        let c = self.cursor();
        if forward && c + 1 < at_least_one(self.file().hunks.len() as int) {
            self.with_cursor(c + 1).proceed(o)
        } else if !forward && c > 0 {
            self.with_cursor(c - 1).proceed(o)
        } else {
            self.say(o, "No other hunk\n"@)
        }
    }

    pub open spec fn split(self, o: OptionsModel) -> StepModel {
        let f = self.file();
        let c = self.cursor();
        if c < f.hunks.len() && can_split(f.hunks[c]) {
            let pieces = model::split_pieces(f.hunks[c])->0;
            self.with_file(
                model::FileModel { hunks: f.hunks.take(c) + pieces + f.hunks.skip(c + 1), ..f },
            ).say(o, "Split into "@ + text::decimal(pieces.len()) + " hunks.\n"@)
        } else {
            self.say(o, "Sorry, cannot split this hunk\n"@)
        }
    }

    /// Asks for an edit of the hunk under the cursor.
    pub open spec fn ask_edit(self) -> StepModel {
        StepModel {
            session: SessionModel { phase: SessionPhase::Edit, ..self },
            output: Seq::empty(),
            request: RequestModel::Edit(edit::edit_buffer(self.file().hunks[self.cursor()])),
        }
    }

    pub open spec fn start_edit(self, o: OptionsModel) -> StepModel {
        let f = self.file();
        let c = self.cursor();
        if c < f.hunks.len() && edit::editable(f, f.hunks[c]) && o.editor is Some {
            self.ask_edit()
        } else {
            self.say(o, CANNOT_EDIT@ + "\n"@)
        }
    }

    pub open spec fn ask_retry(self) -> StepModel {
        StepModel {
            session: SessionModel { phase: SessionPhase::Retry, ..self },
            output: EDIT_RETRY_PROMPT@,
            request: RequestModel::Line,
        }
    }

    /// Whether the edited hunk applies to the blob of the file, where that is
    /// known.
    pub open spec fn edit_applies(self, o: OptionsModel, h: model::HunkModel) -> bool {
        self.file_index() < o.blobs.len() ==> apply::applied(
            o.blobs[self.file_index()],
            edit::with_trial(self.file(), self.cursor(), h),
            apply::PatchApplyMode::Stage,
        ) is Ok
    }

    /// Takes the text that the editor left: an empty hunk is dropped, one that
    /// applies is used, another is asked about.
    pub open spec fn read_edit(self, o: OptionsModel, t: Seq<char>) -> StepModel {
        let f = self.file();
        let c = self.cursor();
        if c >= f.hunks.len() {
            self.proceed(o)
        } else {
            match edit::edited(t, f.hunks[c]) {
                Ok(edit::EditedModel::Abandoned) => self.proceed(o),
                Ok(edit::EditedModel::Hunk(h)) => if self.edit_applies(o, h) {
                    self.with_file(edit::with_trial(f, c, h)).advanced(o).proceed(o)
                } else {
                    self.ask_retry()
                },
                Err(_) => self.ask_retry(),
            }
        }
    }

    pub open spec fn read_retry(self, o: OptionsModel, l: Seq<char>) -> StepModel {
        if l.len() > 0 && (l[0] == 'n' || l[0] == 'N') {
            self.proceed(o)
        } else if l.len() > 0 && (l[0] == 'y' || l[0] == 'Y') {
            self.ask_edit()
        } else {
            self.ask_retry()
        }
    }

    pub open spec fn go_to(self, o: OptionsModel, a: Seq<char>) -> StepModel {
        match text::parse_unsigned(a, 10, usize::MAX as int) {
            Some(n) => if 1 <= n <= self.file().hunks.len() {
                self.with_cursor(n - 1).proceed(o)
            } else {
                self.say(o, "No other hunks to goto\n"@)
            },
            None => self.say(o, "No other hunks to goto\n"@),
        }
    }

    pub open spec fn search_for(self, o: OptionsModel, p: Seq<char>) -> StepModel {
        if p.len() == 0 {
            self.say(o, "No other hunks to search\n"@)
        } else {
            match found_from(self.file().hunks, self.cursor(), p, 0) {
                Some(i) => self.with_cursor(i).proceed(o),
                None => self.say(o, "No other hunks to search\n"@),
            }
        }
    }

    pub open spec fn ask_more(self, phase: SessionPhase, t: Seq<char>) -> StepModel {
        StepModel {
            session: SessionModel { phase, ..self },
            output: t,
            request: RequestModel::Line,
        }
    }

    pub open spec fn goto_answer(self, o: OptionsModel, a: Seq<char>) -> StepModel {
        if self.file().hunks.len() <= 1 {
            self.say(o, "No other hunks to goto\n"@)
        } else if text::trim(a.drop_first()).len() == 0 {
            self.ask_more(SessionPhase::Goto, "go to which hunk? "@)
        } else {
            self.go_to(o, text::trim(a.drop_first()))
        }
    }

    pub open spec fn search_answer(self, o: OptionsModel, a: Seq<char>) -> StepModel {
        if self.file().hunks.len() <= 1 {
            self.say(o, "No other hunks to search\n"@)
        } else if text::trim(a.drop_first()).len() == 0 {
            self.ask_more(SessionPhase::Search, "search for regex? "@)
        } else {
            self.search_for(o, text::trim(a.drop_first()))
        }
    }

    /// The file `by` places on, round the list of files.
    pub open spec fn other_file(self, o: OptionsModel, by: int, none: Seq<char>) -> StepModel {
        if self.selectable.len() <= 1 {
            self.say(o, none)
        } else {
            SessionModel {
                sel: (self.sel + by) % (self.selectable.len() as int),
                ..self
            }.proceed(o)
        }
    }

    pub open spec fn show_help(self, o: OptionsModel) -> StepModel {
        let f = self.file();
        let letters = letters_at(f, self.cursor(), self.selectable.len() as int, o);
        self.say(
            o,
            help(letters, o.kind) + (match summary(f) {
                Some(t) => t + "\n"@,
                None => Seq::empty(),
            }),
        )
    }

    /// What the answer to a prompt does.
    #[verifier::opaque]
    pub open spec fn answer(self, o: OptionsModel, a: Seq<char>) -> StepModel {
        let f = self.file();
        let c = self.cursor();
        if a.len() > 0 && a[0] == 'g' {
            self.goto_answer(o, a)
        } else if a.len() > 0 && a[0] == '/' {
            self.search_answer(o, a)
        } else if !is_letter(a) {
            self.say(o, "Only one letter is expected, got '"@ + a + "'\n"@)
        } else if a[0] == 'y' {
            self.with_file(with_decision(f, c, HunkUse::Use)).advanced(o).proceed(o)
        } else if a[0] == 'n' {
            self.with_file(with_decision(f, c, HunkUse::Skip)).advanced(o).proceed(o)
        } else if a[0] == 'q' {
            self.finish(SessionAction::Quit)
        } else if a[0] == 'a' {
            self.decide_rest(o, HunkUse::Use).proceed(o)
        } else if a[0] == 'd' {
            self.decide_rest(o, HunkUse::Skip).proceed(o)
        } else if a[0] == 'j' {
            self.move_undecided(o, true)
        } else if a[0] == 'k' {
            self.move_undecided(o, false)
        } else if a[0] == 'J' {
            self.move_any(o, true)
        } else if a[0] == 'K' {
            self.move_any(o, false)
        } else if a[0] == 's' {
            self.split(o)
        } else if a[0] == 'e' {
            self.start_edit(o)
        } else if a[0] == '>' && !o.auto_advance {
            self.other_file(o, 1, "No next file\n"@)
        } else if a[0] == '<' && !o.auto_advance {
            self.other_file(o, self.selectable.len() - 1, "No previous file\n"@)
        } else if a[0] == 'p' || a[0] == 'P' {
            self.proceed(o)
        } else if a[0] == '?' {
            self.show_help(o)
        } else {
            self.say(o, "Unknown command '"@ + a + "' (use '?' for help)\n"@)
        }
    }

    /// One step of the session. An event that it does not wait for ends it.
    #[verifier::opaque]
    pub open spec fn step(self, o: OptionsModel, e: EventModel) -> StepModel {
        match (self.phase, e) {
            (SessionPhase::Answer, EventModel::Line(l)) => self.answer(o, text::trim_line_end(l)),
            (SessionPhase::Goto, EventModel::Line(l)) => self.go_to(o, text::trim_line_end(l)),
            (SessionPhase::Search, EventModel::Line(l)) => {
                self.search_for(o, text::trim_line_end(l))
            },
            (SessionPhase::Edit, EventModel::Edited(t)) => self.read_edit(o, t),
            (SessionPhase::Edit, EventModel::EditorFailed) => {
                self.say(o, CANNOT_EDIT@ + "\n"@)
            },
            (SessionPhase::Retry, EventModel::Line(l)) => self.read_retry(o, l),
            (SessionPhase::Retry, EventModel::EndOfInput) => self.proceed(o),
            _ => self.finish(SessionAction::Quit),
        }
    }
}

/// The files that can be asked about.
pub open spec fn selectable_files(files: Seq<model::FileModel>, n: int) -> Seq<int>
    decreases n,
{
    if n <= 0 {
        Seq::empty()
    } else if files[n - 1].binary {
        selectable_files(files, n - 1)
    } else {
        selectable_files(files, n - 1).push(n - 1)
    }
}

/// The first step of a session over `files`.
pub open spec fn opening(files: Seq<model::FileModel>, o: OptionsModel) -> StepModel {
    let s = SessionModel {
        files,
        selectable: selectable_files(files, files.len() as int),
        sel: 0,
        cursors: Seq::new(files.len(), |i: int| 0int),
        last_rendered: None,
        phase: SessionPhase::Answer,
    };
    if files.len() == 0 {
        StepModel { output: "No changes.\n"@, ..s.finish(SessionAction::Quit) }
    } else if s.selectable.len() == 0 {
        StepModel { output: "Only binary files changed.\n"@, ..s.finish(SessionAction::Quit) }
    } else {
        s.prompt(o)
    }
}

pub open spec fn ints(v: Seq<usize>) -> Seq<int> {
    v.map_values(|i: usize| i as int)
}

/// A patch-mode session.
pub struct Session {
    pub files: Vec<FileDiff>,
    pub selectable: Vec<usize>,
    pub sel: usize,
    pub cursors: Vec<usize>,
    pub last_rendered: Option<usize>,
    pub phase: SessionPhase,
    pub options: SessionOptions,
}

impl View for Session {
    type V = SessionModel;

    open spec fn view(&self) -> SessionModel {
        SessionModel {
            files: model::file_models(self.files@),
            selectable: ints(self.selectable@),
            sel: self.sel as int,
            cursors: ints(self.cursors@),
            last_rendered: match self.last_rendered {
                Some(i) => Some(i as int),
                None => None,
            },
            phase: self.phase,
        }
    }
}

/// Whether a step from `before` to `after`, which appended to `out0` and asked
/// for `r`, is the step `m`.
pub open spec fn stepped(
    before: Session,
    after: Session,
    out0: Seq<char>,
    out1: Seq<char>,
    r: SessionRequest,
    m: StepModel,
) -> bool {
    &&& after.options == before.options
    &&& after@ == m.session
    &&& out1 == out0 + m.output
    &&& r@ == m.request
}

fn ensure_hunk_slot(file: &mut FileDiff)
    ensures
        final(file)@ == with_slot(old(file)@),
{
    if file.hunks.len() == 0 && (file.mode_change || file.deleted || file.added) {
        let h = Hunk {
            old_start: 0,
            old_lines: 0,
            new_start: 0,
            new_lines: 0,
            header: String::new(),
            lines: Vec::new(),
            no_newline_old: false,
            no_newline_new: false,
            use_decision: HunkUse::Undecided,
        };
        assert(h@.lines =~= Seq::<model::LineModel>::empty());
        assert(h@.header =~= Seq::<char>::empty());
        file.hunks.push(h);
        assert(file@.hunks =~= with_slot(old(file)@).hunks);
    }
}

fn set_decision(file: &mut FileDiff, i: usize, d: HunkUse)
    ensures
        final(file)@ == with_decision(old(file)@, i as int, d),
{
    if i < file.hunks.len() {
        let mut h = file.hunks[i].clone();
        h.use_decision = d;
        file.hunks[i] = h;
        assert(file@.hunks =~= with_decision(old(file)@, i as int, d).hunks);
    }
}

fn set_decisions_from(file: &mut FileDiff, i: usize, d: HunkUse)
    ensures
        final(file)@ == with_decisions_from(old(file)@, i as int, d),
{
    let ghost start = file@;
    let n = file.hunks.len();
    let mut j: usize = i;
    while j < n
        invariant
            i <= j,
            n == file.hunks@.len(),
            start == old(file)@,
            file@ == (model::FileModel { hunks: file@.hunks, ..start }),
            file@.hunks.len() == start.hunks.len(),
            forall|k: int|
                0 <= k < n ==> #[trigger] file@.hunks[k] == if i <= k < j {
                    (model::HunkModel { use_decision: d, ..start.hunks[k] })
                } else {
                    start.hunks[k]
                },
        decreases n - j,
    {
        let ghost before = file@;
        let mut h = file.hunks[j].clone();
        assert(h@ == before.hunks[j as int]);
        h.use_decision = d;
        file.hunks[j] = h;
        assert(file@.hunks =~= before.hunks.update(
            j as int,
            (model::HunkModel { use_decision: d, ..start.hunks[j as int] }),
        ));
        j += 1;
    }
    assert(file@.hunks =~= with_decisions_from(start, i as int, d).hunks);
}

fn any_undecided(hunks: &[Hunk], lo: usize, hi: usize) -> (r: bool)
    requires
        hi <= hunks@.len(),
    ensures
        r == undecided_in(model::hunk_models(hunks@), lo as int, hi as int),
{
    let ghost m = model::hunk_models(hunks@);
    let mut i: usize = lo;
    while i < hi
        invariant
            lo <= i,
            hi <= hunks@.len(),
            m == model::hunk_models(hunks@),
            forall|j: int| lo <= j < i ==> !((#[trigger] m[j]).use_decision is Undecided),
        decreases hi - i,
    {
        assert(m[i as int] == hunks@[i as int]@);
        if hunks[i].use_decision == HunkUse::Undecided {
            return true;
        }
        i += 1;
    }
    false
}

fn count_of(hunks: &[Hunk]) -> (r: usize)
    ensures
        r == at_least_one(hunks@.len() as int),
{
    if hunks.len() > 1 {
        hunks.len()
    } else {
        1
    }
}

fn letters_for(file: &FileDiff, c: usize, file_count: usize, options: &SessionOptions) -> (r: String)
    requires
        c < at_least_one(file.hunks@.len() as int),
    ensures
        r@ == letters_at(file@, c as int, file_count as int, options@),
{
    let hunks = file.hunks.as_slice();
    let n = hunks.len();
    let ghost m = file@.hunks;
    assert(m.len() == n);
    let later = if c < n {
        any_undecided(hunks, c + 1, n)
    } else {
        false
    };
    let earlier = if c < n {
        any_undecided(hunks, 0, c)
    } else {
        false
    };
    let splittable = c < n && hunks[c].is_splittable();
    let editable = c < n && is_editable(file, &hunks[c]);
    available_letters_ex(
        c,
        count_of(hunks),
        later,
        earlier,
        options.auto_advance,
        file_count,
        splittable,
        editable,
    )
}

fn render_current(file: &FileDiff, c: usize, print_header: bool, out: &mut String)
    ensures
        final(out)@ == old(out)@ + shown(file@, c as int, print_header),
{
    let ghost start = out@;
    push_if(out, print_header, file.header.as_str());
    let ghost middle = out@;
    let ghost f = file@;
    let n = file.hunks.len();
    assert(f.hunks.len() == n);
    if c < n && file.hunks[c].header.as_str().unicode_len() > 0 {
        out.append(file.hunks[c].header.as_str());
        out.append("\n");
        model::push_lines_text(out, file.hunks[c].lines.as_slice());
        assert(f.hunks[c as int] == file.hunks@[c as int]@);
        assert(out@ =~= middle + (f.hunks[c as int].header + "\n"@ + model::lines_text(
            f.hunks[c as int].lines,
        )));
    }
    assert(out@ =~= start + shown(f, c as int, print_header));
}

/// What a prompt at hunk `c` of `f` writes.
#[verifier::opaque]
pub open spec fn asked(
    f: model::FileModel,
    c: int,
    with_header: bool,
    file_count: int,
    o: OptionsModel,
) -> Seq<char> {
    shown(f, c, with_header) + prompt_text(
        c,
        at_least_one(f.hunks.len() as int),
        prompt_of(f),
        letters_at(f, c, file_count, o),
        earlier_decision(f, c),
        o.kind,
    )
}

fn show_prompt(
    file: &FileDiff,
    c: usize,
    print_header: bool,
    file_count: usize,
    options: &SessionOptions,
    out: &mut String,
)
    requires
        c < at_least_one(file.hunks@.len() as int),
    ensures
        final(out)@ == old(out)@ + asked(
            file@,
            c as int,
            print_header,
            file_count as int,
            options@,
        ),
{
    proof {
        reveal(asked);
    }
    let n = file.hunks.len();
    render_current(file, c, print_header, out);
    let letters = letters_for(file, c, file_count, options);
    let prompt = StagePrompt::for_file(file);
    let was = if c < n && file.hunks[c].use_decision != HunkUse::Undecided {
        Some(file.hunks[c].use_decision)
    } else {
        None
    };
    let t = format_prompt(
        c,
        count_of(file.hunks.as_slice()),
        prompt,
        letters.as_str(),
        was,
        options.kind,
    );
    out.append(t.as_str());
    assert(file@.hunks.len() == n);
    assert(c < n ==> file@.hunks[c as int] == file.hunks@[c as int]@);
    assert(was == earlier_decision(file@, c as int));
    proof {
        let a = shown(file@, c as int, print_header);
        assert(old(out)@ + a + t@ =~= old(out)@ + (a + t@));
    }
}

fn find_undecided(hunks: &[Hunk], from: usize, forward: bool) -> (r: Option<usize>)
    requires
        from <= hunks@.len(),
    ensures
        ({
            let m = next_undecided(
                model::hunk_models(hunks@),
                if forward {
                    from as int
                } else {
                    from - 1
                },
                forward,
            );
            match r {
                Some(i) => m == Some(i as int) && i < hunks@.len(),
                None => m is None,
            }
        }),
    decreases
            (if forward {
                hunks@.len() - from
            } else {
                from as int
            }),
{
    let ghost m = model::hunk_models(hunks@);
    if forward {
        if from == hunks.len() {
            return None;
        }
        if hunks[from].use_decision == HunkUse::Undecided {
            return Some(from);
        }
        find_undecided(hunks, from + 1, forward)
    } else {
        if from == 0 {
            return None;
        }
        if hunks[from - 1].use_decision == HunkUse::Undecided {
            return Some(from - 1);
        }
        find_undecided(hunks, from - 1, forward)
    }
}

fn push_line_debug(out: &mut String, l: &HunkLine)
    ensures
        final(out)@ == old(out)@ + line_debug(l@),
{
    let ghost start = out@;
    let kind = match l {
        HunkLine::Context(_) => "Context(",
        HunkLine::Delete(_) => "Delete(",
        HunkLine::Insert(_) => "Insert(",
    };
    out.append(kind);
    out.append(apply::debug_text(l.text()).as_str());
    out.append(")");
    assert(out@ =~= start + line_debug(l@));
}

fn searched_text(h: &Hunk) -> (r: String)
    ensures
        r@ == search_text(h@),
{
    let mut out = h.header.clone();
    out.append("[");
    let ghost start = out@;
    let ghost m = h@.lines;
    let mut i: usize = 0;
    assert(start + lines_debug(m.take(0)) =~= start);
    while i < h.lines.len()
        invariant
            i <= h.lines.len(),
            m == model::line_models(h.lines@),
            out@ == start + lines_debug(m.take(i as int)),
        decreases h.lines.len() - i,
    {
        assert(m.take(i + 1).drop_last() =~= m.take(i as int));
        if i > 0 {
            out.append(", ");
        }
        push_line_debug(&mut out, &h.lines[i]);
        assert(out@ =~= start + lines_debug(m.take(i + 1)));
        i += 1;
    }
    assert(m.take(i as int) =~= m);
    out.append("]");
    assert(out@ =~= search_text(h@));
    out
}

fn find_matching(hunks: &[Hunk], c: usize, p: &str) -> (r: Option<usize>)
    requires
        c < hunks@.len(),
    ensures
        (match r {
            Some(i) => found_from(model::hunk_models(hunks@), c as int, p@, 0) == Some(i as int)
                && i < hunks@.len(),
            None => found_from(model::hunk_models(hunks@), c as int, p@, 0) is None,
        }),
{
    let ghost m = model::hunk_models(hunks@);
    let n = hunks.len();
    let mut k: usize = 0;
    let mut i: usize = if c + 1 == n {
        0
    } else {
        c + 1
    };
    while k < n
        invariant
            k <= n == hunks@.len(),
            c < n,
            i < n,
            k < n ==> i == if c + 1 + k < n {
                c + 1 + k
            } else {
                c + 1 + k - n
            },
            m == model::hunk_models(hunks@),
            found_from(m, c as int, p@, k as int) == found_from(m, c as int, p@, 0),
        decreases n - k,
    {
        assert(i == (c + 1 + k) % (n as int)) by {
            if c + 1 + k < n {
                vstd::arithmetic::div_mod::lemma_small_mod((c + 1 + k) as nat, n as nat);
            } else {
                vstd::arithmetic::div_mod::lemma_mod_add_multiples_vanish(
                    (c + 1 + k - n) as int,
                    n as int,
                );
                vstd::arithmetic::div_mod::lemma_small_mod((c + 1 + k - n) as nat, n as nat);
            }
        }
        assert(m[i as int] == hunks@[i as int]@);
        if i != c {
            let t = searched_text(&hunks[i]);
            if let Some(true) = search_regex(p, t.as_str()) {
                return Some(i);
            }
        }
        k += 1;
        i = if i + 1 == n {
            0
        } else {
            i + 1
        };
    }
    None
}

impl Session {
    /// Whether the session is well-formed.
    pub open spec fn wf(self) -> bool {
        self@.wf()
    }

    fn finish(&mut self, a: SessionAction, out: &mut String) -> (r: SessionRequest)
        requires
            old(self).wf(),
        ensures
            final(self).wf(),
            stepped(*old(self), *final(self), old(out)@, final(out)@, r, old(self)@.finish(a)),
    {
        self.phase = SessionPhase::Done;
        assert(out@ + Seq::<char>::empty() =~= out@);
        SessionRequest::Finish(a)
    }

    /// Everything that well-formedness says but that the cursor is in range.
    pub open spec fn loose(self) -> bool {
        (SessionModel { phase: SessionPhase::Done, ..self@ }).wf()
    }

    fn proceed(&mut self, out: &mut String) -> (r: SessionRequest)
        requires
            old(self).loose(),
        ensures
            final(self).wf(),
            stepped(
                *old(self),
                *final(self),
                old(out)@,
                final(out)@,
                r,
                old(self)@.proceed(old(self).options@),
            ),
    {
        let ghost s0 = self@;
        if self.sel >= self.selectable.len() {
            self.phase = SessionPhase::Done;
            assert(out@ + Seq::<char>::empty() =~= out@);
            return SessionRequest::Finish(SessionAction::Continue);
        }
        let i = self.selectable[self.sel];
        assert(s0.selectable[s0.sel] == i);
        let ghost f0 = self.files@[i as int]@;
        assert(s0.files[i as int] == f0);
        ensure_hunk_slot(&mut self.files[i]);
        let n = count_of(self.files[i].hunks.as_slice());
        let ghost f1 = self.files@[i as int]@;
        let at = self.cursors[i];
        let c = if at < n {
            at
        } else {
            n - 1
        };
        self.cursors[i] = c;
        let print_header = match self.last_rendered {
            Some(last) => last != i,
            None => true,
        };
        self.last_rendered = Some(i);
        self.phase = SessionPhase::Answer;
        show_prompt(
            &self.files[i],
            c,
            print_header,
            self.selectable.len(),
            &self.options,
            out,
        );
        proof {
            let m = s0.prompt(self.options@);
            assert(ints(self.selectable@).len() == self.selectable@.len());
            assert(f1.hunks.len() == self.files@[i as int].hunks@.len());
            assert(self@.files =~= m.session.files);
            assert(self@.cursors =~= m.session.cursors);
            assert(self@.selectable =~= m.session.selectable);
        }
        SessionRequest::Line
    }

    fn say(&mut self, t: &str, out: &mut String) -> (r: SessionRequest)
        requires
            old(self).loose(),
        ensures
            final(self).wf(),
            stepped(
                *old(self),
                *final(self),
                old(out)@,
                final(out)@,
                r,
                old(self)@.say(old(self).options@, t@),
            ),
    {
        let ghost start = out@;
        out.append(t);
        let r = self.proceed(out);
        proof {
            let p = old(self)@.proceed(old(self).options@);
            assert(start + t@ + p.output =~= start + (t@ + p.output));
        }
        r
    }
}

impl SessionModel {
    /// Whether the session runs and is well-formed.
    pub open spec fn running(self) -> bool {
        self.wf() && !(self.phase is Done)
    }

    pub proof fn lemma_with_file(self, f: model::FileModel)
        requires
            self.running(),
            !f.binary,
        ensures
            (SessionModel { phase: SessionPhase::Done, ..self.with_file(f) }).wf(),
            self.with_file(f).file() == f,
            self.with_file(f).cursor() == self.cursor(),
            self.with_file(f).file_index() == self.file_index(),
    {
        let s = self.with_file(f);
        assert(0 <= self.selectable[self.sel] < self.files.len());
        assert forall|k: int| 0 <= k < s.selectable.len() implies 0
            <= #[trigger] s.selectable[k] < s.files.len()
            && !s.files[s.selectable[k]].binary by {
            assert(0 <= self.selectable[k] < self.files.len());
        }
    }
}

/// What a session asks for its current file and hunk.
impl Session {
    fn current(&self) -> (r: usize)
        requires
            self@.running(),
        ensures
            r == self@.file_index(),
            r < self.files@.len(),
            r < self.cursors@.len(),
            self@.file() == self.files@[r as int]@,
            self@.file().hunks.len() == self.files@[r as int].hunks@.len(),
            self@.cursor() == self.cursors@[r as int],
            !self.files@[r as int].binary,
    {
        let i = self.selectable[self.sel];
        assert(self@.selectable[self@.sel] == i);
        i
    }

    fn put_cursor(&mut self, c: usize)
        requires
            old(self)@.running(),
        ensures
            final(self)@ == old(self)@.with_cursor(c as int),
            final(self).options == old(self).options,
            final(self).loose(),
    {
        let i = self.current();
        self.cursors[i] = c;
        assert(self@.cursors =~= old(self)@.with_cursor(c as int).cursors);
    }

    fn advance(&mut self)
        requires
            old(self).loose(),
            old(self)@.sel < old(self)@.selectable.len(),
            old(self)@.cursor() < at_least_one(old(self)@.file().hunks.len() as int),
        ensures
            final(self)@ == old(self)@.advanced(old(self).options@),
            final(self).options == old(self).options,
            final(self).loose(),
    {
        if !self.options.auto_advance {
            return;
        }
        let i = self.selectable[self.sel];
        assert(self@.selectable[self@.sel] == i);
        assert(self@.file() == self.files@[i as int]@);
        let n = count_of(self.files[i].hunks.as_slice());
        if self.cursors[i] + 1 < n {
            let c = self.cursors[i] + 1;
            self.cursors[i] = c;
            assert(self@.cursors =~= old(self)@.advanced(old(self).options@).cursors);
        } else {
            let count = self.selectable.len();
            assert(self.sel < count);
            self.sel = self.sel + 1;
        }
    }

    fn decide(&mut self, d: HunkUse, out: &mut String) -> (r: SessionRequest)
        requires
            old(self)@.running(),
        ensures
            final(self).wf(),
            stepped(
                *old(self),
                *final(self),
                old(out)@,
                final(out)@,
                r,
                old(self)@.with_file(
                    with_decision(old(self)@.file(), old(self)@.cursor(), d),
                ).advanced(old(self).options@).proceed(old(self).options@),
            ),
    {
        let ghost s0 = self@;
        let i = self.current();
        let c = self.cursors[i];
        set_decision(&mut self.files[i], c, d);
        let ghost f1 = with_decision(s0.file(), s0.cursor(), d);
        assert(self@.files =~= s0.with_file(f1).files);
        proof {
            s0.lemma_with_file(f1);
        }
        self.advance();
        self.proceed(out)
    }

    fn decide_rest(&mut self, d: HunkUse, out: &mut String) -> (r: SessionRequest)
        requires
            old(self)@.running(),
        ensures
            final(self).wf(),
            stepped(
                *old(self),
                *final(self),
                old(out)@,
                final(out)@,
                r,
                old(self)@.decide_rest(old(self).options@, d).proceed(old(self).options@),
            ),
    {
        let ghost s0 = self@;
        let i = self.current();
        let c = self.cursors[i];
        set_decisions_from(&mut self.files[i], c, d);
        let ghost f1 = with_decisions_from(s0.file(), s0.cursor(), d);
        assert(self@.files =~= s0.with_file(f1).files);
        proof {
            s0.lemma_with_file(f1);
        }
        let count = self.selectable.len();
        assert(self.sel < count);
        if self.options.auto_advance {
            self.sel = self.sel + 1;
        }
        self.proceed(out)
    }

    fn move_undecided(&mut self, forward: bool, out: &mut String) -> (r: SessionRequest)
        requires
            old(self)@.running(),
        ensures
            final(self).wf(),
            stepped(
                *old(self),
                *final(self),
                old(out)@,
                final(out)@,
                r,
                old(self)@.move_undecided(old(self).options@, forward),
            ),
    {
        let i = self.current();
        let c = self.cursors[i];
        let n = self.files[i].hunks.len();
        let found = if n == 0 {
            None
        } else {
            let from = if forward {
                c + 1
            } else {
                c
            };
            find_undecided(self.files[i].hunks.as_slice(), from, forward)
        };
        match found {
            Some(k) => {
                self.put_cursor(k);
                self.proceed(out)
            },
            None => self.say("No other hunk\n", out),
        }
    }

    fn split_current(&mut self, out: &mut String) -> (r: SessionRequest)
        requires
            old(self)@.running(),
        ensures
            final(self).wf(),
            stepped(
                *old(self),
                *final(self),
                old(out)@,
                final(out)@,
                r,
                old(self)@.split(old(self).options@),
            ),
    {
        let ghost s0 = self@;
        let i = self.current();
        let c = self.cursors[i];
        if c < self.files[i].hunks.len() {
            let hunk = self.files[i].hunks[c].clone();
            assert(s0.file().hunks[c as int] == hunk@);
            if hunk_numbers_fit(&hunk) {
                if let Some(pieces) = split_hunk(&hunk) {
                    let n = pieces.len();
                    let ghost pm = model::hunk_models(pieces@);
                    let ghost f0 = s0.file();
                    splice_hunks(&mut self.files[i], c, pieces);
                    let ghost f1 = model::FileModel {
                        hunks: f0.hunks.take(c as int) + pm + f0.hunks.skip(c + 1),
                        ..f0
                    };
                    assert(self@.files =~= s0.with_file(f1).files);
                    proof {
                        s0.lemma_with_file(f1);
                    }
                    let mut t = "Split into ".to_owned();
                    t.append(decimal_text(n as u64).as_str());
                    t.append(" hunks.\n");
                    return self.say(t.as_str(), out);
                }
            }
        }
        self.say("Sorry, cannot split this hunk\n", out)
    }

    fn ask_edit(&mut self) -> (r: SessionRequest)
        requires
            old(self)@.running(),
            old(self)@.cursor() < old(self)@.file().hunks.len(),
        ensures
            final(self).wf(),
            final(self).options == old(self).options,
            final(self)@ == old(self)@.ask_edit().session,
            r@ == old(self)@.ask_edit().request,
    {
        let i = self.current();
        let c = self.cursors[i];
        assert(self@.file().hunks[c as int] == self.files@[i as int].hunks@[c as int]@);
        let t = format_edit_buffer(&self.files[i].hunks[c]);
        self.phase = SessionPhase::Edit;
        SessionRequest::Edit(t)
    }

    fn start_edit(&mut self, out: &mut String) -> (r: SessionRequest)
        requires
            old(self)@.running(),
        ensures
            final(self).wf(),
            stepped(
                *old(self),
                *final(self),
                old(out)@,
                final(out)@,
                r,
                old(self)@.start_edit(old(self).options@),
            ),
    {
        let i = self.current();
        let c = self.cursors[i];
        let n = self.files[i].hunks.len();
        assert(c < n ==> self@.file().hunks[c as int] == self.files@[i as int].hunks@[c as int]@);
        if c < n && is_editable(&self.files[i], &self.files[i].hunks[c])
            && self.options.editor.is_some() {
            assert(out@ + Seq::<char>::empty() =~= out@);
            self.ask_edit()
        } else {
            let mut t = CANNOT_EDIT.to_owned();
            t.append("\n");
            self.say(t.as_str(), out)
        }
    }

    fn ask_retry(&mut self, out: &mut String) -> (r: SessionRequest)
        requires
            old(self)@.running(),
            old(self)@.cursor() < old(self)@.file().hunks.len(),
        ensures
            final(self).wf(),
            stepped(
                *old(self),
                *final(self),
                old(out)@,
                final(out)@,
                r,
                old(self)@.ask_retry(),
            ),
    {
        self.phase = SessionPhase::Retry;
        out.append(EDIT_RETRY_PROMPT);
        SessionRequest::Line
    }

    fn read_edit(&mut self, t: &str, out: &mut String) -> (r: SessionRequest)
        requires
            old(self)@.running(),
        ensures
            final(self).wf(),
            stepped(
                *old(self),
                *final(self),
                old(out)@,
                final(out)@,
                r,
                old(self)@.read_edit(old(self).options@, t@),
            ),
    {
        let ghost s0 = self@;
        let i = self.current();
        let c = self.cursors[i];
        if c >= self.files[i].hunks.len() {
            return self.proceed(out);
        }
        let hunk = self.files[i].hunks[c].clone();
        assert(s0.file().hunks[c as int] == hunk@);
        match parse_edited_buffer(t, &hunk) {
            Ok(EditedHunk::Abandoned) => self.proceed(out),
            Ok(EditedHunk::Hunk(h)) => {
                assert(self.options@.blobs.len() == self.options.index_blobs@.len());
                let applies = if i < self.options.index_blobs.len() {
                    assert(self.options@.blobs[i as int] == self.options.index_blobs@[i as int]@);
                    edited_hunk_applies(
                        &self.files[i],
                        c,
                        &h,
                        self.options.index_blobs[i].as_slice(),
                    ).is_ok()
                } else {
                    true
                };
                if applies {
                    let ghost f0 = s0.file();
                    let ghost f1 = edit::with_trial(f0, c as int, h@);
                    put_hunk(&mut self.files[i], c, h);
                    assert(self@.files =~= s0.with_file(f1).files);
                    proof {
                        s0.lemma_with_file(f1);
                    }
                    self.advance();
                    self.proceed(out)
                } else {
                    self.ask_retry(out)
                }
            },
            Err(_) => self.ask_retry(out),
        }
    }

    fn read_retry(&mut self, l: &[char], out: &mut String) -> (r: SessionRequest)
        requires
            old(self)@.running(),
            old(self)@.cursor() < old(self)@.file().hunks.len(),
        ensures
            final(self).wf(),
            stepped(
                *old(self),
                *final(self),
                old(out)@,
                final(out)@,
                r,
                old(self)@.read_retry(old(self).options@, l@),
            ),
    {
        if l.len() > 0 && (l[0] == 'n' || l[0] == 'N') {
            self.proceed(out)
        } else if l.len() > 0 && (l[0] == 'y' || l[0] == 'Y') {
            assert(out@ + Seq::<char>::empty() =~= out@);
            self.ask_edit()
        } else {
            self.ask_retry(out)
        }
    }

    fn go_to(&mut self, a: &[char], out: &mut String) -> (r: SessionRequest)
        requires
            old(self)@.running(),
        ensures
            final(self).wf(),
            stepped(
                *old(self),
                *final(self),
                old(out)@,
                final(out)@,
                r,
                old(self)@.go_to(old(self).options@, a@),
            ),
    {
        let i = self.current();
        match text::read_usize(a) {
            Some(n) => {
                if n >= 1 && n <= self.files[i].hunks.len() {
                    self.put_cursor(n - 1);
                    self.proceed(out)
                } else {
                    self.say("No other hunks to goto\n", out)
                }
            },
            None => self.say("No other hunks to goto\n", out),
        }
    }

    fn search_for(&mut self, p: &[char], out: &mut String) -> (r: SessionRequest)
        requires
            old(self)@.running(),
            old(self)@.file().hunks.len() > 0,
        ensures
            final(self).wf(),
            stepped(
                *old(self),
                *final(self),
                old(out)@,
                final(out)@,
                r,
                old(self)@.search_for(old(self).options@, p@),
            ),
    {
        let i = self.current();
        if p.len() == 0 {
            return self.say("No other hunks to search\n", out);
        }
        let t = text_of(p);
        match find_matching(self.files[i].hunks.as_slice(), self.cursors[i], t.as_str()) {
            Some(k) => {
                self.put_cursor(k);
                self.proceed(out)
            },
            None => self.say("No other hunks to search\n", out),
        }
    }

    fn goto_answer(&mut self, a: &[char], out: &mut String) -> (r: SessionRequest)
        requires
            old(self)@.running(),
            a@.len() > 0,
        ensures
            final(self).wf(),
            stepped(
                *old(self),
                *final(self),
                old(out)@,
                final(out)@,
                r,
                old(self)@.goto_answer(old(self).options@, a@),
            ),
    {
        let i = self.current();
        if self.files[i].hunks.len() <= 1 {
            return self.say("No other hunks to goto\n", out);
        }
        let tail = slice_subrange(a, 1, a.len());
        assert(tail@ =~= a@.drop_first());
        let rest = text::trimmed(tail);
        if rest.len() == 0 {
            self.phase = SessionPhase::Goto;
            out.append("go to which hunk? ");
            SessionRequest::Line
        } else {
            self.go_to(rest, out)
        }
    }

    fn search_answer(&mut self, a: &[char], out: &mut String) -> (r: SessionRequest)
        requires
            old(self)@.running(),
            a@.len() > 0,
        ensures
            final(self).wf(),
            stepped(
                *old(self),
                *final(self),
                old(out)@,
                final(out)@,
                r,
                old(self)@.search_answer(old(self).options@, a@),
            ),
    {
        let i = self.current();
        if self.files[i].hunks.len() <= 1 {
            return self.say("No other hunks to search\n", out);
        }
        let tail = slice_subrange(a, 1, a.len());
        assert(tail@ =~= a@.drop_first());
        let rest = text::trimmed(tail);
        if rest.len() == 0 {
            self.phase = SessionPhase::Search;
            out.append("search for regex? ");
            SessionRequest::Line
        } else {
            self.search_for(rest, out)
        }
    }

    fn other_file(&mut self, forward: bool, none: &str, out: &mut String) -> (r: SessionRequest)
        requires
            old(self)@.running(),
        ensures
            final(self).wf(),
            stepped(
                *old(self),
                *final(self),
                old(out)@,
                final(out)@,
                r,
                old(self)@.other_file(
                    old(self).options@,
                    if forward {
                        1
                    } else {
                        old(self)@.selectable.len() - 1
                    },
                    none@,
                ),
            ),
    {
        let n = self.selectable.len();
        assert(self@.selectable.len() == n);
        if n <= 1 {
            return self.say(none, out);
        }
        let ghost at = self.sel as int;
        if forward {
            proof {
                if at + 1 < n {
                    vstd::arithmetic::div_mod::lemma_small_mod((at + 1) as nat, n as nat);
                } else {
                    vstd::arithmetic::div_mod::lemma_mod_self_0(n as int);
                }
            }
            self.sel = if self.sel + 1 == n {
                0
            } else {
                self.sel + 1
            };
        } else {
            proof {
                if at == 0 {
                    vstd::arithmetic::div_mod::lemma_small_mod((n - 1) as nat, n as nat);
                } else {
                    vstd::arithmetic::div_mod::lemma_mod_add_multiples_vanish(at - 1, n as int);
                    vstd::arithmetic::div_mod::lemma_small_mod((at - 1) as nat, n as nat);
                }
            }
            self.sel = if self.sel == 0 {
                n - 1
            } else {
                self.sel - 1
            };
        }
        self.proceed(out)
    }

    fn show_help(&mut self, out: &mut String) -> (r: SessionRequest)
        requires
            old(self)@.running(),
        ensures
            final(self).wf(),
            stepped(
                *old(self),
                *final(self),
                old(out)@,
                final(out)@,
                r,
                old(self)@.show_help(old(self).options@),
            ),
    {
        let i = self.current();
        let letters = letters_for(
            &self.files[i],
            self.cursors[i],
            self.selectable.len(),
            &self.options,
        );
        assert(self@.selectable.len() == self.selectable@.len());
        let mut t = help_text_for(letters.as_str(), self.options.kind);
        let ghost h = t@;
        match hunks_summary(&self.files[i]) {
            Some(line) => {
                t.append(line.as_str());
                t.append("\n");
                assert(t@ =~= h + (line@ + "\n"@));
            },
            None => {
                assert(t@ =~= h + Seq::<char>::empty());
            },
        }
        self.say(t.as_str(), out)
    }
}

fn hunk_numbers_fit(h: &Hunk) -> (r: bool)
    ensures
        r == model::numbers_fit(h@),
{
    let lines = h.lines.as_slice();
    let found = model::change_islands(lines);
    let ghost rs = model::islands(h@.lines);
    assert(model::int_pairs(found@).len() == found@.len());
    if found.len() <= 1 {
        return true;
    }
    let last = found[found.len() - 1];
    assert(rs.last() == (last.0 as int, last.1 as int));
    proof {
        model::lemma_islands_in_range(h@.lines, 0, rs.len() - 1);
    }
    let walked = slice_subrange(lines, 0, last.1);
    assert(model::line_models(walked@) =~= h@.lines.take(last.1 as int));
    let old_n = model::old_lines_in(walked);
    let new_n = model::new_lines_in(walked);
    h.old_start <= usize::MAX - old_n && h.new_start <= usize::MAX - new_n
}

fn splice_hunks(file: &mut FileDiff, c: usize, pieces: Vec<Hunk>)
    requires
        c < old(file).hunks@.len(),
    ensures
        final(file)@ == (model::FileModel {
            hunks: old(file)@.hunks.take(c as int) + model::hunk_models(pieces@)
                + old(file)@.hunks.skip(c + 1),
            ..old(file)@
        }),
{
    let ghost pm = model::hunk_models(pieces@);
    let mut pieces = pieces;
    let mut tail = file.hunks.split_off(c);
    let _ = tail.remove(0);
    file.hunks.append(&mut pieces);
    file.hunks.append(&mut tail);
    assert(file@.hunks =~= old(file)@.hunks.take(c as int) + pm + old(file)@.hunks.skip(c + 1));
}

fn put_hunk(file: &mut FileDiff, c: usize, h: Hunk)
    requires
        c < old(file).hunks@.len(),
    ensures
        final(file)@ == edit::with_trial(old(file)@, c as int, h@),
{
    let mut h = h;
    h.use_decision = HunkUse::Use;
    file.hunks[c] = h;
    assert(file@.hunks =~= edit::with_trial(old(file)@, c as int, h@).hunks);
}

impl Session {
    /// Takes the answer to a prompt.
    fn dispatch(&mut self, a: &[char], out: &mut String) -> (r: SessionRequest)
        requires
            old(self)@.running(),
        ensures
            final(self).wf(),
            stepped(
                *old(self),
                *final(self),
                old(out)@,
                final(out)@,
                r,
                old(self)@.answer(old(self).options@, a@),
            ),
    {
        proof {
            reveal(SessionModel::answer);
        }
        if a.len() > 0 && a[0] == 'g' {
            return self.goto_answer(a, out);
        }
        if a.len() > 0 && a[0] == '/' {
            return self.search_answer(a, out);
        }
        if !(a.len() == 1 && a[0] <= '\u{7f}') {
            let mut t = "Only one letter is expected, got '".to_owned();
            text::push_chars(&mut t, a);
            t.append("'\n");
            return self.say(t.as_str(), out);
        }
        let letter = a[0];
        if letter == 'y' {
            self.decide(HunkUse::Use, out)
        } else if letter == 'n' {
            self.decide(HunkUse::Skip, out)
        } else if letter == 'q' {
            self.finish(SessionAction::Quit, out)
        } else if letter == 'a' {
            self.decide_rest(HunkUse::Use, out)
        } else if letter == 'd' {
            self.decide_rest(HunkUse::Skip, out)
        } else if letter == 'j' {
            self.move_undecided(true, out)
        } else if letter == 'k' {
            self.move_undecided(false, out)
        } else if letter == 'J' || letter == 'K' {
            self.move_any(letter == 'J', out)
        } else if letter == 's' {
            self.split_current(out)
        } else if letter == 'e' {
            self.start_edit(out)
        } else if letter == '>' && !self.options.auto_advance {
            self.other_file(true, "No next file\n", out)
        } else if letter == '<' && !self.options.auto_advance {
            self.other_file(false, "No previous file\n", out)
        } else if letter == 'p' || letter == 'P' {
            self.proceed(out)
        } else if letter == '?' {
            self.show_help(out)
        } else {
            let mut t = "Unknown command '".to_owned();
            text::push_chars(&mut t, a);
            t.append("' (use '?' for help)\n");
            self.say(t.as_str(), out)
        }
    }

    fn move_any(&mut self, forward: bool, out: &mut String) -> (r: SessionRequest)
        requires
            old(self)@.running(),
        ensures
            final(self).wf(),
            stepped(
                *old(self),
                *final(self),
                old(out)@,
                final(out)@,
                r,
                old(self)@.move_any(old(self).options@, forward),
            ),
    {
        let i = self.current();
        let c = self.cursors[i];
        let n = count_of(self.files[i].hunks.as_slice());
        if forward && c + 1 < n {
            self.put_cursor(c + 1);
            self.proceed(out)
        } else if !forward && c > 0 {
            self.put_cursor(c - 1);
            self.proceed(out)
        } else {
            self.say("No other hunk\n", out)
        }
    }

    /// Takes one event, writes to `out`, and says what it waits for next.
    pub fn step(&mut self, event: &SessionEvent, out: &mut String) -> (r: SessionRequest)
        requires
            old(self).wf(),
        ensures
            final(self).wf(),
            stepped(
                *old(self),
                *final(self),
                old(out)@,
                final(out)@,
                r,
                old(self)@.step(old(self).options@, event@),
            ),
    {
        proof {
            reveal(SessionModel::step);
        }
        match (self.phase, event) {
            (SessionPhase::Answer, SessionEvent::Line(l)) => {
                let cs = chars_of(l.as_str());
                self.dispatch(text::trimmed_line_end(cs.as_slice()), out)
            },
            (SessionPhase::Goto, SessionEvent::Line(l)) => {
                let cs = chars_of(l.as_str());
                self.go_to(text::trimmed_line_end(cs.as_slice()), out)
            },
            (SessionPhase::Search, SessionEvent::Line(l)) => {
                let cs = chars_of(l.as_str());
                self.search_for(text::trimmed_line_end(cs.as_slice()), out)
            },
            (SessionPhase::Edit, SessionEvent::Edited(t)) => self.read_edit(t.as_str(), out),
            (SessionPhase::Edit, SessionEvent::EditorFailed) => {
                let mut t = CANNOT_EDIT.to_owned();
                t.append("\n");
                self.say(t.as_str(), out)
            },
            (SessionPhase::Retry, SessionEvent::Line(l)) => {
                let cs = chars_of(l.as_str());
                self.read_retry(cs.as_slice(), out)
            },
            (SessionPhase::Retry, SessionEvent::EndOfInput) => self.proceed(out),
            _ => self.finish(SessionAction::Quit, out),
        }
    }

    /// Opens a session over `files`.
    pub fn open(
        files: Vec<FileDiff>,
        options: SessionOptions,
        out: &mut String,
    ) -> (r: (Session, SessionRequest))
        ensures
            r.0.wf(),
            r.0.options == options,
            ({
                let m = opening(model::file_models(files@), options@);
                &&& r.0@ == m.session
                &&& final(out)@ == old(out)@ + m.output
                &&& r.1@ == m.request
            }),
    {
        let ghost fm = model::file_models(files@);
        let n = files.len();
        let mut selectable: Vec<usize> = Vec::new();
        let mut cursors: Vec<usize> = Vec::new();
        let mut i: usize = 0;
        assert(ints(selectable@) =~= selectable_files(fm, 0));
        while i < n
            invariant
                i <= n == files@.len(),
                fm == model::file_models(files@),
                ints(selectable@) == selectable_files(fm, i as int),
                cursors@.len() == i,
                forall|j: int| 0 <= j < i ==> #[trigger] cursors@[j] == 0,
                forall|k: int|
                    0 <= k < selectable@.len() ==> #[trigger] selectable@[k] < i
                        && !fm[selectable@[k] as int].binary,
            decreases n - i,
        {
            assert(fm[i as int].binary == files@[i as int].binary);
            let ghost before = ints(selectable@);
            if !files[i].binary {
                selectable.push(i);
                assert(ints(selectable@) =~= before.push(i as int));
            }
            cursors.push(0);
            i += 1;
        }
        assert(ints(cursors@) =~= Seq::new(fm.len(), |i: int| 0int));
        assert(ints(selectable@).len() == selectable@.len());
        let none = selectable.len() == 0;
        let mut s = Session {
            files,
            selectable,
            sel: 0,
            cursors,
            last_rendered: None,
            phase: SessionPhase::Done,
            options,
        };
        assert(s.loose()) by {
            assert forall|k: int| 0 <= k < s@.selectable.len() implies 0
                <= #[trigger] s@.selectable[k] < s@.files.len()
                && !s@.files[s@.selectable[k]].binary by {
                assert(s@.selectable[k] == s.selectable@[k]);
            }
        }
        if n == 0 {
            out.append("No changes.\n");
            (s, SessionRequest::Finish(SessionAction::Quit))
        } else if none {
            out.append("Only binary files changed.\n");
            (s, SessionRequest::Finish(SessionAction::Quit))
        } else {
            let r = s.proceed(out);
            (s, r)
        }
    }
}

//// Whole sessions

/// What a finished session leaves.
#[verifier::ext_equal]
pub struct RunModel {
    pub session: SessionModel,
    pub output: Seq<char>,
    pub action: SessionAction,
}

/// How many steps at most come before the next line of input.
pub open spec fn pending_steps(st: StepModel) -> int {
    match st.request {
        RequestModel::Finish(_) => 0,
        RequestModel::Line => if st.session.phase is Retry {
            2
        } else {
            1
        },
        RequestModel::Edit(_) => 3,
    }
}

/// The event that answers a request: the next line, the next edit, or that
/// there is none.
pub open spec fn next_event(
    r: RequestModel,
    lines: Seq<Seq<char>>,
    edits: Seq<Option<Seq<char>>>,
) -> EventModel {
    if r is Edit {
        if edits.len() > 0 {
            match edits[0] {
                Some(t) => EventModel::Edited(t),
                None => EventModel::EditorFailed,
            }
        } else {
            EventModel::EditorFailed
        }
    } else if lines.len() > 0 {
        EventModel::Line(lines[0])
    } else {
        EventModel::EndOfInput
    }
}

pub open spec fn rest_of<A>(used: bool, s: Seq<A>) -> Seq<A> {
    if used && s.len() > 0 {
        s.drop_first()
    } else {
        s
    }
}

/// A session from the step `st` to its end, over the given lines of input and
/// outcomes of edits.
pub open spec fn run(
    st: StepModel,
    o: OptionsModel,
    lines: Seq<Seq<char>>,
    edits: Seq<Option<Seq<char>>>,
) -> RunModel
    decreases lines.len(), pending_steps(st),
    via run_decreases
{
    match st.request {
        RequestModel::Finish(action) => RunModel {
            session: st.session,
            output: st.output,
            action,
        },
        _ => {
            let next = st.session.step(o, next_event(st.request, lines, edits));
            let r = run(
                next,
                o,
                rest_of(st.request is Line, lines),
                rest_of(st.request is Edit, edits),
            );
            RunModel { output: st.output + r.output, ..r }
        },
    }
}

#[via_fn]
proof fn run_decreases(
    st: StepModel,
    o: OptionsModel,
    lines: Seq<Seq<char>>,
    edits: Seq<Option<Seq<char>>>,
) {
    lemma_pending_steps(st, o, next_event(st.request, lines, edits));
}

/// Without a line of input a session comes to its end in a few steps.
pub proof fn lemma_pending_steps(st: StepModel, o: OptionsModel, e: EventModel)
    ensures
        (st.request is Line && e is EndOfInput) || (st.request is Edit && !(e is Line))
            ==> 0 <= pending_steps(st.session.step(o, e)) < pending_steps(st),
{
    reveal(SessionModel::step);
}

pub open spec fn edit_texts(edits: Seq<Option<String>>) -> Seq<Option<Seq<char>>> {
    edits.map_values(|e: Option<String>| text::opt_text(e))
}

/// Drive one patch-mode session. Decisions stay on `files`; the caller writes
/// the index once after the function returns.
pub fn run_session(files: &mut Vec<FileDiff>, input: &[String], output: &mut String) -> (r:
    SessionAction)
    ensures
        ({
            let o = OptionsModel {
                auto_advance: true,
                editor: None,
                edit_path: None,
                blobs: Seq::empty(),
                kind: PatchSessionKind::Stage,
            };
            let m = run(
                opening(model::file_models(old(files)@), o),
                o,
                text::texts(input@),
                Seq::empty(),
            );
            &&& model::file_models(final(files)@) == m.session.files
            &&& final(output)@ == old(output)@ + m.output
            &&& r == m.action
        }),
{
    let options = SessionOptions::default();
    let none: Vec<Option<String>> = Vec::new();
    assert(edit_texts(none@) =~= Seq::<Option<Seq<char>>>::empty());
    assert(options@.blobs =~= Seq::<Seq<u8>>::empty());
    run_session_with(files, input, none.as_slice(), output, options)
}

/// Drive one patch-mode session over lines of input and, for each time the
/// editor is asked for, the text it leaves; `None` is an editor that failed.
pub fn run_session_with(
    files: &mut Vec<FileDiff>,
    input: &[String],
    edits: &[Option<String>],
    output: &mut String,
    options: SessionOptions,
) -> (r: SessionAction)
    ensures
        ({
            let m = run(
                opening(model::file_models(old(files)@), options@),
                options@,
                text::texts(input@),
                edit_texts(edits@),
            );
            &&& model::file_models(final(files)@) == m.session.files
            &&& final(output)@ == old(output)@ + m.output
            &&& r == m.action
        }),
{
    let ghost o = options@;
    let ghost out0 = output@;
    let ghost lines = text::texts(input@);
    let ghost ed = edit_texts(edits@);
    let mut taken: Vec<FileDiff> = Vec::new();
    taken.append(files);
    assert(taken@ =~= old(files)@);
    let ghost st0 = opening(model::file_models(taken@), o);
    let ghost whole = run(st0, o, lines, ed);
    let (mut session, mut request) = Session::open(taken, options, output);
    let mut i: usize = 0;
    let mut k: usize = 0;
    let ghost mut st = st0;
    let ghost mut written: Seq<char> = Seq::empty();
    assert(lines.skip(0) =~= lines);
    assert(ed.skip(0) =~= ed);
    assert(written + run(st0, o, lines, ed).output =~= whole.output);
    loop
        invariant
            i <= input@.len(),
            k <= edits@.len(),
            session.wf(),
            session.options@ == o,
            lines == text::texts(input@),
            ed == edit_texts(edits@),
            session@ == st.session,
            request@ == st.request,
            output@ == out0 + (written + st.output),
            ({
                let rest = run(st, o, lines.skip(i as int), ed.skip(k as int));
                &&& whole.output == written + rest.output
                &&& whole.session == rest.session
                &&& whole.action == rest.action
            }),
        ensures
            session@ == whole.session,
            output@ == out0 + whole.output,
            request@ == RequestModel::Finish(whole.action),
        decreases input@.len() - i, pending_steps(st),
    {
        let ghost l0 = lines.skip(i as int);
        let ghost e0 = ed.skip(k as int);
        let event = match &request {
            SessionRequest::Finish(_) => {
                break;
            },
            SessionRequest::Line => {
                if i < input.len() {
                    let l = input[i].clone();
                    assert(l0[0] == l@);
                    assert(lines.skip(i as int).drop_first() =~= lines.skip(i + 1));
                    i += 1;
                    SessionEvent::Line(l)
                } else {
                    SessionEvent::EndOfInput
                }
            },
            SessionRequest::Edit(_) => {
                if k < edits.len() {
                    assert(e0[0] == text::opt_text(edits@[k as int]));
                    assert(ed.skip(k as int).drop_first() =~= ed.skip(k + 1));
                    let e = &edits[k];
                    k += 1;
                    match e {
                        Some(t) => SessionEvent::Edited(t.clone()),
                        None => SessionEvent::EditorFailed,
                    }
                } else {
                    SessionEvent::EditorFailed
                }
            },
        };
        assert(event@ == next_event(st.request, l0, e0));
        let ghost next = session@.step(o, event@);
        request = session.step(&event, output);
        proof {
            lemma_pending_steps(st, o, event@);
            let r2 = run(next, o, lines.skip(i as int), ed.skip(k as int));
            assert(run(st, o, l0, e0).output == st.output + r2.output);
            assert(out0 + (written + st.output) + next.output =~= out0 + (written + st.output
                + next.output));
            assert(written + (st.output + r2.output) =~= written + st.output + r2.output);
            written = written + st.output;
            st = next;
        }
    }
    let action = match &request {
        SessionRequest::Finish(a) => *a,
        _ => SessionAction::Quit,
    };
    let Session { files: kept, .. } = session;
    *files = kept;
    action
}

} // verus!
