//! Interactive rebase todo model, render, and parse.
//!
//! The `rebase -i` / `--edit-todo` entry generates a Git-shaped
//! `git-rebase-todo`, runs the sequence editor, and parses the result. This
//! module owns the instruction model and the text that is generated and read.

use vstd::prelude::*;
use vstd::string::*;

use crate::text;
use crate::text::{chars_of, cut_lines, cut_word, decimal_text, same, text_of};

verus! {

/// `fixup` message flag: omitted, `-C` (keep this commit's message), or `-c`
/// (keep this commit's message and open the editor).
#[derive(Debug, Clone, Copy, PartialEq, Eq, Structural)]
pub enum FixupFlag {
    KeepThis,
    Reword,
}

/// One interactive rebase instruction.
#[derive(Debug, PartialEq, Eq)]
#[allow(inconsistent_fields)]
pub enum TodoInstruction {
    Pick { commit: String },
    Reword { commit: String },
    Edit { commit: String },
    Squash { commit: String },
    Fixup { commit: String, flag: Option<FixupFlag> },
    Exec { cmd: String },
    Break,
    Drop { commit: Option<String> },
}

/// What a [`TodoInstruction`] says.
#[allow(inconsistent_fields)]
pub enum TodoModel {
    Pick { commit: Seq<char> },
    Reword { commit: Seq<char> },
    Edit { commit: Seq<char> },
    Squash { commit: Seq<char> },
    Fixup { commit: Seq<char>, flag: Option<FixupFlag> },
    Exec { cmd: Seq<char> },
    Break,
    Drop { commit: Option<Seq<char>> },
}

impl View for TodoInstruction {
    type V = TodoModel;

    open spec fn view(&self) -> TodoModel {
        match self {
            TodoInstruction::Pick { commit } => TodoModel::Pick { commit: commit@ },
            TodoInstruction::Reword { commit } => TodoModel::Reword { commit: commit@ },
            TodoInstruction::Edit { commit } => TodoModel::Edit { commit: commit@ },
            TodoInstruction::Squash { commit } => TodoModel::Squash { commit: commit@ },
            TodoInstruction::Fixup { commit, flag } => {
                TodoModel::Fixup { commit: commit@, flag: *flag }
            },
            TodoInstruction::Exec { cmd } => TodoModel::Exec { cmd: cmd@ },
            TodoInstruction::Break => TodoModel::Break,
            TodoInstruction::Drop { commit } => TodoModel::Drop { commit: text::opt_text(*commit) },
        }
    }
}

impl Clone for TodoInstruction {
    fn clone(&self) -> (r: Self)
        ensures
            r == *self,
    {
        match self {
            TodoInstruction::Pick { commit } => TodoInstruction::Pick { commit: commit.clone() },
            TodoInstruction::Reword { commit } => TodoInstruction::Reword {
                commit: commit.clone(),
            },
            TodoInstruction::Edit { commit } => TodoInstruction::Edit { commit: commit.clone() },
            TodoInstruction::Squash { commit } => TodoInstruction::Squash {
                commit: commit.clone(),
            },
            TodoInstruction::Fixup { commit, flag } => TodoInstruction::Fixup {
                commit: commit.clone(),
                flag: *flag,
            },
            TodoInstruction::Exec { cmd } => TodoInstruction::Exec { cmd: cmd.clone() },
            TodoInstruction::Break => TodoInstruction::Break,
            TodoInstruction::Drop { commit } => TodoInstruction::Drop {
                commit: match commit {
                    Some(c) => Some(c.clone()),
                    None => None,
                },
            },
        }
    }
}

impl TodoModel {
    /// The commit that an instruction names.
    pub open spec fn commit_oid(self) -> Option<Seq<char>> {
        match self {
            TodoModel::Pick { commit } => Some(commit),
            TodoModel::Reword { commit } => Some(commit),
            TodoModel::Edit { commit } => Some(commit),
            TodoModel::Squash { commit } => Some(commit),
            TodoModel::Fixup { commit, .. } => Some(commit),
            TodoModel::Drop { commit } => commit,
            TodoModel::Exec { .. } => None,
            TodoModel::Break => None,
        }
    }

    /// The instruction as a line of the buffer.
    pub open spec fn line(self) -> Seq<char> {
        match self {
            TodoModel::Pick { commit } => "pick "@ + commit,
            TodoModel::Reword { commit } => "reword "@ + commit,
            TodoModel::Edit { commit } => "edit "@ + commit,
            TodoModel::Squash { commit } => "squash "@ + commit,
            TodoModel::Fixup { commit, flag } => match flag {
                None => "fixup "@ + commit,
                Some(FixupFlag::KeepThis) => "fixup -C "@ + commit,
                Some(FixupFlag::Reword) => "fixup -c "@ + commit,
            },
            TodoModel::Exec { cmd } => "exec "@ + cmd,
            TodoModel::Break => "break"@,
            TodoModel::Drop { commit } => match commit {
                Some(c) => "drop "@ + c,
                None => "drop"@,
            },
        }
    }
}

impl TodoInstruction {
    /// Commit id carried by this instruction, if any.
    pub fn commit_oid(&self) -> (r: Option<&str>)
        ensures
            (match r {
                Some(c) => self@.commit_oid() == Some(c@),
                None => self@.commit_oid() is None,
            }),
    {
        match self {
            TodoInstruction::Pick { commit } => Some(commit.as_str()),
            TodoInstruction::Reword { commit } => Some(commit.as_str()),
            TodoInstruction::Edit { commit } => Some(commit.as_str()),
            TodoInstruction::Squash { commit } => Some(commit.as_str()),
            TodoInstruction::Fixup { commit, flag: _ } => Some(commit.as_str()),
            TodoInstruction::Drop { commit } => match commit {
                Some(c) => Some(c.as_str()),
                None => None,
            },
            TodoInstruction::Exec { cmd: _ } => None,
            TodoInstruction::Break => None,
        }
    }
}

/// Parse failure for a todo buffer.
#[derive(Debug, PartialEq, Eq)]
pub enum TodoParseError {
    InvalidCommand { command: String, number: usize, line: String },
    InvalidLine { number: usize, line: String },
}

/// What a [`TodoParseError`] says.
pub enum TodoErrorModel {
    InvalidCommand { command: Seq<char>, number: int, line: Seq<char> },
    InvalidLine { number: int, line: Seq<char> },
}

impl View for TodoParseError {
    type V = TodoErrorModel;

    open spec fn view(&self) -> TodoErrorModel {
        match self {
            TodoParseError::InvalidCommand { command, number, line } => {
                TodoErrorModel::InvalidCommand {
                    command: command@,
                    number: *number as int,
                    line: line@,
                }
            },
            TodoParseError::InvalidLine { number, line } => {
                TodoErrorModel::InvalidLine { number: *number as int, line: line@ }
            },
        }
    }
}

impl Clone for TodoParseError {
    fn clone(&self) -> (r: Self)
        ensures
            r == *self,
    {
        match self {
            TodoParseError::InvalidCommand { command, number, line } => {
                TodoParseError::InvalidCommand {
                    command: command.clone(),
                    number: *number,
                    line: line.clone(),
                }
            },
            TodoParseError::InvalidLine { number, line } => {
                TodoParseError::InvalidLine { number: *number, line: line.clone() }
            },
        }
    }
}

impl TodoErrorModel {
    /// The sentence that reports the error.
    pub open spec fn message(self) -> Seq<char> {
        match self {
            TodoErrorModel::InvalidCommand { command, .. } => {
                "invalid command '"@ + command + "'"@
            },
            TodoErrorModel::InvalidLine { number, line } => {
                "invalid line "@ + text::decimal(number as nat) + ": "@ + line
            },
        }
    }
}

impl TodoParseError {
    /// The sentence that reports the error.
    pub fn message(&self) -> (r: String)
        ensures
            r@ == self@.message(),
    {
        match self {
            TodoParseError::InvalidCommand { command, number: _, line: _ } => {
                let mut out = "invalid command '".to_owned();
                out.append(command.as_str());
                out.append("'");
                out
            },
            TodoParseError::InvalidLine { number, line } => {
                let mut out = "invalid line ".to_owned();
                out.append(decimal_text(*number as u64).as_str());
                out.append(": ");
                out.append(line.as_str());
                out
            },
        }
    }
}

/// One first-generate pick line: 7-char abbrev plus subject.
#[derive(Debug, PartialEq, Eq)]
pub struct TodoRenderCommit {
    pub abbrev: String,
    pub subject: String,
}

impl Clone for TodoRenderCommit {
    fn clone(&self) -> (r: Self)
        ensures
            r == *self,
    {
        TodoRenderCommit { abbrev: self.abbrev.clone(), subject: self.subject.clone() }
    }
}

/// Git 2.54 `append_todo_help` comment block with `l/t/m/u` omitted. Bytes
/// match `strbuf_add_commented_lines` over the English C strings in
/// `rebase-interactive.c` (`#` + optional space + line).
pub const TODO_HELP_COMMENTS: &'static str = "#\n# Commands:\n# p, pick = use commit\n# r, reword = use commit, but edit the commit message\n# e, edit = use commit, but stop for amending\n# s, squash = use commit, but meld into previous commit\n# f, fixup [-C | -c] = like \"squash\" but keep only the previous\n#  commit's log message, unless -C is used, in which case\n#  keep only this commit's message; -c is same as -C but\n#  opens the editor\n# x, exec = run command (the rest of the line) using shell\n# b, break = stop here (continue rebase later with 'git rebase --continue')\n# d, drop = remove commit\n#\n# These lines can be re-ordered; they are executed from top to bottom.\n#\n# If you remove a line here THAT COMMIT WILL BE LOST.\n#\n# However, if you remove everything, the rebase will be aborted.\n#\n";

/// Comment Git prints when `--edit-todo` rewrites an in-progress list.
pub const ONGOING_REBASE_TODO_HINT: &'static str = "# You are editing the todo file of an ongoing interactive rebase.\n";

/// The blank line and the comment that close a list of `count` commands.
pub open spec fn closing(count: nat, onto: Seq<char>, head: Seq<char>) -> Seq<char> {
    "\n# Rebase "@ + onto + ".."@ + head + " onto "@ + onto + " ("@ + text::decimal(count)
        + (if count == 1 {
        " command)\n"@
    } else {
        " commands)\n"@
    })
}

/// The rows, each with its newline.
pub open spec fn rows_text(rows: Seq<Seq<char>>) -> Seq<char>
    decreases rows.len(),
{
    if rows.len() == 0 {
        Seq::empty()
    } else {
        rows_text(rows.drop_last()) + rows.last() + "\n"@
    }
}

/// A `pick` line of the first list.
pub open spec fn pick_row(c: TodoRenderCommit) -> Seq<char> {
    "pick "@ + c.abbrev@ + " # "@ + c.subject@
}

/// The `pick` lines of the first list.
pub open spec fn pick_rows(commits: Seq<TodoRenderCommit>) -> Seq<Seq<char>> {
    commits.map_values(|c: TodoRenderCommit| pick_row(c))
}

/// The buffer for the first list.
pub open spec fn first_buffer(
    commits: Seq<TodoRenderCommit>,
    onto: Seq<char>,
    head: Seq<char>,
) -> Seq<char> {
    rows_text(pick_rows(commits)) + closing(commits.len(), onto, head) + TODO_HELP_COMMENTS@
}

/// The lines of a list of instructions.
pub open spec fn instruction_rows(v: Seq<TodoModel>) -> Seq<Seq<char>> {
    v.map_values(|t: TodoModel| t.line())
}

/// The buffer for the instructions that remain.
pub open spec fn remaining_buffer(v: Seq<TodoModel>, onto: Seq<char>, head: Seq<char>) -> Seq<char> {
    rows_text(instruction_rows(v)) + closing(v.len(), onto, head) + ONGOING_REBASE_TODO_HINT@
        + TODO_HELP_COMMENTS@
}

pub open spec fn todo_models(v: Seq<TodoInstruction>) -> Seq<TodoModel> {
    v.map_values(|t: TodoInstruction| t@)
}

fn push_closing(out: &mut String, count: usize, onto: &str, head: &str)
    ensures
        final(out)@ == old(out)@ + closing(count as nat, onto@, head@),
{
    let mut t = "\n# Rebase ".to_owned();
    t.append(onto);
    t.append("..");
    t.append(head);
    t.append(" onto ");
    t.append(onto);
    t.append(" (");
    t.append(decimal_text(count as u64).as_str());
    if count == 1 {
        t.append(" command)\n");
    } else {
        t.append(" commands)\n");
    }
    out.append(t.as_str());
}

/// First-generate todo text.
pub fn render_todo(commits: &[TodoRenderCommit], onto_abbrev: &str, head_abbrev: &str) -> (r:
    String)
    ensures
        r@ == first_buffer(commits@, onto_abbrev@, head_abbrev@),
{
    let mut out = String::new();
    let ghost rows = pick_rows(commits@);
    let mut i: usize = 0;
    assert(out@ =~= rows_text(rows.take(0)));
    while i < commits.len()
        invariant
            i <= commits.len(),
            rows == pick_rows(commits@),
            out@ == rows_text(rows.take(i as int)),
        decreases commits.len() - i,
    {
        assert(rows.take(i + 1).drop_last() =~= rows.take(i as int));
        let ghost before = out@;
        out.append("pick ");
        out.append(commits[i].abbrev.as_str());
        out.append(" # ");
        out.append(commits[i].subject.as_str());
        assert(out@ =~= before + rows[i as int]);
        out.append("\n");
        i += 1;
    }
    assert(rows.take(i as int) =~= rows);
    push_closing(&mut out, commits.len(), onto_abbrev, head_abbrev);
    out.append(TODO_HELP_COMMENTS);
    out
}

/// Render an already-built command list (autosquash / `--exec` injection).
pub fn render_todo_with_commands(
    commands: &[String],
    onto_abbrev: &str,
    head_abbrev: &str,
) -> (r: String)
    ensures
        r@ == rows_text(text::texts(commands@)) + closing(
            commands@.len(),
            onto_abbrev@,
            head_abbrev@,
        ) + TODO_HELP_COMMENTS@,
{
    let mut out = String::new();
    let ghost rows = text::texts(commands@);
    let mut i: usize = 0;
    assert(out@ =~= rows_text(rows.take(0)));
    while i < commands.len()
        invariant
            i <= commands.len(),
            rows == text::texts(commands@),
            out@ == rows_text(rows.take(i as int)),
        decreases commands.len() - i,
    {
        assert(rows.take(i + 1).drop_last() =~= rows.take(i as int));
        out.append(commands[i].as_str());
        out.append("\n");
        i += 1;
    }
    assert(rows.take(i as int) =~= rows);
    push_closing(&mut out, commands.len(), onto_abbrev, head_abbrev);
    out.append(TODO_HELP_COMMENTS);
    out
}

fn joined(a: &str, b: &str) -> (r: String)
    ensures
        r@ == a@ + b@,
{
    let mut out = a.to_owned();
    out.append(b);
    out
}

fn format_instruction_line(instruction: &TodoInstruction) -> (r: String)
    ensures
        r@ == instruction@.line(),
{
    match instruction {
        TodoInstruction::Pick { commit } => joined("pick ", commit.as_str()),
        TodoInstruction::Reword { commit } => joined("reword ", commit.as_str()),
        TodoInstruction::Edit { commit } => joined("edit ", commit.as_str()),
        TodoInstruction::Squash { commit } => joined("squash ", commit.as_str()),
        TodoInstruction::Fixup { commit, flag } => match flag {
            None => joined("fixup ", commit.as_str()),
            Some(FixupFlag::KeepThis) => joined("fixup -C ", commit.as_str()),
            Some(FixupFlag::Reword) => joined("fixup -c ", commit.as_str()),
        },
        TodoInstruction::Exec { cmd } => joined("exec ", cmd.as_str()),
        TodoInstruction::Break => "break".to_owned(),
        TodoInstruction::Drop { commit } => match commit {
            Some(c) => joined("drop ", c.as_str()),
            None => "drop".to_owned(),
        },
    }
}

/// Remaining-instruction buffer for `--edit-todo`.
pub fn render_remaining_todo(
    instructions: &[TodoInstruction],
    onto_abbrev: &str,
    head_abbrev: &str,
) -> (r: String)
    ensures
        r@ == remaining_buffer(todo_models(instructions@), onto_abbrev@, head_abbrev@),
{
    let mut out = String::new();
    let ghost rows = instruction_rows(todo_models(instructions@));
    let mut i: usize = 0;
    assert(out@ =~= rows_text(rows.take(0)));
    while i < instructions.len()
        invariant
            i <= instructions.len(),
            rows == instruction_rows(todo_models(instructions@)),
            out@ == rows_text(rows.take(i as int)),
        decreases instructions.len() - i,
    {
        assert(rows.take(i + 1).drop_last() =~= rows.take(i as int));
        out.append(format_instruction_line(&instructions[i]).as_str());
        out.append("\n");
        i += 1;
    }
    assert(rows.take(i as int) =~= rows);
    push_closing(&mut out, instructions.len(), onto_abbrev, head_abbrev);
    out.append(ONGOING_REBASE_TODO_HINT);
    out.append(TODO_HELP_COMMENTS);
    out
}

//// Reading

/// What `fixup` is given: a commit, with `-C` or `-c` before it or alone.
pub open spec fn fixup_of(rest: Seq<char>) -> Option<TodoModel> {
    let first = text::first_word(rest);
    let second = text::first_word(text::after_first_word(rest));
    if first.len() == 0 {
        None
    } else if first == "-C"@ || first == "-c"@ {
        if second.len() == 0 {
            None
        } else {
            Some(
                TodoModel::Fixup {
                    commit: second,
                    flag: Some(
                        if first == "-C"@ {
                            FixupFlag::KeepThis
                        } else {
                            FixupFlag::Reword
                        },
                    ),
                },
            )
        }
    } else {
        Some(TodoModel::Fixup { commit: first, flag: None })
    }
}

/// What a command and the rest of its line say; the outer `None` is a command
/// that does not exist, the inner one a line that lacks what its command
/// needs.
pub open spec fn instruction_of(command: Seq<char>, rest: Seq<char>) -> Option<Option<TodoModel>> {
    let commit = text::first_word(rest);
    let has_commit = commit.len() > 0;
    if command == "pick"@ || command == "p"@ {
        Some(if has_commit { Some(TodoModel::Pick { commit }) } else { None })
    } else if command == "reword"@ || command == "r"@ {
        Some(if has_commit { Some(TodoModel::Reword { commit }) } else { None })
    } else if command == "edit"@ || command == "e"@ {
        Some(if has_commit { Some(TodoModel::Edit { commit }) } else { None })
    } else if command == "squash"@ || command == "s"@ {
        Some(if has_commit { Some(TodoModel::Squash { commit }) } else { None })
    } else if command == "fixup"@ || command == "f"@ {
        Some(fixup_of(rest))
    } else if command == "exec"@ || command == "x"@ {
        let cmd = text::trim(rest);
        Some(if cmd.len() > 0 { Some(TodoModel::Exec { cmd }) } else { None })
    } else if command == "break"@ || command == "b"@ {
        Some(Some(TodoModel::Break))
    } else if command == "drop"@ || command == "d"@ {
        Some(
            if has_commit {
                Some(TodoModel::Drop { commit: Some(commit) })
            } else {
                None
            },
        )
    } else {
        None
    }
}

/// Whether a line holds nothing to do.
pub open spec fn is_idle(row: Seq<char>) -> bool {
    let t = text::trim(row);
    t.len() == 0 || t[0] == '#'
}

/// The command of a line: what stands before its first whitespace.
pub open spec fn command_of(row: Seq<char>) -> Seq<char> {
    let t = text::trim(row);
    t.take(text::find_white(t))
}

/// What follows the command of a line.
pub open spec fn arguments_of(row: Seq<char>) -> Seq<char> {
    let t = text::trim(row);
    text::trim_start(t.skip(text::find_white(t)))
}

/// The instructions of `rows`, of which the first is line `number`. The first
/// line that cannot be read ends it.
pub open spec fn todo_from(rows: Seq<Seq<char>>, number: int) -> Result<
    Seq<TodoModel>,
    TodoErrorModel,
>
    decreases rows.len(),
{
    if rows.len() == 0 {
        Ok(Seq::empty())
    } else if is_idle(rows[0]) {
        todo_from(rows.drop_first(), number + 1)
    } else {
        match instruction_of(command_of(rows[0]), arguments_of(rows[0])) {
            None => Err(
                TodoErrorModel::InvalidCommand {
                    command: command_of(rows[0]),
                    number,
                    line: rows[0],
                },
            ),
            Some(None) => Err(TodoErrorModel::InvalidLine { number, line: rows[0] }),
            Some(Some(first)) => match todo_from(rows.drop_first(), number + 1) {
                Ok(others) => Ok(seq![first] + others),
                Err(e) => Err(e),
            },
        }
    }
}

/// The instructions that a todo buffer gives.
pub open spec fn todo(t: Seq<char>) -> Result<Seq<TodoModel>, TodoErrorModel> {
    todo_from(text::lines(t), 1)
}

fn parse_fixup(rest: &[char]) -> (r: Option<TodoInstruction>)
    ensures
        (match r {
            Some(i) => fixup_of(rest@) == Some(i@),
            None => fixup_of(rest@) is None,
        }),
{
    let (first, tail) = cut_word(rest);
    if first.len() == 0 {
        return None;
    }
    let word = text_of(first);
    let keep = same(word.as_str(), "-C");
    if keep || same(word.as_str(), "-c") {
        let (second, _) = cut_word(tail);
        if second.len() == 0 {
            return None;
        }
        let flag = if keep {
            FixupFlag::KeepThis
        } else {
            FixupFlag::Reword
        };
        Some(TodoInstruction::Fixup { commit: text_of(second), flag: Some(flag) })
    } else {
        Some(TodoInstruction::Fixup { commit: word, flag: None })
    }
}

fn is_either(s: &str, a: &str, b: &str) -> (r: bool)
    ensures
        r == (s@ == a@ || s@ == b@),
{
    same(s, a) || same(s, b)
}

fn parse_instruction(command: &str, rest: &[char]) -> (r: Option<Option<TodoInstruction>>)
    ensures
        (match r {
            None => instruction_of(command@, rest@) is None,
            Some(None) => instruction_of(command@, rest@) == Some(None::<TodoModel>),
            Some(Some(i)) => instruction_of(command@, rest@) == Some(Some(i@)),
        }),
{
    let (word, _) = cut_word(rest);
    let commit = text_of(word);
    let has_commit = word.len() > 0;
    if is_either(command, "pick", "p") {
        if !has_commit {
            return Some(None);
        }
        Some(Some(TodoInstruction::Pick { commit }))
    } else if is_either(command, "reword", "r") {
        if !has_commit {
            return Some(None);
        }
        Some(Some(TodoInstruction::Reword { commit }))
    } else if is_either(command, "edit", "e") {
        if !has_commit {
            return Some(None);
        }
        Some(Some(TodoInstruction::Edit { commit }))
    } else if is_either(command, "squash", "s") {
        if !has_commit {
            return Some(None);
        }
        Some(Some(TodoInstruction::Squash { commit }))
    } else if is_either(command, "fixup", "f") {
        match parse_fixup(rest) {
            Some(i) => Some(Some(i)),
            None => Some(None),
        }
    } else if is_either(command, "exec", "x") {
        let cmd = text::trimmed(rest);
        if cmd.len() == 0 {
            return Some(None);
        }
        Some(Some(TodoInstruction::Exec { cmd: text_of(cmd) }))
    } else if is_either(command, "break", "b") {
        Some(Some(TodoInstruction::Break))
    } else if is_either(command, "drop", "d") {
        if !has_commit {
            return Some(None);
        }
        let i = TodoInstruction::Drop { commit: Some(commit) };
        Some(Some(i))
    } else {
        None
    }
}

/// Parse a todo buffer. `#` comments and blank lines are ignored.
pub fn parse_todo(text: &str) -> (r: Result<Vec<TodoInstruction>, TodoParseError>)
    ensures
        (match r {
            Ok(v) => todo(text@) == Ok::<Seq<TodoModel>, TodoErrorModel>(todo_models(v@)),
            Err(e) => todo(text@) == Err::<Seq<TodoModel>, TodoErrorModel>(e@),
        }),
{
    let cs = chars_of(text);
    let rows = cut_lines(cs.as_slice());
    let ghost m = text::char_views(rows@);
    let mut out: Vec<TodoInstruction> = Vec::new();
    let mut i: usize = 0;
    assert(m.skip(0) =~= m);
    proof {
        assert(todo_models(out@) =~= Seq::<TodoModel>::empty());
        lemma_prepend_nothing(todo_from(m, 1));
    }
    while i < rows.len()
        invariant
            i <= rows.len(),
            m == text::char_views(rows@),
            m == text::lines(text@),
            prepended(todo_models(out@), todo_from(m.skip(i as int), i + 1)) == todo(text@),
        decreases rows.len() - i,
    {
        let ghost rest = m.skip(i as int);
        assert(rest[0] == rows@[i as int]@);
        assert(rest.drop_first() =~= m.skip(i + 1));
        let raw = rows[i].as_slice();
        let trimmed = text::trimmed(raw);
        let ghost before = todo_models(out@);
        if !(trimmed.len() == 0 || trimmed[0] == '#') {
            let k = text::index_of_white(trimmed);
            let head = vstd::slice::slice_subrange(trimmed, 0, k);
            let tail = vstd::slice::slice_subrange(trimmed, k, trimmed.len());
            assert(head@ =~= command_of(raw@));
            assert(tail@ =~= trimmed@.skip(k as int));
            let command = text_of(head);
            match parse_instruction(command.as_str(), text::trimmed_start(tail)) {
                None => {
                    return Err(
                        TodoParseError::InvalidCommand {
                            command,
                            number: i + 1,
                            line: text_of(raw),
                        },
                    );
                },
                Some(None) => {
                    return Err(TodoParseError::InvalidLine { number: i + 1, line: text_of(raw) });
                },
                Some(Some(instruction)) => {
                    let ghost one = instruction@;
                    out.push(instruction);
                    proof {
                        assert(todo_models(out@) =~= before.push(one));
                        lemma_prepend_step(before, one, todo_from(m.skip(i + 1), i + 2));
                    }
                },
            }
        }
        i += 1;
    }
    assert(todo_models(out@) + Seq::<TodoModel>::empty() =~= todo_models(out@));
    Ok(out)
}

spec fn prepended(a: Seq<TodoModel>, r: Result<Seq<TodoModel>, TodoErrorModel>) -> Result<
    Seq<TodoModel>,
    TodoErrorModel,
> {
    match r {
        Ok(b) => Ok(a + b),
        Err(e) => Err(e),
    }
}

proof fn lemma_prepend_nothing(r: Result<Seq<TodoModel>, TodoErrorModel>)
    ensures
        prepended(Seq::empty(), r) == r,
{
    if let Ok(b) = r {
        assert(Seq::<TodoModel>::empty() + b =~= b);
    }
}

proof fn lemma_prepend_step(
    a: Seq<TodoModel>,
    one: TodoModel,
    r: Result<Seq<TodoModel>, TodoErrorModel>,
)
    ensures
        prepended(a.push(one), r) == prepended(a, prepended(seq![one], r)),
{
    if let Ok(b) = r {
        assert(a.push(one) + b =~= a + (seq![one] + b));
    }
}

pub proof fn lemma_help_is_comment()
    ensures
        TODO_HELP_COMMENTS@.len() > 0,
        TODO_HELP_COMMENTS@[0] == '#',
        TODO_HELP_COMMENTS@.last() == '\n',
        forall|i: int| 0 <= i < TODO_HELP_COMMENTS@.len() - 1 && #[trigger] TODO_HELP_COMMENTS@[i] == '\n' ==> TODO_HELP_COMMENTS@[i + 1] == '#',
{
    reveal_strlit("#\n# Commands:\n# p, pick = use commit\n# r, reword = use commit, but edit the commit message\n# e, edit = use commit, but stop for amending\n# s, squash = use commit, but meld into previous commit\n# f, fixup [-C | -c] = like \"squash\" but keep only the previous\n#  commit's log message, unless -C is used, in which case\n#  keep only this commit's message; -c is same as -C but\n#  opens the editor\n# x, exec = run command (the rest of the line) using shell\n# b, break = stop here (continue rebase later with 'git rebase --continue')\n# d, drop = remove commit\n#\n# These lines can be re-ordered; they are executed from top to bottom.\n#\n# If you remove a line here THAT COMMIT WILL BE LOST.\n#\n# However, if you remove everything, the rebase will be aborted.\n#\n");
}

//// Laws

/// Whether an instruction can stand on a line of its own: its commit is one
/// word, and its command has no whitespace round it and no line break.
pub open spec fn is_plain(t: TodoModel) -> bool {
    match t {
        TodoModel::Pick { commit } => text::is_word(commit),
        TodoModel::Reword { commit } => text::is_word(commit),
        TodoModel::Edit { commit } => text::is_word(commit),
        TodoModel::Squash { commit } => text::is_word(commit),
        TodoModel::Fixup { commit, flag } => text::is_word(commit) && (flag is Some || (commit
            != "-C"@ && commit != "-c"@)),
        TodoModel::Exec { cmd } => cmd.len() > 0 && !text::is_white(cmd[0]) && !text::is_white(
            cmd.last(),
        ) && !cmd.contains('\n'),
        TodoModel::Break => true,
        TodoModel::Drop { commit } => commit matches Some(c) && text::is_word(c),
    }
}

pub proof fn lemma_comment_add(a: Seq<char>, b: Seq<char>)
    requires
        text::is_comment(a),
        text::is_comment(b),
    ensures
        text::is_comment(a + b),
{
    let s = a + b;
    if a.len() == 0 {
        assert(s =~= b);
    } else if b.len() == 0 {
        assert(s =~= a);
    } else {
        assert forall|i: int| 0 <= i < s.len() - 1 && #[trigger] s[i] == '\n' implies s[i + 1]
            == '#' by {
            if i < a.len() {
                assert(s[i] == a[i]);
            } else {
                assert(s[i] == b[i - a.len()]);
            }
        }
    }
}

proof fn lemma_comment_idle(t: Seq<char>, number: int)
    requires
        text::is_comment(t),
    ensures
        todo_from(text::lines(t), number) == Ok::<Seq<TodoModel>, TodoErrorModel>(Seq::empty()),
    decreases t.len(),
{
    if t.len() == 0 {
        assert(text::lines(t) =~= Seq::<Seq<char>>::empty());
    } else {
        text::lemma_find_char(t, '\n');
        assert(t[t.len() - 1] == '\n');
        assert(t.contains('\n'));
        let k = text::find_char(t, '\n');
        let a = t.take(k);
        let rest = t.skip(k + 1);
        assert(t =~= a.push('\n') + rest);
        assert(!a.contains('\n'));
        text::lemma_split_keep_line(a, rest);
        let row = text::chomp(a.push('\n'));
        assert(a.push('\n').drop_last() =~= a);
        assert(row.len() > 0 && row[0] == '#');
        text::lemma_trim_keeps_first(row);
        let rows = text::lines(t);
        assert(rows[0] == row);
        assert(rows.drop_first() =~= text::lines(rest));
        assert(text::is_comment(rest)) by {
            if rest.len() > 0 {
                assert(rest[0] == t[k + 1]);
                assert forall|i: int| 0 <= i < rest.len() - 1 && #[trigger] rest[i]
                    == '\n' implies rest[i + 1] == '#' by {
                    assert(rest[i] == t[k + 1 + i]);
                }
            }
        }
        lemma_comment_idle(rest, number + 1);
    }
}

proof fn lemma_hint_is_comment()
    ensures
        text::is_comment(ONGOING_REBASE_TODO_HINT@),
{
    reveal_strlit("# You are editing the todo file of an ongoing interactive rebase.\n");
}

/// The line behind the blank one of a closing.
pub open spec fn closing_line(count: nat, onto: Seq<char>, head: Seq<char>) -> Seq<char> {
    "# Rebase "@ + onto + ".."@ + head + " onto "@ + onto + " ("@ + text::decimal(count)
        + (if count == 1 {
        " command)"@
    } else {
        " commands)"@
    })
}

pub proof fn lemma_closing(count: nat, onto: Seq<char>, head: Seq<char>)
    requires
        !onto.contains('\n'),
        !head.contains('\n'),
    ensures
        closing(count, onto, head) == seq!['\n'] + closing_line(count, onto, head).push('\n'),
        text::is_comment(closing_line(count, onto, head).push('\n')),
{
    reveal_strlit("\n# Rebase ");
    reveal_strlit("# Rebase ");
    reveal_strlit("..");
    reveal_strlit(" onto ");
    reveal_strlit(" (");
    reveal_strlit(" command)\n");
    reveal_strlit(" commands)\n");
    reveal_strlit(" command)");
    reveal_strlit(" commands)");
    let line = closing_line(count, onto, head);
    let d = text::decimal(count);
    text::lemma_decimal_digits(count);
    assert("\n# Rebase "@ =~= seq!['\n'] + "# Rebase "@);
    assert(" command)\n"@ =~= " command)"@.push('\n'));
    assert(" commands)\n"@ =~= " commands)"@.push('\n'));
    assert(closing(count, onto, head) =~= seq!['\n'] + line.push('\n'));
    assert forall|i: int| 0 <= i < d.len() implies d[i] != '\n' by {
        assert(0 <= text::digit_value(d[i]) < 10);
    }
    let a = "# Rebase "@;
    let b = ".."@;
    let c = " onto "@;
    let e = " ("@;
    lemma_no_break(a + onto, b);
    lemma_no_break(a, onto);
    lemma_no_break(a + onto + b, head);
    lemma_no_break(a + onto + b + head, c);
    lemma_no_break(a + onto + b + head + c, onto);
    lemma_no_break(a + onto + b + head + c + onto, e);
    lemma_no_break(a + onto + b + head + c + onto + e, d);
    lemma_no_break(
        a + onto + b + head + c + onto + e + d,
        if count == 1 {
            " command)"@
        } else {
            " commands)"@
        },
    );
    assert(!line.contains('\n'));
    assert forall|i: int| 0 <= i < line.push('\n').len() - 1 implies line.push('\n')[i]
        != '\n' by {
        assert(line.contains(line[i]));
    }
}

proof fn lemma_no_break(a: Seq<char>, b: Seq<char>)
    ensures
        !a.contains('\n') && !b.contains('\n') ==> !(a + b).contains('\n'),
{
    if (a + b).contains('\n') {
        let i = choose|i: int| 0 <= i < (a + b).len() && (a + b)[i] == '\n';
        if i < a.len() {
            assert(a[i] == '\n');
        } else {
            assert(b[i - a.len()] == '\n');
        }
    }
}

/// A command word, a blank and something solid are read as just that.
proof fn lemma_row(w: Seq<char>, x: Seq<char>)
    requires
        text::is_word(w),
        w[0] != '#',
        x.len() > 0,
        !text::is_white(x[0]),
        !text::is_white(x.last()),
    ensures
        ({
            let row = w + " "@ + x;
            &&& !is_idle(row)
            &&& command_of(row) == w
            &&& arguments_of(row) == x
        }),
{
    reveal_strlit(" ");
    let row = w + " "@ + x;
    let tail = " "@ + x;
    assert(row =~= w + tail);
    assert(row[0] == w[0]);
    assert(row.last() == x.last());
    assert(text::trim(row) == row);
    text::lemma_first_word(w, tail);
    assert(row.take(w.len() as int) =~= w);
    assert(row.skip(w.len() as int) =~= tail);
    assert(tail.drop_first() =~= x);
    assert(text::trim_start(x) == x);
    assert(text::trim_start(tail) == text::trim_start(x));
}

proof fn lemma_word_args(c: Seq<char>)
    requires
        text::is_word(c),
    ensures
        text::first_word(c) == c,
{
    text::lemma_first_word(c, Seq::empty());
    assert(c + Seq::<char>::empty() =~= c);
}

/// The command words are told apart.
proof fn lemma_command_words(rest: Seq<char>)
    requires
        text::first_word(rest).len() > 0,
    ensures
        ({
            let commit = text::first_word(rest);
            &&& instruction_of("pick"@, rest) == Some(Some(TodoModel::Pick { commit }))
            &&& instruction_of("reword"@, rest) == Some(Some(TodoModel::Reword { commit }))
            &&& instruction_of("edit"@, rest) == Some(Some(TodoModel::Edit { commit }))
            &&& instruction_of("squash"@, rest) == Some(Some(TodoModel::Squash { commit }))
            &&& instruction_of("fixup"@, rest) == Some(fixup_of(rest))
            &&& instruction_of("drop"@, rest) == Some(
                Some(TodoModel::Drop { commit: Some(commit) }),
            )
        }),
{
    lemma_words_differ();
}

pub proof fn lemma_words_differ()
    ensures
        "pick"@.len() == 4 && "pick"@[0] == 'p',
        "p"@.len() == 1,
        "reword"@.len() == 6 && "reword"@[0] == 'r',
        "r"@.len() == 1,
        "edit"@.len() == 4 && "edit"@[0] == 'e' && "edit"@[1] == 'd',
        "e"@.len() == 1,
        "squash"@.len() == 6 && "squash"@[0] == 's',
        "s"@.len() == 1,
        "fixup"@.len() == 5 && "fixup"@[0] == 'f',
        "f"@.len() == 1,
        "exec"@.len() == 4 && "exec"@[0] == 'e' && "exec"@[1] == 'x',
        "x"@.len() == 1,
        "break"@.len() == 5 && "break"@[0] == 'b',
        "b"@.len() == 1,
        "drop"@.len() == 4 && "drop"@[0] == 'd',
        "d"@.len() == 1,
        "-C"@.len() == 2 && "-C"@[1] == 'C',
        "-c"@.len() == 2 && "-c"@[1] == 'c',
{
    reveal_strlit("pick");
    reveal_strlit("p");
    reveal_strlit("reword");
    reveal_strlit("r");
    reveal_strlit("edit");
    reveal_strlit("e");
    reveal_strlit("squash");
    reveal_strlit("s");
    reveal_strlit("fixup");
    reveal_strlit("f");
    reveal_strlit("-C");
    reveal_strlit("-c");
    reveal_strlit("exec");
    reveal_strlit("x");
    reveal_strlit("break");
    reveal_strlit("b");
    reveal_strlit("drop");
    reveal_strlit("d");
}

/// A line made of a command word, a blank and a body has no line break where
/// neither part has one.
proof fn lemma_row_unbroken(head: Seq<char>, body: Seq<char>)
    requires
        !head.contains('\n'),
        !body.contains('\n'),
        body.len() > 0,
        !text::is_white(body.last()),
    ensures
        !(head + body).contains('\n'),
        text::chomp((head + body).push('\n')) == head + body,
{
    lemma_no_break(head, body);
    let line = head + body;
    assert(line.push('\n').drop_last() =~= line);
    assert(line.last() == body.last());
}

pub proof fn lemma_word_unbroken(c: Seq<char>)
    requires
        text::is_word(c),
    ensures
        !c.contains('\n'),
        !text::is_white(c.last()),
{
    if c.contains('\n') {
        let i = choose|i: int| 0 <= i < c.len() && c[i] == '\n';
        assert(text::is_white(c[i]));
    }
}

/// What reading gives back of the line of `t`.
spec fn line_read_back(t: TodoModel) -> bool {
    &&& !is_idle(t.line())
    &&& instruction_of(command_of(t.line()), arguments_of(t.line())) == Some(Some(t))
    &&& !t.line().contains('\n')
    &&& text::chomp(t.line().push('\n')) == t.line()
}

proof fn lemma_commit_line(head: Seq<char>, w: Seq<char>, c: Seq<char>)
    requires
        head == w + " "@,
        text::is_word(w),
        w[0] != '#',
        text::is_word(c),
    ensures
        ({
            let line = head + c;
            &&& !is_idle(line)
            &&& command_of(line) == w
            &&& arguments_of(line) == c
            &&& text::first_word(c) == c
            &&& !line.contains('\n')
            &&& text::chomp(line.push('\n')) == line
        }),
{
    reveal_strlit(" ");
    lemma_row(w, c);
    lemma_word_args(c);
    lemma_word_unbroken(w);
    lemma_word_unbroken(c);
    lemma_no_break(w, " "@);
    lemma_row_unbroken(head, c);
}

proof fn lemma_fixup_line(c: Seq<char>, flag: Option<FixupFlag>)
    requires
        text::is_word(c),
        flag is Some || (c != "-C"@ && c != "-c"@),
    ensures
        line_read_back(TodoModel::Fixup { commit: c, flag }),
{
    let t = TodoModel::Fixup { commit: c, flag };
    reveal_strlit(" ");
    reveal_strlit("fixup");
    reveal_strlit("fixup ");
    assert("fixup "@ =~= "fixup"@ + " "@);
    lemma_word_args(c);
    match flag {
        None => {
            lemma_commit_line("fixup "@, "fixup"@, c);
            lemma_command_words(c);
        },
        Some(f) => {
            reveal_strlit("fixup -C ");
            reveal_strlit("fixup -c ");
            reveal_strlit("-C");
            reveal_strlit("-c");
            let mark = if f == FixupFlag::KeepThis {
                "-C"@
            } else {
                "-c"@
            };
            let rest = " "@ + c;
            let line = t.line();
            assert(line =~= "fixup"@ + " "@ + (mark + rest));
            assert((mark + rest).last() == c.last());
            lemma_row("fixup"@, mark + rest);
            text::lemma_first_word(mark, rest);
            assert(rest.drop_first() =~= c);
            assert(text::trim_start(c) == c);
            assert(text::trim_start(rest) == text::trim_start(c));
            assert(text::first_word(rest) == c);
            lemma_command_words(mark + rest);
            lemma_word_unbroken(c);
            let head = "fixup "@ + mark + " "@;
            assert(line =~= head + c);
            lemma_row_unbroken(head, c);
            assert(fixup_of(mark + rest) == Some(t)) by {
                assert("-C"@[1] != "-c"@[1]);
            }
            assert(instruction_of("fixup"@, mark + rest) == Some(Some(t)));
        },
    }
}

/// The line of a plain instruction is read as that instruction.
proof fn lemma_line_round_trip(t: TodoModel)
    requires
        is_plain(t),
    ensures
        line_read_back(t),
{
    reveal_strlit(" ");
    match t {
        TodoModel::Pick { commit } => {
            reveal_strlit("pick");
            reveal_strlit("pick ");
            assert("pick "@ =~= "pick"@ + " "@);
            lemma_commit_line("pick "@, "pick"@, commit);
            lemma_command_words(commit);
        },
        TodoModel::Reword { commit } => {
            reveal_strlit("reword");
            reveal_strlit("reword ");
            assert("reword "@ =~= "reword"@ + " "@);
            lemma_commit_line("reword "@, "reword"@, commit);
            lemma_command_words(commit);
        },
        TodoModel::Edit { commit } => {
            reveal_strlit("edit");
            reveal_strlit("edit ");
            assert("edit "@ =~= "edit"@ + " "@);
            lemma_commit_line("edit "@, "edit"@, commit);
            lemma_command_words(commit);
        },
        TodoModel::Squash { commit } => {
            reveal_strlit("squash");
            reveal_strlit("squash ");
            assert("squash "@ =~= "squash"@ + " "@);
            lemma_commit_line("squash "@, "squash"@, commit);
            lemma_command_words(commit);
        },
        TodoModel::Fixup { commit, flag } => {
            lemma_fixup_line(commit, flag);
        },
        TodoModel::Exec { cmd } => {
            lemma_words_differ();
            reveal_strlit("exec");
            reveal_strlit("exec ");
            assert("exec "@ =~= "exec"@ + " "@);
            lemma_row("exec"@, cmd);
            lemma_row_unbroken("exec "@, cmd);
            assert(text::trim(cmd) == cmd);
        },
        TodoModel::Break => {
            lemma_words_differ();
            reveal_strlit("break");
            text::lemma_first_word("break"@, Seq::empty());
            assert("break"@ + Seq::<char>::empty() =~= "break"@);
            assert(text::trim("break"@) == "break"@);
            assert("break"@.take(5) =~= "break"@);
            lemma_row_unbroken(Seq::empty(), "break"@);
            assert(Seq::<char>::empty() + "break"@ =~= "break"@);
        },
        TodoModel::Drop { commit } => {
            reveal_strlit("drop");
            reveal_strlit("drop ");
            assert("drop "@ =~= "drop"@ + " "@);
            lemma_commit_line("drop "@, "drop"@, commit->0);
            lemma_command_words(commit->0);
        },
    }
}

/// Whether `row`, read as a line of a buffer, says `t`.
pub open spec fn row_says(row: Seq<char>, t: TodoModel) -> bool {
    let read = text::chomp(row.push('\n'));
    &&& !row.contains('\n')
    &&& !is_idle(read)
    &&& instruction_of(command_of(read), arguments_of(read)) == Some(Some(t))
}

/// Rows that say `v` are read as `v`.
proof fn lemma_rows_round_trip(rows: Seq<Seq<char>>, v: Seq<TodoModel>, rest: Seq<char>, number: int)
    requires
        rows.len() == v.len(),
        forall|i: int| 0 <= i < v.len() ==> row_says(rows[i], #[trigger] v[i]),
    ensures
        todo_from(text::lines(rows_text(rows) + rest), number) == prepended(
            v,
            todo_from(text::lines(rest), number + v.len()),
        ),
    decreases v.len(),
{
    if v.len() == 0 {
        assert(rows_text(rows) + rest =~= rest);
        lemma_prepend_nothing(todo_from(text::lines(rest), number));
        assert(v =~= Seq::<TodoModel>::empty());
    } else {
        let row = rows[0];
        let w = v.drop_first();
        let others = rows.drop_first();
        assert(row_says(rows[0], v[0]));
        assert forall|i: int| 0 <= i < w.len() implies row_says(others[i], #[trigger] w[i]) by {
            assert(w[i] == v[i + 1]);
            assert(others[i] == rows[i + 1]);
        }
        lemma_rows_text_front(rows);
        let tail = rows_text(others) + rest;
        assert(rows_text(rows) + rest =~= row.push('\n') + tail);
        text::lemma_split_keep_line(row, tail);
        let all = text::lines(rows_text(rows) + rest);
        assert(all[0] == text::chomp(row.push('\n')));
        assert(all.drop_first() =~= text::lines(tail));
        lemma_rows_round_trip(others, w, rest, number + 1);
        lemma_prepend_step(
            Seq::empty(),
            v[0],
            prepended(w, todo_from(text::lines(rest), number + v.len())),
        );
        if let Ok(b) = todo_from(text::lines(rest), number + v.len()) {
            assert(seq![v[0]] + (w + b) =~= v + b);
        }
    }
}

proof fn lemma_rows_text_front(rows: Seq<Seq<char>>)
    requires
        rows.len() > 0,
    ensures
        rows_text(rows) == rows[0].push('\n') + rows_text(rows.drop_first()),
    decreases rows.len(),
{
    reveal_strlit("\n");
    if rows.len() == 1 {
        assert(rows.drop_last() =~= Seq::<Seq<char>>::empty());
        assert(rows.drop_first() =~= Seq::<Seq<char>>::empty());
        assert(rows_text(rows) =~= rows[0].push('\n') + rows_text(rows.drop_first()));
    } else {
        lemma_rows_text_front(rows.drop_last());
        assert(rows.drop_last().drop_first() =~= rows.drop_first().drop_last());
        assert(rows_text(rows) =~= rows[0].push('\n') + rows_text(rows.drop_first()));
    }
}

/// Rows that say `v`, a blank line and comments are read as `v`.
pub proof fn lemma_buffer_round_trip(rows: Seq<Seq<char>>, v: Seq<TodoModel>, comments: Seq<char>)
    requires
        rows.len() == v.len(),
        forall|i: int| 0 <= i < v.len() ==> row_says(rows[i], #[trigger] v[i]),
        text::is_comment(comments),
    ensures
        todo(rows_text(rows) + seq!['\n'] + comments) == Ok::<Seq<TodoModel>, TodoErrorModel>(v),
{
    let rest = seq!['\n'] + comments;
    assert(rows_text(rows) + seq!['\n'] + comments =~= rows_text(rows) + rest);
    lemma_rows_round_trip(rows, v, rest, 1);
    let none = Seq::<char>::empty();
    assert(rest =~= none.push('\n') + comments);
    text::lemma_split_keep_line(none, comments);
    let n = 1 + v.len() as int;
    let all = text::lines(rest);
    let blank = text::chomp(none.push('\n'));
    assert(none.push('\n').drop_last() =~= none);
    assert(blank.len() == 0);
    text::lemma_trim_blank(blank);
    assert(all[0] == blank);
    assert(all.drop_first() =~= text::lines(comments));
    lemma_comment_idle(comments, n + 1);
    assert(todo_from(all, n) == todo_from(text::lines(comments), n + 1));
    assert(v + Seq::<TodoModel>::empty() =~= v);
}

/// Reading back the buffer that was written for a list of instructions gives
/// the list: the comments round it are ignored.
pub proof fn law_remaining_todo_round_trip(v: Seq<TodoModel>, onto: Seq<char>, head: Seq<char>)
    requires
        forall|i: int| 0 <= i < v.len() ==> is_plain(#[trigger] v[i]),
        !onto.contains('\n'),
        !head.contains('\n'),
    ensures
        todo(remaining_buffer(v, onto, head)) == Ok::<Seq<TodoModel>, TodoErrorModel>(v),
{
    let line = closing_line(v.len(), onto, head).push('\n');
    let comments = line + ONGOING_REBASE_TODO_HINT@ + TODO_HELP_COMMENTS@;
    lemma_closing(v.len(), onto, head);
    lemma_hint_is_comment();
    lemma_help_is_comment();
    lemma_comment_add(line, ONGOING_REBASE_TODO_HINT@);
    lemma_comment_add(line + ONGOING_REBASE_TODO_HINT@, TODO_HELP_COMMENTS@);
    let rows = instruction_rows(v);
    assert forall|i: int| 0 <= i < v.len() implies row_says(rows[i], #[trigger] v[i]) by {
        lemma_line_round_trip(v[i]);
    }
    assert(remaining_buffer(v, onto, head) =~= rows_text(rows) + seq!['\n'] + comments);
    lemma_buffer_round_trip(rows, v, comments);
}

/// Whitespace at the end goes, up to what is solid.
proof fn lemma_trim_end_solid(u: Seq<char>, t: Seq<char>)
    requires
        u.len() > 0,
        !text::is_white(u.last()),
    ensures
        text::trim_end(u + t) == u + text::trim_end(t),
    decreases t.len(),
{
    if t.len() == 0 {
        assert(u + t =~= u);
        assert(text::trim_end(t) =~= t);
    } else {
        assert((u + t).last() == t.last());
        if text::is_white(t.last()) {
            assert((u + t).drop_last() =~= u + t.drop_last());
            lemma_trim_end_solid(u, t.drop_last());
        }
    }
}

/// A `pick` line of the first list says to pick its commit, whatever the
/// subject is.
proof fn lemma_pick_row(c: TodoRenderCommit)
    requires
        text::is_word(c.abbrev@),
        !c.subject@.contains('\n'),
    ensures
        row_says(pick_row(c), TodoModel::Pick { commit: c.abbrev@ }),
{
    reveal_strlit(" ");
    reveal_strlit("pick");
    reveal_strlit("pick ");
    reveal_strlit(" # ");
    let a = c.abbrev@;
    let row = pick_row(c);
    let solid = "pick "@ + a + seq![' ', '#'];
    let after = seq![' '] + c.subject@;
    assert(row =~= solid + after);
    assert(row[0] == 'p');
    lemma_trim_end_solid(solid, after);
    let x = a + (seq![' ', '#'] + text::trim_end(after));
    assert("pick "@ =~= "pick"@ + " "@);
    assert(text::trim_end(row) =~= "pick"@ + " "@ + x);
    assert(!text::is_white(x.last())) by {
        let e = text::trim_end(after);
        lemma_trim_end_is_solid(after);
        if e.len() > 0 {
            assert(x.last() == e.last());
        } else {
            assert(x.last() == '#');
        }
    }
    assert(x[0] == a[0]);
    lemma_row("pick"@, x);
    let read = text::chomp(row.push('\n'));
    assert(row.push('\n').drop_last() =~= row);
    assert(text::trim(read) == text::trim_end(row)) by {
        if read.len() < row.len() {
            assert(row.last() == '\r');
            assert(read =~= row.drop_last());
            assert(read[0] == row[0]);
        } else {
            assert(read =~= row);
        }
    }
    let whole = "pick"@ + " "@ + x;
    assert(text::trim(whole) == whole);
    assert(command_of(read) == command_of(whole));
    assert(arguments_of(read) == arguments_of(whole));
    text::lemma_first_word(a, seq![' ', '#'] + text::trim_end(after));
    assert(text::trim_start(x) == x);
    assert(text::first_word(x) =~= a);
    lemma_command_words(x);
    lemma_word_unbroken(a);
    lemma_no_break("pick "@, a);
    lemma_no_break("pick "@ + a, " # "@);
    lemma_no_break("pick "@ + a + " # "@, c.subject@);
}

proof fn lemma_trim_end_is_solid(s: Seq<char>)
    ensures
        text::trim_end(s).len() > 0 ==> !text::is_white(text::trim_end(s).last()),
    decreases s.len(),
{
    if s.len() > 0 && text::is_white(s.last()) {
        lemma_trim_end_is_solid(s.drop_last());
    }
}

/// The first list, left as it was written, picks every commit in order: the
/// subjects and the comments are ignored.
pub proof fn law_first_todo_picks_every_commit(
    commits: Seq<TodoRenderCommit>,
    onto: Seq<char>,
    head: Seq<char>,
)
    requires
        forall|i: int|
            0 <= i < commits.len() ==> text::is_word((#[trigger] commits[i]).abbrev@)
                && !commits[i].subject@.contains('\n'),
        !onto.contains('\n'),
        !head.contains('\n'),
    ensures
        todo(first_buffer(commits, onto, head)) == Ok::<Seq<TodoModel>, TodoErrorModel>(
            commits.map_values(|c: TodoRenderCommit| TodoModel::Pick { commit: c.abbrev@ }),
        ),
{
    let v = commits.map_values(|c: TodoRenderCommit| TodoModel::Pick { commit: c.abbrev@ });
    let rows = pick_rows(commits);
    let line = closing_line(v.len(), onto, head).push('\n');
    let comments = line + TODO_HELP_COMMENTS@;
    lemma_closing(v.len(), onto, head);
    lemma_help_is_comment();
    lemma_comment_add(line, TODO_HELP_COMMENTS@);
    assert forall|i: int| 0 <= i < v.len() implies row_says(rows[i], #[trigger] v[i]) by {
        lemma_pick_row(commits[i]);
    }
    assert(first_buffer(commits, onto, head) =~= rows_text(rows) + seq!['\n'] + comments);
    lemma_buffer_round_trip(rows, v, comments);
}

} // verus!
