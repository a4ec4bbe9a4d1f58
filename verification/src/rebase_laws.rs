//! What the todo list of an interactive rebase is for: which instructions a
//! text gives, whatever stands round them.

use vstd::prelude::*;

use crate::rebase_todo;
use crate::rebase_todo::{FixupFlag, TodoErrorModel, TodoModel, TodoRenderCommit};
use crate::text;

verus! {

//// Lines

/// What the lines of a text give, one behind the other.
pub open spec fn followed(
    first: Result<Seq<TodoModel>, TodoErrorModel>,
    rest: Result<Seq<TodoModel>, TodoErrorModel>,
) -> Result<Seq<TodoModel>, TodoErrorModel> {
    match first {
        Err(e) => Err(e),
        Ok(a) => match rest {
            Ok(b) => Ok(a + b),
            Err(TodoErrorModel::InvalidCommand { command, number, line }) => Err(
                TodoErrorModel::InvalidCommand { command, number: number + 1, line },
            ),
            Err(TodoErrorModel::InvalidLine { number, line }) => Err(
                TodoErrorModel::InvalidLine { number: number + 1, line },
            ),
        },
    }
}

proof fn lemma_number(rows: Seq<Seq<char>>, number: int)
    ensures
        followed(Ok(Seq::empty()), rebase_todo::todo_from(rows, number)) == rebase_todo::todo_from(
            rows,
            number + 1,
        ),
    decreases rows.len(),
{
    if rows.len() == 0 {
        assert(Seq::<TodoModel>::empty() + Seq::<TodoModel>::empty() =~= Seq::<TodoModel>::empty());
    } else {
        lemma_number(rows.drop_first(), number + 1);
        if let Ok(b) = rebase_todo::todo_from(rows, number) {
            assert(Seq::<TodoModel>::empty() + b =~= b);
        }
        if let Ok(b) = rebase_todo::todo_from(rows.drop_first(), number + 1) {
            assert(Seq::<TodoModel>::empty() + b =~= b);
        }
    }
}

/// A todo list is read line by line, from top to bottom: the first line gives
/// what it gives alone, the others what they give without it, and an error
/// tells its line.
pub proof fn law_todo_is_read_line_by_line(l: Seq<char>, rest: Seq<char>)
    requires
        !l.contains('\n'),
    ensures
        rebase_todo::todo(l.push('\n') + rest) == followed(
            rebase_todo::todo(l.push('\n')),
            rebase_todo::todo(rest),
        ),
{
    let none = Seq::<char>::empty();
    text::lemma_split_keep_line(l, rest);
    text::lemma_split_keep_line(l, none);
    assert(l.push('\n') + none =~= l.push('\n'));
    let row = text::chomp(l.push('\n'));
    let all = text::lines(l.push('\n') + rest);
    let one = text::lines(l.push('\n'));
    assert(text::lines(none) =~= Seq::<Seq<char>>::empty());
    assert(one =~= seq![row]);
    assert(all.drop_first() =~= text::lines(rest));
    assert(one.drop_first() =~= Seq::<Seq<char>>::empty());
    lemma_number(text::lines(rest), 1);
    reveal_with_fuel(rebase_todo::todo_from, 2);
    if let Ok(b) = rebase_todo::todo(rest) {
        assert(Seq::<TodoModel>::empty() + b =~= b);
    }
}

/// The end of a line makes no difference: a newline, a carriage return before
/// it, or the end of the text.
pub proof fn law_line_ends_make_no_difference(l: Seq<char>)
    requires
        l.len() > 0,
        !l.contains('\n'),
        l.last() != '\r',
    ensures
        rebase_todo::todo(l.push('\n')) == rebase_todo::todo(l),
        rebase_todo::todo(l.push('\r').push('\n')) == rebase_todo::todo(l),
{
    let none = Seq::<char>::empty();
    let r = l.push('\r');
    assert(!r.contains('\n')) by {
        if r.contains('\n') {
            let i = choose|i: int| 0 <= i < r.len() && r[i] == '\n';
            assert(l[i] == '\n');
        }
    }
    text::lemma_split_keep_line(l, none);
    text::lemma_split_keep_line(r, none);
    assert(l.push('\n') + none =~= l.push('\n'));
    assert(r.push('\n') + none =~= r.push('\n'));
    assert(l.push('\n').drop_last() =~= l);
    assert(r.push('\n').drop_last() =~= r);
    assert(r.drop_last() =~= l);
    assert(text::lines(none) =~= Seq::<Seq<char>>::empty());
    assert(text::split_keep(l) =~= seq![l]);
    assert(l.last() != '\n') by {
        assert(l.contains(l.last()));
    }
    assert(text::lines(l) =~= seq![l]);
    assert(text::lines(l.push('\n')) =~= seq![l]);
    assert(text::lines(r.push('\n')) =~= seq![l]);
}

/// What a text without a line break gives.
proof fn lemma_one_line(l: Seq<char>)
    requires
        l.len() > 0,
        !l.contains('\n'),
    ensures
        rebase_todo::is_idle(l) ==> rebase_todo::todo(l) == Ok::<Seq<TodoModel>, TodoErrorModel>(
            Seq::empty(),
        ),
        !rebase_todo::is_idle(l) ==> rebase_todo::todo(l) == match rebase_todo::instruction_of(
            rebase_todo::command_of(l),
            rebase_todo::arguments_of(l),
        ) {
            None => Err(
                TodoErrorModel::InvalidCommand {
                    command: rebase_todo::command_of(l),
                    number: 1,
                    line: l,
                },
            ),
            Some(None) => Err(TodoErrorModel::InvalidLine { number: 1, line: l }),
            Some(Some(t)) => Ok(seq![t]),
        },
{
    assert(text::split_keep(l) =~= seq![l]);
    assert(l.last() != '\n') by {
        assert(l.contains(l.last()));
    }
    assert(text::lines(l) =~= seq![l]);
    assert(text::lines(l).drop_first() =~= Seq::<Seq<char>>::empty());
    reveal_with_fuel(rebase_todo::todo_from, 2);
    let none = Seq::<TodoModel>::empty();
    assert forall|t: TodoModel| #[trigger] (seq![t] + none) == seq![t] by {
        assert(seq![t] + none =~= seq![t]);
    }
}

//// Words

/// Whitespace, a word and what follows it, trimmed.
proof fn lemma_trim_word(gap: Seq<char>, w: Seq<char>, after: Seq<char>)
    requires
        text::is_blank(gap),
        text::is_word(w),
        after.len() > 0 ==> text::is_white(after[0]),
    ensures
        text::trim(gap + w + after) == w + text::trim_end(after),
        text::trim_end(after).len() > 0 ==> text::is_white(text::trim_end(after)[0]),
{
    text::lemma_trim_end_cut(after);
    let e = text::trim_end(after);
    let s = gap + w + after;
    let t = w + e;
    assert(t =~= s.subrange(gap.len() as int, gap.len() as int + t.len()));
    if e.len() > 0 {
        assert(e[0] == after[0]);
        assert(t.last() == e.last());
    } else {
        assert(t.last() == w.last());
    }
    assert(t[0] == w[0]);
    assert forall|i: int| 0 <= i < gap.len() implies text::is_white(#[trigger] s[i]) by {
        assert(s[i] == gap[i]);
    }
    assert forall|i: int| gap.len() + t.len() <= i < s.len() implies text::is_white(
        #[trigger] s[i],
    ) by {
        assert(s[i] == after[i - gap.len() - w.len()]);
    }
    text::lemma_trim_is(s, gap.len() as int, t);
}

/// A line that starts with a command word, and what it is given.
proof fn lemma_command_line(lead: Seq<char>, w: Seq<char>, after: Seq<char>)
    requires
        text::is_blank(lead),
        text::is_word(w),
        w[0] != '#',
        after.len() > 0 ==> text::is_white(after[0]),
    ensures
        ({
            let l = lead + w + after;
            &&& !rebase_todo::is_idle(l)
            &&& rebase_todo::command_of(l) == w
            &&& rebase_todo::arguments_of(l) == text::trim(after)
        }),
{
    lemma_trim_word(lead, w, after);
    let e = text::trim_end(after);
    let t = w + e;
    text::lemma_trim_end_cut(after);
    text::lemma_first_word(w, e);
    assert(t[0] == w[0]);
    assert(t.take(w.len() as int) =~= w);
    assert(t.skip(w.len() as int) =~= e);
    text::lemma_trim_start_cut(e);
    let u = text::trim_start(e);
    let k = text::trimmed_away(e);
    assert(u =~= after.subrange(k, k + u.len()));
    assert forall|i: int| 0 <= i < k implies text::is_white(#[trigger] after[i]) by {
        assert(after[i] == e[i]);
    }
    if u.len() > 0 {
        assert(u.last() == e.last());
    } else if e.len() > 0 {
        assert(text::is_white(e[e.len() - 1]));
    }
    text::lemma_trim_is(after, k, u);
}

/// The first word of what a command is given.
proof fn lemma_given_word(gap: Seq<char>, c: Seq<char>, tail: Seq<char>)
    requires
        text::is_blank(gap),
        text::is_word(c),
        tail.len() > 0 ==> text::is_white(tail[0]),
    ensures
        text::first_word(text::trim(gap + c + tail)) == c,
        text::after_first_word(text::trim(gap + c + tail)) == text::trim_end(tail),
{
    lemma_trim_word(gap, c, tail);
    text::lemma_first_word(c, text::trim_end(tail));
}

/// Whether a text can stand on one line.
pub open spec fn unbroken(s: Seq<char>) -> bool {
    !s.contains('\n')
}

proof fn lemma_unbroken(a: Seq<char>, b: Seq<char>)
    ensures
        unbroken(a + b) == (unbroken(a) && unbroken(b)),
{
    let s = a + b;
    if s.contains('\n') {
        let i = choose|i: int| 0 <= i < s.len() && s[i] == '\n';
        if i < a.len() {
            assert(a[i] == '\n');
        } else {
            assert(b[i - a.len()] == '\n');
        }
    }
    if a.contains('\n') {
        let i = choose|i: int| 0 <= i < a.len() && a[i] == '\n';
        assert(s[i] == '\n');
    }
    if b.contains('\n') {
        let i = choose|i: int| 0 <= i < b.len() && b[i] == '\n';
        assert(s[a.len() + i] == '\n');
    }
}

proof fn lemma_words()
    ensures
        forall|w: Seq<char>| #[trigger] is_command(w) ==> text::is_word(w) && w[0] != '#' && unbroken(w),
{
    rebase_todo::lemma_words_differ();
    reveal_strlit("pick");
    reveal_strlit("p");
    reveal_strlit("reword");
    reveal_strlit("r");
    reveal_strlit("edit");
    reveal_strlit("e");
    reveal_strlit("squash");
    reveal_strlit("s");
    reveal_strlit("fixup");
    reveal_strlit("f");
    reveal_strlit("exec");
    reveal_strlit("x");
    reveal_strlit("break");
    reveal_strlit("b");
    reveal_strlit("drop");
    reveal_strlit("d");
}

/// The command words are told apart.
proof fn lemma_letters()
    ensures
        "pick"@.len() == 4 && "pick"@[0] == 'p' && "p"@.len() == 1 && "p"@[0] == 'p',
        "reword"@.len() == 6 && "reword"@[0] == 'r' && "r"@.len() == 1 && "r"@[0] == 'r',
        "edit"@.len() == 4 && "edit"@[0] == 'e' && "edit"@[1] == 'd',
        "e"@.len() == 1 && "e"@[0] == 'e',
        "squash"@.len() == 6 && "squash"@[0] == 's' && "s"@.len() == 1 && "s"@[0] == 's',
        "fixup"@.len() == 5 && "fixup"@[0] == 'f' && "f"@.len() == 1 && "f"@[0] == 'f',
        "exec"@.len() == 4 && "exec"@[0] == 'e' && "exec"@[1] == 'x',
        "x"@.len() == 1 && "x"@[0] == 'x',
        "break"@.len() == 5 && "break"@[0] == 'b' && "b"@.len() == 1 && "b"@[0] == 'b',
        "drop"@.len() == 4 && "drop"@[0] == 'd' && "d"@.len() == 1 && "d"@[0] == 'd',
        "-C"@.len() == 2 && "-C"@[0] == '-' && "-C"@[1] == 'C',
        "-c"@.len() == 2 && "-c"@[0] == '-' && "-c"@[1] == 'c',
{
    reveal_strlit("pick");
    reveal_strlit("p");
    reveal_strlit("reword");
    reveal_strlit("r");
    reveal_strlit("edit");
    reveal_strlit("e");
    reveal_strlit("squash");
    reveal_strlit("s");
    reveal_strlit("fixup");
    reveal_strlit("f");
    reveal_strlit("exec");
    reveal_strlit("x");
    reveal_strlit("break");
    reveal_strlit("b");
    reveal_strlit("drop");
    reveal_strlit("d");
    reveal_strlit("-C");
    reveal_strlit("-c");
}

proof fn lemma_asked(w: Seq<char>, rest: Seq<char>, t: TodoModel)
    requires
        asks_for(w, t),
        about(t) == Some(text::first_word(rest)),
        text::first_word(rest).len() > 0,
    ensures
        rebase_todo::instruction_of(w, rest) == Some(Some(t)),
{
    lemma_letters();
}

proof fn lemma_other_commands(w: Seq<char>, rest: Seq<char>)
    ensures
        w == "fixup"@ || w == "f"@ ==> rebase_todo::instruction_of(w, rest) == Some(
            rebase_todo::fixup_of(rest),
        ),
        w == "exec"@ || w == "x"@ ==> rebase_todo::instruction_of(w, rest) == Some(
            if text::trim(rest).len() > 0 {
                Some(TodoModel::Exec { cmd: text::trim(rest) })
            } else {
                None
            },
        ),
        w == "break"@ || w == "b"@ ==> rebase_todo::instruction_of(w, rest) == Some(
            Some(TodoModel::Break),
        ),
{
    lemma_letters();
}

/// The commands that a todo list knows, by both of their names.
pub open spec fn is_command(w: Seq<char>) -> bool {
    ||| w == "pick"@ || w == "p"@ || w == "reword"@ || w == "r"@ || w == "edit"@ || w == "e"@
    ||| w == "squash"@ || w == "s"@ || w == "fixup"@ || w == "f"@ || w == "exec"@ || w == "x"@
    ||| w == "break"@ || w == "b"@ || w == "drop"@ || w == "d"@
}

/// Whether a command word asks for `t`, which names a commit and has no flag.
pub open spec fn asks_for(w: Seq<char>, t: TodoModel) -> bool {
    match t {
        TodoModel::Pick { .. } => w == "pick"@ || w == "p"@,
        TodoModel::Reword { .. } => w == "reword"@ || w == "r"@,
        TodoModel::Edit { .. } => w == "edit"@ || w == "e"@,
        TodoModel::Squash { .. } => w == "squash"@ || w == "s"@,
        TodoModel::Fixup { commit, flag } => flag is None && (w == "fixup"@ || w == "f"@) && commit
            != "-C"@ && commit != "-c"@,
        TodoModel::Drop { commit } => commit is Some && (w == "drop"@ || w == "d"@),
        TodoModel::Exec { .. } => false,
        TodoModel::Break => false,
    }
}

/// The commit that an instruction is about.
pub open spec fn about(t: TodoModel) -> Option<Seq<char>> {
    match t {
        TodoModel::Pick { commit } => Some(commit),
        TodoModel::Reword { commit } => Some(commit),
        TodoModel::Edit { commit } => Some(commit),
        TodoModel::Squash { commit } => Some(commit),
        TodoModel::Fixup { commit, .. } => Some(commit),
        TodoModel::Drop { commit } => commit,
        TodoModel::Exec { .. } => None,
        TodoModel::Break => None,
    }
}

/// A line made of a command, whitespace and a commit says that command on
/// exactly that commit: whitespace before it and whatever follows are ignored.
pub proof fn law_rest_of_the_line_is_ignored(
    lead: Seq<char>,
    w: Seq<char>,
    gap: Seq<char>,
    t: TodoModel,
    tail: Seq<char>,
)
    requires
        text::is_blank(lead) && unbroken(lead),
        text::is_blank(gap) && gap.len() > 0 && unbroken(gap),
        about(t) matches Some(c) && text::is_word(c),
        asks_for(w, t),
        tail.len() > 0 ==> text::is_white(tail[0]),
        unbroken(tail),
    ensures
        rebase_todo::todo(lead + w + gap + about(t)->0 + tail) == Ok::<
            Seq<TodoModel>,
            TodoErrorModel,
        >(seq![t]),
{
    let c = about(t)->0;
    lemma_words();
    assert(is_command(w));
    let after = gap + c + tail;
    let l = lead + w + gap + c + tail;
    assert(l =~= lead + w + after);
    assert(after[0] == gap[0]);
    lemma_command_line(lead, w, after);
    lemma_given_word(gap, c, tail);
    rebase_todo::lemma_word_unbroken(c);
    lemma_unbroken(lead + w + gap + c, tail);
    lemma_unbroken(lead + w + gap, c);
    lemma_unbroken(lead + w, gap);
    lemma_unbroken(lead, w);
    lemma_one_line(l);
    lemma_asked(w, text::trim(after), t);
}

proof fn lemma_second_word(gap: Seq<char>, c: Seq<char>, tail: Seq<char>)
    requires
        text::is_blank(gap),
        text::is_word(c),
        tail.len() > 0 ==> text::is_white(tail[0]),
    ensures
        text::first_word(text::trim_end(gap + c + tail)) == c,
{
    let more = gap + c + tail;
    text::lemma_trim_end_cut(more);
    text::lemma_trim_end_cut(tail);
    let e = text::trim_end(more);
    let rest = text::trim_end(tail);
    assert(e =~= gap + c + rest) by {
        let m = gap + c + rest;
        assert(m =~= more.take(m.len() as int));
        let k = e.len() as int;
        if rest.len() > 0 {
            assert(m.last() == rest.last());
        } else {
            assert(m.last() == c.last());
        }
        if k < m.len() {
            assert(text::is_white(more[m.len() - 1]));
            assert(more[m.len() - 1] == m.last());
        }
        if k > m.len() {
            assert(e.last() == more[k - 1]);
            assert(more[k - 1] == tail[k - 1 - gap.len() - c.len()]);
        }
    }
    text::lemma_trim_start_cut(e);
    let k = text::trimmed_away(e);
    assert(k == gap.len()) by {
        if k < gap.len() {
            assert(text::trim_start(e)[0] == e[k]);
            assert(e[k] == gap[k]);
        }
        if k > gap.len() {
            assert(e[gap.len() as int] == c[0]);
        }
    }
    assert(text::trim_start(e) =~= c + rest);
    if rest.len() > 0 {
        assert(rest[0] == tail[0]);
    }
    text::lemma_first_word(c, rest);
    assert((c + rest).take(c.len() as int) =~= c);
}

/// `fixup` with `-C` or `-c` before the commit keeps the message of that
/// commit, as it is or to be edited.
pub proof fn law_fixup_flags(
    lead: Seq<char>,
    w: Seq<char>,
    gap: Seq<char>,
    flag: FixupFlag,
    gap2: Seq<char>,
    c: Seq<char>,
    tail: Seq<char>,
)
    requires
        text::is_blank(lead) && unbroken(lead),
        w == "fixup"@ || w == "f"@,
        text::is_blank(gap) && gap.len() > 0 && unbroken(gap),
        text::is_blank(gap2) && gap2.len() > 0 && unbroken(gap2),
        text::is_word(c),
        tail.len() > 0 ==> text::is_white(tail[0]),
        unbroken(tail),
    ensures
        ({
            let mark = if flag == FixupFlag::KeepThis {
                "-C"@
            } else {
                "-c"@
            };
            rebase_todo::todo(lead + w + gap + mark + gap2 + c + tail) == Ok::<
                Seq<TodoModel>,
                TodoErrorModel,
            >(seq![TodoModel::Fixup { commit: c, flag: Some(flag) }])
        }),
{
    let mark = if flag == FixupFlag::KeepThis {
        "-C"@
    } else {
        "-c"@
    };
    lemma_words();
    assert(text::is_word(mark) && unbroken(mark)) by {
        reveal_strlit("-C");
        reveal_strlit("-c");
    }
    assert(is_command(w));
    let more = gap2 + c + tail;
    let after = gap + mark + more;
    let l = lead + w + gap + mark + gap2 + c + tail;
    assert(l =~= lead + w + after);
    assert(after[0] == gap[0]);
    assert(more[0] == gap2[0]);
    lemma_command_line(lead, w, after);
    lemma_given_word(gap, mark, more);
    lemma_second_word(gap2, c, tail);
    lemma_letters();
    lemma_other_commands(w, text::trim(after));
    rebase_todo::lemma_word_unbroken(c);
    lemma_unbroken(lead + w + gap + mark + gap2 + c, tail);
    lemma_unbroken(lead + w + gap + mark + gap2, c);
    lemma_unbroken(lead + w + gap + mark, gap2);
    lemma_unbroken(lead + w + gap, mark);
    lemma_unbroken(lead + w, gap);
    lemma_unbroken(lead, w);
    lemma_one_line(l);
}

/// `exec` takes the whole rest of the line, and `break` needs nothing.
pub proof fn law_exec_takes_the_rest_of_the_line(
    lead: Seq<char>,
    w: Seq<char>,
    gap: Seq<char>,
    cmd: Seq<char>,
    tail: Seq<char>,
)
    requires
        text::is_blank(lead) && unbroken(lead),
        text::is_blank(gap) && gap.len() > 0 && unbroken(gap),
        text::is_blank(tail) && unbroken(tail),
        unbroken(cmd),
        cmd.len() > 0 && !text::is_white(cmd[0]) && !text::is_white(cmd.last()),
    ensures
        w == "exec"@ || w == "x"@ ==> rebase_todo::todo(lead + w + gap + cmd + tail) == Ok::<
            Seq<TodoModel>,
            TodoErrorModel,
        >(seq![TodoModel::Exec { cmd }]),
        w == "break"@ || w == "b"@ ==> rebase_todo::todo(lead + w + gap + cmd + tail) == Ok::<
            Seq<TodoModel>,
            TodoErrorModel,
        >(seq![TodoModel::Break]),
        w == "break"@ || w == "b"@ ==> rebase_todo::todo(lead + w + tail) == Ok::<
            Seq<TodoModel>,
            TodoErrorModel,
        >(seq![TodoModel::Break]),
{
    if w == "exec"@ || w == "x"@ || w == "break"@ || w == "b"@ {
        lemma_words();
        assert(is_command(w));
        let after = gap + cmd + tail;
        let l = lead + w + gap + cmd + tail;
        assert(l =~= lead + w + after);
        assert(after[0] == gap[0]);
        lemma_command_line(lead, w, after);
        text::lemma_trim_around(gap, cmd, tail);
        assert(cmd =~= cmd.subrange(0, cmd.len() as int));
        text::lemma_trim_is(cmd, 0, cmd);
        lemma_unbroken(lead + w + gap + cmd, tail);
        lemma_unbroken(lead + w + gap, cmd);
        lemma_unbroken(lead + w, gap);
        lemma_unbroken(lead, w);
        lemma_one_line(l);
        lemma_other_commands(w, text::trim(after));
        lemma_other_commands(w, text::trim(tail));
        lemma_command_line(lead, w, tail);
        lemma_unbroken(lead + w, tail);
        lemma_one_line(lead + w + tail);
    }
}

/// A command that lacks its commit, or `exec` without a command, is an error
/// of its line; so is `fixup` with a flag alone.
pub proof fn law_missing_arguments_are_errors(
    lead: Seq<char>,
    w: Seq<char>,
    gap: Seq<char>,
    tail: Seq<char>,
)
    requires
        text::is_blank(lead) && unbroken(lead),
        text::is_blank(tail) && unbroken(tail),
        text::is_blank(gap) && gap.len() > 0 && unbroken(gap),
        is_command(w),
        w != "break"@ && w != "b"@,
    ensures
        rebase_todo::todo(lead + w + tail) == Err::<Seq<TodoModel>, TodoErrorModel>(
            TodoErrorModel::InvalidLine { number: 1, line: lead + w + tail },
        ),
        w == "fixup"@ || w == "f"@ ==> rebase_todo::todo(lead + w + gap + "-C"@ + tail) == Err::<
            Seq<TodoModel>,
            TodoErrorModel,
        >(TodoErrorModel::InvalidLine { number: 1, line: lead + w + gap + "-C"@ + tail }),
{
    lemma_words();
    rebase_todo::lemma_words_differ();
    reveal_strlit("-C");
    let l = lead + w + tail;
    lemma_command_line(lead, w, tail);
    text::lemma_trim_blank(tail);
    let none = text::trim(tail);
    assert(none =~= Seq::<char>::empty());
    assert(text::trim(none).len() == 0) by {
        text::lemma_trim_blank(none);
    }
    assert(text::trim_start(none) == none);
    lemma_unbroken(lead + w, tail);
    lemma_unbroken(lead, w);
    lemma_one_line(l);
    if w == "fixup"@ || w == "f"@ {
        let c = "-C"@;
        let after = gap + c + tail;
        let m = lead + w + gap + c + tail;
        assert(m =~= lead + w + after);
        assert(after[0] == gap[0]);
        lemma_command_line(lead, w, after);
        lemma_given_word(gap, c, tail);
        text::lemma_trim_end_cut(tail);
        let e = text::trim_end(tail);
        if e.len() > 0 {
            assert(e.last() == tail[e.len() - 1]);
        }
        assert(text::trim_start(e) == e);
        lemma_unbroken(lead + w + gap + c, tail);
        lemma_unbroken(lead + w + gap, c);
        lemma_unbroken(lead + w, gap);
        lemma_one_line(m);
        lemma_other_commands(w, text::trim(after));
    }
}

/// A word that is no command is an error that names it, whatever follows.
pub proof fn law_unknown_command_is_an_error(lead: Seq<char>, w: Seq<char>, after: Seq<char>)
    requires
        text::is_blank(lead) && unbroken(lead),
        text::is_word(w),
        w[0] != '#',
        !is_command(w),
        after.len() > 0 ==> text::is_white(after[0]),
        unbroken(after),
    ensures
        rebase_todo::todo(lead + w + after) == Err::<Seq<TodoModel>, TodoErrorModel>(
            TodoErrorModel::InvalidCommand { command: w, number: 1, line: lead + w + after },
        ),
{
    lemma_command_line(lead, w, after);
    rebase_todo::lemma_word_unbroken(w);
    lemma_unbroken(lead + w, after);
    lemma_unbroken(lead, w);
    lemma_one_line(lead + w + after);
}

/// Blank lines and comments, with whitespace before them or not, say nothing.
pub proof fn law_comments_say_nothing(lead: Seq<char>, comment: Seq<char>)
    requires
        text::is_blank(lead) && unbroken(lead),
        unbroken(comment),
        comment.len() > 0 ==> comment[0] == '#',
    ensures
        rebase_todo::todo(lead + comment) == Ok::<Seq<TodoModel>, TodoErrorModel>(Seq::empty()),
        rebase_todo::todo((lead + comment).push('\n')) == Ok::<Seq<TodoModel>, TodoErrorModel>(
            Seq::empty(),
        ),
{
    let l = lead + comment;
    lemma_unbroken(lead, comment);
    let none = Seq::<char>::empty();
    assert(lead + comment + none =~= l);
    text::lemma_trim_around(lead, comment, none);
    lemma_comment_idle(l, lead, comment);
    if l.len() > 0 {
        lemma_one_line(l);
    } else {
        assert(text::lines(l) =~= Seq::<Seq<char>>::empty());
    }
    text::lemma_split_keep_line(l, none);
    assert(l.push('\n') + none =~= l.push('\n'));
    assert(text::lines(none) =~= Seq::<Seq<char>>::empty());
    let row = text::chomp(l.push('\n'));
    assert(l.push('\n').drop_last() =~= l);
    assert(text::lines(l.push('\n')) =~= seq![row]);
    assert(seq![row].drop_first() =~= Seq::<Seq<char>>::empty());
    assert(rebase_todo::is_idle(row)) by {
        if row != l {
            assert(row =~= l.drop_last());
            if comment.len() > 1 {
                assert(row =~= lead + comment.drop_last());
                lemma_comment_idle(row, lead, comment.drop_last());
            } else if comment.len() == 1 {
                assert(l.last() == '#');
            } else {
                assert(row =~= lead.drop_last() + none);
                lemma_comment_idle(row, lead.drop_last(), none);
            }
        }
    }
    reveal_with_fuel(rebase_todo::todo_from, 2);
}

proof fn lemma_comment_idle(l: Seq<char>, lead: Seq<char>, comment: Seq<char>)
    requires
        l == lead + comment,
        text::is_blank(lead),
        comment.len() > 0 ==> comment[0] == '#',
    ensures
        rebase_todo::is_idle(l),
{
    let none = Seq::<char>::empty();
    assert(lead + comment + none =~= l);
    text::lemma_trim_around(lead, comment, none);
    if comment.len() > 0 {
        text::lemma_trim_keeps_first(comment);
    } else {
        text::lemma_trim_blank(comment);
    }
}

//// Whole lists

/// A row of the first list with its command replaced.
pub open spec fn edited_row(w: Seq<char>, c: TodoRenderCommit) -> Seq<char> {
    w + " "@ + c.abbrev@ + " # "@ + c.subject@
}

/// The first list with any of its commands replaced is read as those commands
/// on the same commits: neither the subjects nor the comments matter.
pub proof fn law_edited_first_list(
    commits: Seq<TodoRenderCommit>,
    ws: Seq<Seq<char>>,
    v: Seq<TodoModel>,
    onto: Seq<char>,
    head: Seq<char>,
)
    requires
        commits.len() == ws.len() == v.len(),
        forall|i: int|
            0 <= i < v.len() ==> {
                &&& asks_for(ws[i], #[trigger] v[i])
                &&& about(v[i]) == Some(commits[i].abbrev@)
                &&& text::is_word(commits[i].abbrev@)
                &&& unbroken(commits[i].subject@)
            },
        unbroken(onto),
        unbroken(head),
    ensures
        rebase_todo::todo(
            rebase_todo::rows_text(Seq::new(v.len(), |i: int| edited_row(ws[i], commits[i])))
                + rebase_todo::closing(v.len(), onto, head) + rebase_todo::TODO_HELP_COMMENTS@,
        ) == Ok::<Seq<TodoModel>, TodoErrorModel>(v),
{
    let rows = Seq::new(v.len(), |i: int| edited_row(ws[i], commits[i]));
    let line = rebase_todo::closing_line(v.len(), onto, head).push('\n');
    let comments = line + rebase_todo::TODO_HELP_COMMENTS@;
    rebase_todo::lemma_closing(v.len(), onto, head);
    rebase_todo::lemma_help_is_comment();
    rebase_todo::lemma_comment_add(line, rebase_todo::TODO_HELP_COMMENTS@);
    assert forall|i: int| 0 <= i < v.len() implies rebase_todo::row_says(rows[i], #[trigger] v[i]) by {
        lemma_edited_row(ws[i], commits[i], v[i]);
    }
    assert(rebase_todo::rows_text(rows) + rebase_todo::closing(v.len(), onto, head)
        + rebase_todo::TODO_HELP_COMMENTS@ =~= rebase_todo::rows_text(rows) + seq!['\n'] + comments);
    rebase_todo::lemma_buffer_round_trip(rows, v, comments);
}

proof fn lemma_edited_row(w: Seq<char>, c: TodoRenderCommit, t: TodoModel)
    requires
        asks_for(w, t),
        about(t) == Some(c.abbrev@),
        text::is_word(c.abbrev@),
        unbroken(c.subject@),
    ensures
        rebase_todo::row_says(edited_row(w, c), t),
{
    reveal_strlit(" ");
    reveal_strlit(" # ");
    lemma_words();
    rebase_todo::lemma_words_differ();
    assert(is_command(w));
    let a = c.abbrev@;
    let none = Seq::<char>::empty();
    let row = edited_row(w, c);
    let read = text::chomp(row.push('\n'));
    assert(row.push('\n').drop_last() =~= row);
    let tail = " # "@ + c.subject@;
    let cut = if read == row {
        tail
    } else {
        tail.drop_last()
    };
    assert(read =~= none + w + (" "@ + a + cut)) by {
        if read != row {
            assert(row.last() == '\r');
            assert(read =~= row.drop_last());
            assert(tail.len() > 0);
        }
    }
    let after = " "@ + a + cut;
    if cut.len() > 0 {
        assert(cut[0] == tail[0]);
    }
    lemma_command_line(none, w, after);
    lemma_given_word(" "@, a, cut);
    rebase_todo::lemma_word_unbroken(a);
    lemma_unbroken(w + " "@ + a + " # "@, c.subject@);
    lemma_unbroken(w + " "@ + a, " # "@);
    lemma_unbroken(w + " "@, a);
    lemma_unbroken(w, " "@);
    lemma_asked(w, text::trim(after), t);
}

/// The first list ends with a comment that tells how many commands it has and
/// on what the rebase is made.
pub proof fn law_first_list_tells_what_it_rebases(
    commits: Seq<TodoRenderCommit>,
    onto: Seq<char>,
    head: Seq<char>,
)
    ensures
        rebase_todo::first_buffer(commits, onto, head) == rebase_todo::rows_text(
            commits.map_values(|c: TodoRenderCommit| edited_row("pick"@, c)),
        ) + ("\n# Rebase "@ + onto + ".."@ + head + " onto "@ + onto + " ("@ + text::decimal(
            commits.len(),
        ) + (if commits.len() == 1 {
            " command)\n"@
        } else {
            " commands)\n"@
        })) + rebase_todo::TODO_HELP_COMMENTS@,
{
    reveal_strlit("pick ");
    reveal_strlit("pick");
    reveal_strlit(" ");
    assert("pick "@ =~= "pick"@ + " "@);
    assert(rebase_todo::pick_rows(commits) =~= commits.map_values(
        |c: TodoRenderCommit| edited_row("pick"@, c),
    ));
}

} // verus!
