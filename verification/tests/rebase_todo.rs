//! Interactive rebase todo lists: parsing, rendering and their round trip.

use libra_core::rebase_todo::{
    parse_todo, render_remaining_todo, render_todo, render_todo_with_commands, FixupFlag,
    TodoInstruction, TodoParseError, TodoRenderCommit, ONGOING_REBASE_TODO_HINT,
    TODO_HELP_COMMENTS,
};

#[test]
fn parse_full_and_abbreviated_commands() {
    let text = "\
pick aaa1111 # keep
p bbb2222
reword ccc3333
r ddd4444
edit eee5555
e fff6666
squash ggg7777
s hhh8888
fixup iii9999
f jjj0000
fixup -C kkk1111
f -c lll2222
exec echo one
x true
break
b
drop mmm3333
d nnn4444

# comment is ignored

";
    let parsed = parse_todo(text).expect("full and abbreviated commands must parse");
    assert_eq!(
        parsed,
        vec![
            TodoInstruction::Pick {
                commit: "aaa1111".into()
            },
            TodoInstruction::Pick {
                commit: "bbb2222".into()
            },
            TodoInstruction::Reword {
                commit: "ccc3333".into()
            },
            TodoInstruction::Reword {
                commit: "ddd4444".into()
            },
            TodoInstruction::Edit {
                commit: "eee5555".into()
            },
            TodoInstruction::Edit {
                commit: "fff6666".into()
            },
            TodoInstruction::Squash {
                commit: "ggg7777".into()
            },
            TodoInstruction::Squash {
                commit: "hhh8888".into()
            },
            TodoInstruction::Fixup {
                commit: "iii9999".into(),
                flag: None,
            },
            TodoInstruction::Fixup {
                commit: "jjj0000".into(),
                flag: None,
            },
            TodoInstruction::Fixup {
                commit: "kkk1111".into(),
                flag: Some(FixupFlag::KeepThis),
            },
            TodoInstruction::Fixup {
                commit: "lll2222".into(),
                flag: Some(FixupFlag::Reword),
            },
            TodoInstruction::Exec {
                cmd: "echo one".into()
            },
            TodoInstruction::Exec { cmd: "true".into() },
            TodoInstruction::Break,
            TodoInstruction::Break,
            TodoInstruction::Drop {
                commit: Some("mmm3333".into())
            },
            TodoInstruction::Drop {
                commit: Some("nnn4444".into())
            },
        ]
    );
}

#[test]
fn parse_reports_invalid_command_and_line() {
    let command = parse_todo("frobnicate abcdef0\n").expect_err("unknown command");
    assert_eq!(
        command,
        TodoParseError::InvalidCommand {
            command: "frobnicate".into(),
            number: 1,
            line: "frobnicate abcdef0".into(),
        }
    );
    assert_eq!(command.message(), "invalid command 'frobnicate'");

    let line = parse_todo("# keep\npick\n").expect_err("pick without commit");
    assert_eq!(
        line,
        TodoParseError::InvalidLine {
            number: 2,
            line: "pick".into()
        }
    );
    assert_eq!(line.message(), "invalid line 2: pick");
}

#[test]
fn render_matches_git_todo_template() {
    let rendered = render_todo(
        &[
            TodoRenderCommit {
                abbrev: "aaa1111".into(),
                subject: "A".into(),
            },
            TodoRenderCommit {
                abbrev: "bbb2222".into(),
                subject: "B".into(),
            },
        ],
        "onto000",
        "headfff",
    );
    let expected = format!(
        "pick aaa1111 # A\n\
         pick bbb2222 # B\n\
         \n\
         # Rebase onto000..headfff onto onto000 (2 commands)\n\
         {TODO_HELP_COMMENTS}"
    );
    assert_eq!(rendered, expected);
    assert!(
        !rendered.contains("l, label")
            && !rendered.contains("t, reset")
            && !rendered.contains("m, merge")
            && !rendered.contains("u, update-ref"),
        "{rendered}"
    );
    let one = render_todo(
        &[TodoRenderCommit {
            abbrev: "aaa1111".into(),
            subject: "A".into(),
        }],
        "onto000",
        "headfff",
    );
    assert!(
        one.contains("# Rebase onto000..headfff onto onto000 (1 command)\n"),
        "{one}"
    );
}

#[test]
fn render_todo_with_commands_counts_injected_exec_lines() {
    let rendered = render_todo_with_commands(
        &[
            "pick aaa1111 # A".into(),
            "exec true".into(),
            "pick bbb2222 # B".into(),
            "exec true".into(),
        ],
        "onto000",
        "headfff",
    );
    assert!(
        rendered.starts_with("pick aaa1111 # A\nexec true\npick bbb2222 # B\nexec true\n\n"),
        "{rendered}"
    );
    assert!(
        rendered.contains("# Rebase onto000..headfff onto onto000 (4 commands)\n"),
        "{rendered}"
    );
    assert!(rendered.contains(TODO_HELP_COMMENTS), "{rendered}");
}

#[test]
fn render_remaining_todo_lists_only_remaining_and_ongoing_hint() {
    let rendered = render_remaining_todo(
        &[
            TodoInstruction::Pick {
                commit: "bbb2222".into(),
            },
            TodoInstruction::Exec { cmd: "true".into() },
            TodoInstruction::Break,
        ],
        "onto000",
        "headfff",
    );
    assert!(
        rendered.starts_with("pick bbb2222\nexec true\nbreak\n\n"),
        "{rendered}"
    );
    assert!(
        rendered.contains("# Rebase onto000..headfff onto onto000 (3 commands)\n"),
        "{rendered}"
    );
    assert!(rendered.contains(ONGOING_REBASE_TODO_HINT), "{rendered}");
    assert!(
        rendered.contains(TODO_HELP_COMMENTS),
        "help comments stay after the ongoing hint: {rendered}"
    );
    assert!(
        !rendered.contains("pick aaa"),
        "already-applied commands must not be rewritten: {rendered}"
    );
}

#[test]
fn remaining_todo_parses_back() {
    let todo = vec![
        TodoInstruction::Pick { commit: "aaa1111".into() },
        TodoInstruction::Reword { commit: "bbb2222".into() },
        TodoInstruction::Edit { commit: "ccc3333".into() },
        TodoInstruction::Squash { commit: "ddd4444".into() },
        TodoInstruction::Fixup { commit: "eee5555".into(), flag: None },
        TodoInstruction::Fixup { commit: "fff6666".into(), flag: Some(FixupFlag::KeepThis) },
        TodoInstruction::Fixup { commit: "0007777".into(), flag: Some(FixupFlag::Reword) },
        TodoInstruction::Exec { cmd: "cargo test --all".into() },
        TodoInstruction::Break,
        TodoInstruction::Drop { commit: Some("1118888".into()) },
    ];
    let rendered = render_remaining_todo(&todo, "onto000", "headfff");
    assert_eq!(parse_todo(&rendered).unwrap(), todo);
}

#[test]
fn only_comments_and_blank_lines_is_an_empty_todo() {
    assert_eq!(parse_todo("").unwrap(), vec![]);
    assert_eq!(parse_todo("\n  \n# pick aaa1111\n\t# drop\n").unwrap(), vec![]);
}

#[test]
fn commits_are_named_by_instructions_that_have_one() {
    let pick = TodoInstruction::Pick { commit: "aaa1111".into() };
    assert_eq!(pick.commit_oid(), Some("aaa1111"));
    let drop = TodoInstruction::Drop { commit: Some("bbb2222".into()) };
    assert_eq!(drop.commit_oid(), Some("bbb2222"));
    assert_eq!(TodoInstruction::Drop { commit: None }.commit_oid(), None);
    assert_eq!(TodoInstruction::Exec { cmd: "true".into() }.commit_oid(), None);
    assert_eq!(TodoInstruction::Break.commit_oid(), None);
}

#[test]
fn malformed_lines_name_their_number() {
    for text in ["exec\n", "reword  \n", "fixup -C\n"] {
        let parsed = parse_todo(text);
        assert!(
            matches!(parsed, Err(TodoParseError::InvalidLine { number: 1, .. })),
            "{text}"
        );
    }
    assert_eq!(
        parse_todo("pick aaa1111\nmerge bbb2222\n").unwrap_err().message(),
        "invalid command 'merge'"
    );
}

#[test]
fn an_empty_todo_counts_no_commands() {
    let rendered = render_todo(&[], "onto000", "headfff");
    assert!(rendered.contains("# Rebase onto000..headfff onto onto000 (0 commands)\n"), "{rendered}");
}

#[test]
fn the_first_list_picks_every_commit() {
    let commit = |abbrev: &str, subject: &str| TodoRenderCommit {
        abbrev: abbrev.into(),
        subject: subject.into(),
    };
    let rendered = render_todo(
        &[commit("aaa1111", "# A \r"), commit("bbb2222", ""), commit("#cc3333", "drop x")],
        "onto000",
        "headfff",
    );
    let pick = |abbrev: &str| TodoInstruction::Pick { commit: abbrev.into() };
    assert_eq!(
        parse_todo(&rendered).unwrap(),
        vec![pick("aaa1111"), pick("bbb2222"), pick("#cc3333")]
    );
}
