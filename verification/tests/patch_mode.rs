//! Patch mode: diffs, splitting, applying, editing and sessions.

use libra_core::oid::Oid;
use libra_core::patch_mode::apply::{
    apply_selected_hunks_to_blob, PatchApplyError, PatchApplyMode,
};
use libra_core::patch_mode::edit::{
    edited_hunk_applies, format_edit_buffer, is_editable, parse_edited_buffer, shell_single_quote,
    EditedHunk, CANNOT_EDIT, MANUAL_HUNK_HEADER,
};
use libra_core::patch_mode::model::{
    parse_unified_diff, reassemble_file_patch, split_hunk, FileDiff, Hunk, HunkLine, HunkUse,
    ParseError,
};
use libra_core::patch_mode::session::{
    available_letters, available_letters_ex, format_prompt, help_text, help_text_for,
    hunks_summary, run_session, run_session_with, PatchSessionKind, SessionAction, SessionOptions,
    StagePrompt,
};

/// A hunk over `first..=last` of numbered lines in which `changed` change.
fn numbered_hunk(first: usize, last: usize, changed: &[usize]) -> String {
    let mut out = String::new();
    for i in first..=last {
        if changed.contains(&i) {
            out.push_str(&format!("-line {i}\n+line {i} changed\n"));
        } else {
            out.push_str(&format!(" line {i}\n"));
        }
    }
    out
}

fn two_hunks() -> String {
    format!(
        "diff --git a/f.txt b/f.txt\nindex c4352f8..e41e5cb 100644\n--- a/f.txt\n+++ b/f.txt\n\
         @@ -1,5 +1,5 @@\n{}@@ -15,6 +15,6 @@ line 14\n{}",
        numbered_hunk(1, 5, &[2]),
        numbered_hunk(15, 20, &[18])
    )
}

fn split3() -> String {
    format!(
        "diff --git a/s.txt b/s.txt\nindex 1111111..2222222 100644\n--- a/s.txt\n+++ b/s.txt\n\
         @@ -1,10 +1,10 @@\n{}",
        numbered_hunk(1, 10, &[2, 5, 8])
    )
}

fn three_files() -> String {
    let mut out = String::new();
    for name in ["a.txt", "b.txt", "c.txt"] {
        out.push_str(&format!(
            "diff --git a/{name} b/{name}\nindex 1111111..2222222 100644\n--- a/{name}\n\
             +++ b/{name}\n@@ -1,8 +1,8 @@\n{}",
            numbered_hunk(1, 8, &[2, 6])
        ));
    }
    out
}

const DELETION: &str = "diff --git a/gone.txt b/gone.txt\ndeleted file mode 100644\n\
    index 1111111..0000000\n--- a/gone.txt\n+++ /dev/null\n@@ -1,3 +0,0 @@\n\
    -line 1\n-line 2\n-line 3\n";
const CRLF: &str = "diff --git a/crlf.txt b/crlf.txt\nindex 1111111..2222222 100644\n\
    --- a/crlf.txt\n+++ b/crlf.txt\n@@ -1,3 +1,3 @@\n a\r\n-b\r\n+B\r\n c\r\n";
const NOEOL: &str = "diff --git a/noeol.txt b/noeol.txt\nindex 1111111..2222222 100644\n\
    --- a/noeol.txt\n+++ b/noeol.txt\n@@ -1,2 +1,2 @@\n a\n-b\n\\ No newline at end of file\n\
    +B\n\\ No newline at end of file\n";
const EMPTY: &str = "diff --git a/e.txt b/e.txt\nnew file mode 100644\nindex 0000000..2222222\n\
    --- /dev/null\n+++ b/e.txt\n@@ -0,0 +1 @@\n+one\n";
const MODE: &str = "diff --git a/m.sh b/m.sh\nold mode 100644\nnew mode 100755\n";
const BINARY: &str = "diff --git a/bin b/bin\nindex 1111111..2222222 100644\n\
    Binary files a/bin and b/bin differ\n\
    diff --git a/t.txt b/t.txt\nindex 1111111..2222222 100644\n--- a/t.txt\n+++ b/t.txt\n\
    @@ -1 +1 @@\n-one\n+two\n";
const RESET_HEAD: &str = "diff --git a/bar b/bar\nindex 1111111..2222222 100644\n--- a/bar\n\
    +++ b/bar\n@@ -1,4 +1,4 @@\n-line 1\n+line 1 x\n line 2\n line 3\n line 4\n\
    diff --git a/foo b/foo\nindex 1111111..2222222 100644\n--- a/foo\n\
    +++ b/foo\n@@ -1,4 +1,4 @@\n-line 1\n+line 1 x\n line 2\n line 3\n line 4\n";
const RESET_NOTHEAD: &str = "diff --git b/bar a/bar\nindex 1111111..2222222 100644\n--- b/bar\n\
    +++ a/bar\n@@ -1,4 +1,4 @@\n line 1\n-line 2 x\n+line 2\n line 3\n line 4\n";

/// Lines of input as they are read, each with its newline.
fn lines_of(text: &str) -> Vec<String> {
    text.split_inclusive('\n').map(|line| line.to_string()).collect()
}

//// Diffs

#[test]
fn parse_two_hunks_preserves_git_headers() {
    let patch = two_hunks();
    let files = parse_unified_diff(&patch).expect("parse");
    assert_eq!(files.len(), 1);
    assert_eq!(files[0].path, "f.txt");
    assert_eq!(files[0].hunks.len(), 2);
    assert_eq!(files[0].hunks[0].header, "@@ -1,5 +1,5 @@");
    assert_eq!(files[0].hunks[1].header, "@@ -15,6 +15,6 @@ line 14");
    assert!(files[0].header.starts_with("diff --git a/f.txt b/f.txt\n"));
    assert!(files[0].header.contains("index c4352f8..e41e5cb 100644\n"));
}

#[test]
fn parse_reverse_git_header_keeps_path() {
    let files = parse_unified_diff(RESET_NOTHEAD).unwrap();
    assert_eq!(files[0].path, "bar");
    assert!(files[0].header.starts_with("diff --git b/bar a/bar\n"));
}

#[test]
fn parse_file_order_matches_three_files_fixture() {
    let files = parse_unified_diff(&three_files()).unwrap();
    let paths: Vec<_> = files.iter().map(|f| f.path.as_str()).collect();
    assert_eq!(paths, ["a.txt", "b.txt", "c.txt"]);
    assert!(
        files
            .iter()
            .all(|f| f.hunks.first().is_some_and(|h| h.splittable_into() == 2))
    );
}

#[test]
fn split3_first_hunk_is_three_islands() {
    let files = parse_unified_diff(&split3()).unwrap();
    assert_eq!(files[0].hunks[0].splittable_into(), 3);
    let pieces = split_hunk(&files[0].hunks[0]).expect("splittable");
    assert_eq!(pieces.len(), 3);
}

#[test]
fn three_files_each_hunk_splits_in_two() {
    let files = parse_unified_diff(&three_files()).unwrap();
    for file in &files {
        assert_eq!(file.hunks[0].splittable_into(), 2);
    }
}

#[test]
fn classify_deletion_mode_binary() {
    let deletion = parse_unified_diff(DELETION).unwrap();
    assert!(deletion[0].deleted);
    assert!(!deletion[0].binary);

    let mode = parse_unified_diff(MODE).unwrap();
    assert!(mode[0].mode_change);
    assert_eq!(mode[0].old_mode, Some(0o100644));
    assert_eq!(mode[0].new_mode, Some(0o100755));
    assert!(mode[0].hunks.is_empty());

    let binary = parse_unified_diff(BINARY).unwrap();
    assert_eq!(binary.len(), 2);
    assert!(binary[0].binary);
    assert!(!binary[1].binary);
}

#[test]
fn parse_crlf_noeol_empty() {
    let crlf = parse_unified_diff(CRLF).unwrap();
    assert_eq!(crlf[0].hunks[0].lines[0], HunkLine::Context("a\r".into()));

    let noeol = parse_unified_diff(NOEOL).unwrap();
    assert!(noeol[0].hunks[0].no_newline_old);
    assert!(noeol[0].hunks[0].no_newline_new);

    let empty = parse_unified_diff(EMPTY).unwrap();
    assert!(empty[0].added);
    assert_eq!(empty[0].hunks[0].old_start, 0);
    assert_eq!(empty[0].hunks[0].old_lines, 0);
}

//// Applying

fn lines(n: usize) -> Vec<u8> {
    let mut out = String::new();
    for i in 1..=n {
        out.push_str(&format!("line {i}\n"));
    }
    out.into_bytes()
}

fn blob_hex(bytes: &[u8]) -> String {
    Oid::of_blob(bytes).as_str().to_string()
}

fn mark(file: &mut FileDiff, decisions: &str) {
    assert_eq!(decisions.len(), file.hunks.len(), "decision length");
    for (hunk, ch) in file.hunks.iter_mut().zip(decisions.chars()) {
        hunk.use_decision = match ch {
            'y' => HunkUse::Use,
            'n' => HunkUse::Skip,
            other => panic!("bad decision {other}"),
        };
    }
}

#[test]
fn two_hunks_use_skip_matches_git_apply_cached() {
    let mut files = parse_unified_diff(&two_hunks()).unwrap();
    let old = lines(20);
    assert_eq!(
        blob_hex(&old),
        "c4352f8b46de5cdb88d0cc96958316db42dd2398"
    );

    mark(&mut files[0], "yy");
    let applied = apply_selected_hunks_to_blob(&old, &files[0], PatchApplyMode::Stage).unwrap();
    let bytes = applied.bytes.expect("kept");
    assert_eq!(
        blob_hex(&bytes),
        "e41e5cb70c6d20e4d49afc36e2e58cad4b80e2ba"
    );

    let mut files = parse_unified_diff(&two_hunks()).unwrap();
    mark(&mut files[0], "yn");
    let applied = apply_selected_hunks_to_blob(&old, &files[0], PatchApplyMode::Stage).unwrap();
    assert_eq!(
        blob_hex(&applied.bytes.unwrap()),
        "576441b4f5a5c2155f1936be3b4234e366f28c9f"
    );

    let mut files = parse_unified_diff(&two_hunks()).unwrap();
    mark(&mut files[0], "ny");
    let applied = apply_selected_hunks_to_blob(&old, &files[0], PatchApplyMode::Stage).unwrap();
    assert_eq!(
        blob_hex(&applied.bytes.unwrap()),
        "8b9dd16968aac0d0140283cd7bab32be535ab413"
    );

    let mut files = parse_unified_diff(&two_hunks()).unwrap();
    mark(&mut files[0], "nn");
    let applied = apply_selected_hunks_to_blob(&old, &files[0], PatchApplyMode::Stage).unwrap();
    assert_eq!(
        blob_hex(&applied.bytes.unwrap()),
        "c4352f8b46de5cdb88d0cc96958316db42dd2398"
    );
}

#[test]
fn split3_selected_islands_match_git() {
    let files = parse_unified_diff(&split3()).unwrap();
    let pieces = split_hunk(&files[0].hunks[0]).expect("split");
    let old = lines(10);

    let run = |answers: &str, expected: &str| {
        let mut file = files[0].clone();
        file.hunks = pieces.clone();
        mark(&mut file, answers);
        let applied = apply_selected_hunks_to_blob(&old, &file, PatchApplyMode::Stage).unwrap();
        assert_eq!(
            blob_hex(&applied.bytes.unwrap()),
            expected,
            "{answers}"
        );
    };
    run("yny", "532488a518ae00535bd25db090c8698a441e83fa");
    run("nyn", "eaad36d69a0a65a1c7158abb792712a15f66fe9a");
    run("yyy", "f0643baea1fdd91b40befb839a474d61f6fec9ba");
    run("nnn", "fa2da6e55caa540725b55c04d13f1e42b4c725ce");
}

#[test]
fn three_files_tc0042_matches_git() {
    let files = parse_unified_diff(&three_files()).unwrap();
    let old = lines(8);
    // s y n / s n y / s y y
    let answers = ["yn", "ny", "yy"];
    let hashes = [
        "56077598e7031b05505cc4538067e25bd36910b0",
        "15f7cecde36a6e26bee16850ca2d6704073d39de",
        "27a865dc3512049eb404597344156592ab80b9ff",
    ];
    for (file, (ans, hash)) in files.iter().zip(answers.iter().zip(hashes)) {
        let pieces = split_hunk(&file.hunks[0]).expect("split");
        let mut staged = file.clone();
        staged.hunks = pieces;
        mark(&mut staged, ans);
        let applied =
            apply_selected_hunks_to_blob(&old, &staged, PatchApplyMode::Stage).unwrap();
        assert_eq!(
            blob_hex(&applied.bytes.unwrap()),
            hash,
            "{} {ans}",
            file.path
        );
    }
}

#[test]
fn deletion_use_removes_blob() {
    let mut files = parse_unified_diff(DELETION).unwrap();
    mark(&mut files[0], "y");
    let old = lines(3);
    let applied = apply_selected_hunks_to_blob(&old, &files[0], PatchApplyMode::Stage).unwrap();
    assert!(applied.bytes.is_none());

    let mut files = parse_unified_diff(DELETION).unwrap();
    mark(&mut files[0], "n");
    let applied = apply_selected_hunks_to_blob(&old, &files[0], PatchApplyMode::Stage).unwrap();
    assert_eq!(applied.bytes.as_deref(), Some(old.as_slice()));
}

#[test]
fn crlf_and_noeol_and_empty_match_git() {
    let mut crlf = parse_unified_diff(CRLF).unwrap();
    mark(&mut crlf[0], "y");
    let old = b"a\r\nb\r\nc\r\n";
    let applied = apply_selected_hunks_to_blob(old, &crlf[0], PatchApplyMode::Stage).unwrap();
    assert_eq!(
        blob_hex(&applied.bytes.unwrap()),
        "d5a6cc6abcf2268e05671de39c071470e30d5228"
    );
    mark(&mut crlf[0], "n");
    let applied = apply_selected_hunks_to_blob(old, &crlf[0], PatchApplyMode::Stage).unwrap();
    assert_eq!(
        blob_hex(&applied.bytes.unwrap()),
        "b5eff5721aa4f9468960ecd78cd2764deab97b55"
    );

    let mut noeol = parse_unified_diff(NOEOL).unwrap();
    mark(&mut noeol[0], "y");
    let old = b"a\nb";
    let applied = apply_selected_hunks_to_blob(old, &noeol[0], PatchApplyMode::Stage).unwrap();
    assert_eq!(
        blob_hex(&applied.bytes.unwrap()),
        "33d5d3bff51e4693cb1ccb721ca454816ae49644"
    );

    let mut empty = parse_unified_diff(EMPTY).unwrap();
    mark(&mut empty[0], "y");
    let applied = apply_selected_hunks_to_blob(b"", &empty[0], PatchApplyMode::Stage).unwrap();
    assert_eq!(
        blob_hex(applied.bytes.as_deref().unwrap_or(&[])),
        "5626abf0f72e58d7a153368ba57db4c673c0e171"
    );
}

#[test]
fn mode_only_flips_mode_without_rewriting_bytes() {
    let files = parse_unified_diff(MODE).unwrap();
    let old = b"#!/bin/sh\n";
    let applied = apply_selected_hunks_to_blob(old, &files[0], PatchApplyMode::Stage).unwrap();
    assert_eq!(applied.bytes.as_deref(), Some(old.as_slice()));
    assert_eq!(applied.mode, Some(0o100755));
    assert_eq!(blob_hex(old), "1a2485251c33a70432394c93fb89330ef214bfc9");
}

#[test]
fn reset_head_reverses_cached_hunks_onto_index() {
    let mut files = parse_unified_diff(RESET_HEAD).unwrap();
    mark(&mut files[0], "n");
    mark(&mut files[1], "y");
    let index = b"line 1 x\nline 2\nline 3\nline 4\n";
    let bar =
        apply_selected_hunks_to_blob(index, &files[0], PatchApplyMode::ResetHead).unwrap();
    assert_eq!(
        blob_hex(bar.bytes.as_deref().unwrap()),
        "996cea54934e532747b2c07298f42754d9b0a65e"
    );
    let foo =
        apply_selected_hunks_to_blob(index, &files[1], PatchApplyMode::ResetHead).unwrap();
    assert_eq!(
        blob_hex(foo.bytes.as_deref().unwrap()),
        "9c2a7090627d0fffa9ed001bf7be98f86c2c8068"
    );
}

#[test]
fn reset_nothead_applies_reverse_diff_forward() {
    let mut files = parse_unified_diff(RESET_NOTHEAD).unwrap();
    mark(&mut files[0], "y");
    let index = b"line 1\nline 2 x\nline 3\nline 4\n";
    let applied =
        apply_selected_hunks_to_blob(index, &files[0], PatchApplyMode::ResetNotHead).unwrap();
    assert_eq!(
        blob_hex(applied.bytes.as_deref().unwrap()),
        "9c2a7090627d0fffa9ed001bf7be98f86c2c8068"
    );
}

//// Editing

fn sample_hunk() -> Hunk {
    Hunk {
        old_start: 1,
        old_lines: 3,
        new_start: 1,
        new_lines: 3,
        header: "@@ -1,3 +1,3 @@".into(),
        lines: vec![
            HunkLine::Context("keep".into()),
            HunkLine::Delete("old".into()),
            HunkLine::Insert("new".into()),
        ],
        no_newline_old: false,
        no_newline_new: false,
        use_decision: HunkUse::Undecided,
    }
}

#[test]
fn buffer_matches_git_header_and_footer() {
    let text = format_edit_buffer(&sample_hunk());
    assert!(text.starts_with(MANUAL_HUNK_HEADER), "{text}");
    assert!(
        text.contains("@@ -1,3 +1,3 @@\n keep\n-old\n+new\n"),
        "{text}"
    );
    assert!(
        text.contains("# To remove '-' lines, make them ' ' lines (context)."),
        "{text}"
    );
    assert!(
        text.contains("# To remove '+' lines, delete them."),
        "{text}"
    );
    assert!(
        text.contains("# Lines starting with # will be removed."),
        "{text}"
    );
    assert!(
        text.contains(
            "# If the patch applies cleanly, the edited hunk will immediately be marked for staging."
        ),
        "{text}"
    );
    assert!(
        text.contains("# aborted and the hunk is left unchanged."),
        "{text}"
    );
}

#[test]
fn empty_after_comments_is_abandoned() {
    let original = sample_hunk();
    let text = format_edit_buffer(&original)
        .lines()
        .filter(|line| line.starts_with('#'))
        .collect::<Vec<_>>()
        .join("\n");
    assert_eq!(
        parse_edited_buffer(&text, &original).unwrap(),
        EditedHunk::Abandoned
    );
}

#[test]
fn plus_to_context_recounts_lines() {
    let original = sample_hunk();
    let edited = "@@ -1,3 +1,3 @@\n keep\n-old\n new\n";
    let EditedHunk::Hunk(hunk) = parse_edited_buffer(edited, &original).unwrap() else {
        panic!("expected hunk");
    };
    assert_eq!(hunk.old_lines, 3);
    assert_eq!(hunk.new_lines, 2);
    assert_eq!(
        hunk.lines,
        vec![
            HunkLine::Context("keep".into()),
            HunkLine::Delete("old".into()),
            HunkLine::Context("new".into()),
        ]
    );
}

#[test]
fn garbage_body_is_invalid() {
    let original = sample_hunk();
    assert!(parse_edited_buffer("not a hunk at all\n", &original).is_err());
}

#[test]
fn deletion_and_mode_are_not_editable() {
    let hunk = sample_hunk();
    let deleted = FileDiff {
        path: "gone".into(),
        header: String::new(),
        old_mode: Some(0o100644),
        new_mode: None,
        added: false,
        deleted: true,
        mode_change: false,
        binary: false,
        hunks: vec![hunk.clone()],
    };
    assert!(!is_editable(&deleted, &hunk));
    let mode = FileDiff {
        path: "mode".into(),
        header: String::new(),
        old_mode: Some(0o100644),
        new_mode: Some(0o100755),
        added: false,
        deleted: false,
        mode_change: true,
        binary: false,
        hunks: vec![Hunk {
            old_start: 0,
            old_lines: 0,
            new_start: 0,
            new_lines: 0,
            header: String::new(),
            lines: Vec::new(),
            no_newline_old: false,
            no_newline_new: false,
            use_decision: HunkUse::Undecided,
        }],
    };
    assert!(!is_editable(&mode, &mode.hunks[0]));
    let regular = FileDiff {
        path: "a".into(),
        header: String::new(),
        old_mode: Some(0o100644),
        new_mode: Some(0o100644),
        added: false,
        deleted: false,
        mode_change: false,
        binary: false,
        hunks: vec![hunk.clone()],
    };
    assert!(is_editable(&regular, &hunk));
}

//// Sessions

#[test]
fn prompt_letters_omit_unimplemented_commands() {
    let letters = available_letters(0, 2, true, false);
    assert!(letters.contains("y,n,q,a,d"));
    assert!(letters.contains("j"));
    assert!(letters.contains("J"));
    assert!(letters.contains("g"));
    assert!(letters.contains("/"));
    assert!(!letters.split(',').any(|l| l == "s"));
    assert!(letters.split(',').any(|l| l == "e"));
    assert!(!letters.split(',').any(|l| l == ">"));
    assert!(!letters.split(',').any(|l| l == "<"));
}

#[test]
fn first_hunk_omits_k_and_capital_k() {
    let letters = available_letters(0, 1, false, false);
    assert!(!letters.split(',').any(|l| l == "k"));
    assert!(!letters.split(',').any(|l| l == "K"));
    assert!(!letters.split(',').any(|l| l == "j"));
    assert!(!letters.split(',').any(|l| l == "J"));
}

#[test]
fn help_filters_to_available_letters() {
    let help = help_text("y,n,q,?");
    assert!(help.contains("y - stage this hunk"));
    assert!(!help.contains("j -"));
}

#[test]
fn prompt_letters_follow_add_patch_availability() {
    let mid = available_letters(1, 3, true, true);
    assert_eq!(mid, "y,n,q,a,d,k,K,j,J,g,/,e,p,P,?");
    let last_no_undecided = available_letters(2, 3, false, false);
    assert_eq!(last_no_undecided, "y,n,q,a,d,K,g,/,e,p,P,?");
    let first_of_three = available_letters(0, 3, true, false);
    assert_eq!(first_of_three, "y,n,q,a,d,j,J,g,/,e,p,P,?");
}

fn dummy_file(path: &str, hunks: usize) -> FileDiff {
    FileDiff {
        path: path.to_string(),
        header: format!("diff --git a/{path} b/{path}\n"),
        old_mode: Some(0o100644),
        new_mode: Some(0o100644),
        added: false,
        deleted: false,
        mode_change: false,
        binary: false,
        hunks: (0..hunks)
            .map(|i| Hunk {
                old_start: i * 10 + 1,
                old_lines: 1,
                new_start: i * 10 + 1,
                new_lines: 1,
                header: format!("@@ -{},1 +{},1 @@", i * 10 + 1, i * 10 + 1),
                lines: vec![
                    HunkLine::Delete(format!("old{i}")),
                    HunkLine::Insert(format!("new{i}")),
                ],
                no_newline_old: false,
                no_newline_new: false,
                use_decision: HunkUse::Undecided,
            })
            .collect(),
    }
}

#[test]
fn session_y_n_q_auto_advances_and_keeps_prior_yes() {
    let mut files = vec![dummy_file("a.txt", 2), dummy_file("b.txt", 1)];
    let input = lines_of("?\nzz\nw\ny\nn\nq\n");
    let mut output = String::new();
    let action = run_session(&mut files, &input, &mut output);
    let text = output;
    assert_eq!(action, SessionAction::Quit);
    assert!(text.contains("y - stage this hunk"));
    assert!(text.contains("Only one letter is expected, got 'zz'"));
    assert!(text.contains("Unknown command 'w' (use '?' for help)"));
    assert_eq!(files[0].hunks[0].use_decision, HunkUse::Use);
    assert_eq!(files[0].hunks[1].use_decision, HunkUse::Skip);
    assert_eq!(files[1].hunks[0].use_decision, HunkUse::Undecided);
}

#[test]
fn session_a_d_and_goto_search() {
    let mut files = vec![dummy_file("a.txt", 3), dummy_file("b.txt", 1)];
    let input = lines_of("g3\n/\nold1\na\nd\n");
    let mut output = String::new();
    run_session(&mut files, &input, &mut output);
    assert_eq!(files[0].hunks[0].use_decision, HunkUse::Undecided);
    assert_eq!(files[0].hunks[1].use_decision, HunkUse::Use);
    assert_eq!(files[0].hunks[2].use_decision, HunkUse::Use);
    assert_eq!(files[1].hunks[0].use_decision, HunkUse::Skip);
    let text = output;
    assert!(text.contains("(3/3) Stage this hunk"));
}

#[test]
fn session_empty_and_binary_messages() {
    let mut none: Vec<FileDiff> = Vec::new();
    let mut out = String::new();
    run_session(&mut none, &[], &mut out);
    assert_eq!(out, "No changes.\n");

    let mut files = vec![FileDiff {
        path: "bin".into(),
        header: String::new(),
        old_mode: None,
        new_mode: None,
        added: false,
        deleted: false,
        mode_change: false,
        binary: true,
        hunks: Vec::new(),
    }];
    let mut out = String::new();
    run_session(&mut files, &[], &mut out);
    assert_eq!(
        out,
        "Only binary files changed.\n"
    );
}

#[test]
fn no_auto_advance_stays_and_cycles_files() {
    let mut files = vec![dummy_file("first-file", 1), dummy_file("second-file", 1)];
    let input = lines_of("n\n>\n<\ny\nq\n");
    let mut output = String::new();
    run_session_with(
        &mut files,
        &input,
        &[],
        &mut output,
        SessionOptions {
            auto_advance: false,
            ..SessionOptions::default()
        },
    );
    let text = output;
    assert!(text.contains("(was: n)"));
    assert!(
        text.contains("diff --git a/second-file b/second-file") || text.contains("second-file")
    );
    assert_eq!(files[0].hunks[0].use_decision, HunkUse::Use);
    assert_eq!(files[1].hunks[0].use_decision, HunkUse::Undecided);
}

#[test]
fn no_auto_advance_single_file_rejects_file_nav() {
    let mut files = vec![dummy_file("only", 3)];
    let input = lines_of("a\nn\n?\n>\n<\nq\n");
    let mut output = String::new();
    run_session_with(
        &mut files,
        &input,
        &[],
        &mut output,
        SessionOptions {
            auto_advance: false,
            ..SessionOptions::default()
        },
    );
    let text = output;
    assert!(text.contains("No next file"));
    assert!(text.contains("No previous file"));
    assert!(text.contains("HUNKS SUMMARY - Hunks: 3, USE: 2, SKIP: 1"));
    assert!(
        !available_letters_ex(0, 3, true, false, false, 1, false, true)
            .split(',')
            .any(|l| l == ">" || l == "<")
    );
}

#[test]
fn splittable_hunk_offers_s_and_e() {
    let letters = available_letters_ex(0, 1, false, false, true, 1, true, true);
    assert!(letters.split(',').any(|l| l == "s"));
    assert!(letters.split(',').any(|l| l == "e"));
    assert!(help_text(&letters).contains("s - split the current hunk into smaller hunks"));
    assert!(help_text(&letters).contains("e - manually edit the current hunk"));
}

fn splittable_file(path: &str) -> FileDiff {
    FileDiff {
        path: path.to_string(),
        header: format!("diff --git a/{path} b/{path}\n"),
        old_mode: Some(0o100644),
        new_mode: Some(0o100644),
        added: false,
        deleted: false,
        mode_change: false,
        binary: false,
        hunks: vec![Hunk {
            old_start: 1,
            old_lines: 5,
            new_start: 1,
            new_lines: 5,
            header: "@@ -1,5 +1,5 @@".into(),
            lines: vec![
                HunkLine::Context("keep".into()),
                HunkLine::Delete("old1".into()),
                HunkLine::Insert("new1".into()),
                HunkLine::Context("mid".into()),
                HunkLine::Delete("old2".into()),
                HunkLine::Insert("new2".into()),
            ],
            no_newline_old: false,
            no_newline_new: false,
            use_decision: HunkUse::Undecided,
        }],
    }
}

#[test]
fn session_s_splits_and_unsplittable_is_sorry() {
    let mut files = vec![splittable_file("a.txt"), dummy_file("b.txt", 1)];
    let input = lines_of("s\ny\nn\ns\nq\n");
    let mut output = String::new();
    run_session(&mut files, &input, &mut output);
    let text = output;
    assert!(text.contains("Split into 2 hunks."), "{text}");
    assert!(text.contains("Sorry, cannot split this hunk"), "{text}");
    assert_eq!(files[0].hunks.len(), 2);
    assert_eq!(files[0].hunks[0].use_decision, HunkUse::Use);
    assert_eq!(files[0].hunks[1].use_decision, HunkUse::Skip);
}

#[test]
fn session_e_uses_hunk_and_sorry_on_deletion() {
    let mut files = vec![dummy_file("a.txt", 1)];
    let input = lines_of("e\n");
    let mut output = String::new();
    let unchanged = Some(format_edit_buffer(&files[0].hunks[0]));
    run_session_with(
        &mut files,
        &input,
        &[unchanged],
        &mut output,
        SessionOptions {
            editor: Some("true".into()),
            edit_path: Some("add-edit.patch".into()),
            ..SessionOptions::default()
        },
    );
    assert_eq!(files[0].hunks[0].use_decision, HunkUse::Use);

    let mut gone = dummy_file("gone.txt", 1);
    gone.deleted = true;
    let input = lines_of("e\nq\n");
    let mut output = String::new();
    run_session_with(
        &mut vec![gone],
        &input,
        &[],
        &mut output,
        SessionOptions {
            editor: Some("true".into()),
            edit_path: Some("add-edit.patch".into()),
            ..SessionOptions::default()
        },
    );
    assert!(output.contains(CANNOT_EDIT), "deletion should refuse e");
}

//// Laws on concrete values

fn one_file(text: &str) -> FileDiff {
    let mut files = parse_unified_diff(text).unwrap();
    assert_eq!(files.len(), 1);
    files.remove(0)
}

fn select_all(file: &mut FileDiff) {
    for hunk in &mut file.hunks {
        hunk.use_decision = HunkUse::Use;
    }
}

#[test]
fn selected_hunks_reassemble_to_the_patch() {
    for text in [two_hunks(), split3(), DELETION.to_string(), CRLF.to_string(), MODE.to_string()] {
        let mut file = one_file(&text);
        select_all(&mut file);
        assert_eq!(reassemble_file_patch(&file), text);
    }
    let mut file = one_file(EMPTY);
    assert_eq!(reassemble_file_patch(&file), file.header);
    select_all(&mut file);
    assert_eq!(reassemble_file_patch(&file), EMPTY);
}

#[test]
fn splitting_keeps_the_changes_and_shares_context() {
    let file = one_file(&split3());
    let pieces = split_hunk(&file.hunks[0]).unwrap();
    let changes = |hunk: &Hunk| -> Vec<String> {
        hunk.lines
            .iter()
            .filter(|line| line.is_change())
            .map(|line| format!("{}{}", line.marker(), line.text()))
            .collect()
    };
    let split: Vec<String> = pieces.iter().flat_map(|piece| changes(piece)).collect();
    assert_eq!(split, changes(&file.hunks[0]));
    let headers: Vec<&str> = pieces.iter().map(|piece| piece.header.as_str()).collect();
    assert_eq!(headers, ["@@ -1,4 +1,4 @@", "@@ -3,5 +3,5 @@", "@@ -6,5 +6,5 @@"]);
    assert!(pieces.iter().all(|piece| !piece.is_splittable() && split_hunk(piece).is_none()));
}

#[test]
fn reset_undoes_stage() {
    let mut file = one_file(&two_hunks());
    mark(&mut file, "yy");
    let old = lines(20);
    let staged = apply_selected_hunks_to_blob(&old, &file, PatchApplyMode::Stage).unwrap();
    let staged = staged.bytes.unwrap();
    assert_ne!(staged, old);
    let reset = apply_selected_hunks_to_blob(&staged, &file, PatchApplyMode::ResetHead).unwrap();
    assert_eq!(reset.bytes, Some(old));
}

fn all_of(old: &[u8], text: &str, mode: PatchApplyMode) -> Vec<u8> {
    let mut file = one_file(text);
    select_all(&mut file);
    apply_selected_hunks_to_blob(old, &file, mode).unwrap().bytes.unwrap()
}

#[test]
fn later_hunks_move_with_the_lines_before_them() {
    let header = "diff --git a/f b/f\nindex 1111111..2222222 100644\n--- a/f\n+++ b/f\n";
    let grows = format!("{header}@@ -1,1 +1,2 @@\n a\n+x\n@@ -4,1 +5,1 @@\n-d\n+D\n");
    assert_eq!(all_of(b"a\nb\nc\nd\n", &grows, PatchApplyMode::Stage), b"a\nx\nb\nc\nD\n");
    assert_eq!(
        all_of(b"a\nx\nb\nc\nD\n", &grows, PatchApplyMode::ResetHead),
        b"a\nb\nc\nd\n"
    );
    let shrinks =
        format!("{header}@@ -1,2 +0,0 @@\n-a\n-b\n@@ -3,0 +2,1 @@\n+y\n@@ -4,1 +3,1 @@\n-d\n+D\n");
    assert_eq!(all_of(b"a\nb\nc\nd\n", &shrinks, PatchApplyMode::Stage), b"c\ny\nD\n");
    let mut overlapping = one_file(&format!(
        "{header}@@ -1,3 +1,1 @@\n-a\n-b\n-c\n+x\n@@ -2,1 +2,1 @@\n-b\n+B\n"
    ));
    mark(&mut overlapping, "yy");
    assert_eq!(
        apply_selected_hunks_to_blob(b"a\nb\nc\n", &overlapping, PatchApplyMode::Stage)
            .unwrap_err()
            .message(),
        "hunk does not apply to 'f': hunk -2,1 overruns file (1 lines)"
    );
}

#[test]
fn the_parts_of_a_hunk_do_what_the_hunk_does() {
    let text = "diff --git a/f b/f\nindex 1111111..2222222 100644\n--- a/f\n+++ b/f\n\
        @@ -1,4 +1,5 @@\n a\n+x\n+y\n b\n-c\n d\n";
    let file = one_file(text);
    let mut parts = file.clone();
    parts.hunks = split_hunk(&file.hunks[0]).expect("split");
    assert_eq!(parts.hunks.len(), 2);
    select_all(&mut parts);
    let applied =
        apply_selected_hunks_to_blob(b"a\nb\nc\nd\n", &parts, PatchApplyMode::Stage).unwrap();
    assert_eq!(applied.bytes.as_deref(), Some(b"a\nx\ny\nb\nd\n".as_slice()));
    assert_eq!(
        applied.bytes,
        Some(all_of(b"a\nb\nc\nd\n", text, PatchApplyMode::Stage))
    );
    let back =
        apply_selected_hunks_to_blob(b"a\nx\ny\nb\nd\n", &parts, PatchApplyMode::ResetHead)
            .unwrap();
    assert_eq!(back.bytes.as_deref(), Some(b"a\nb\nc\nd\n".as_slice()));
}

#[test]
fn unstaging_restores_a_blob_with_even_line_ends() {
    let mut crlf = one_file(CRLF);
    select_all(&mut crlf);
    let old = b"a\r\nb\r\nc\r\n";
    let staged = apply_selected_hunks_to_blob(old, &crlf, PatchApplyMode::Stage).unwrap();
    let staged = staged.bytes.unwrap();
    assert_eq!(staged, b"a\r\nB\r\nc\r\n");
    let back = apply_selected_hunks_to_blob(&staged, &crlf, PatchApplyMode::ResetHead).unwrap();
    assert_eq!(back.bytes.as_deref(), Some(old.as_slice()));
    let mixed = apply_selected_hunks_to_blob(b"a\r\nb\nc\n", &crlf, PatchApplyMode::Stage).unwrap();
    assert_eq!(mixed.bytes.as_deref(), Some(b"a\r\nB\r\nc\r\n".as_slice()));
}

#[test]
fn the_last_hunk_decides_the_final_newline() {
    let header = "diff --git a/f b/f\nindex 1111111..2222222 100644\n--- a/f\n+++ b/f\n";
    let mark = "\\ No newline at end of file\n";
    let gains = format!("{header}@@ -1,2 +1,2 @@\n a\n-b\n{mark}+b\n");
    assert_eq!(all_of(b"a\nb", &gains, PatchApplyMode::Stage), b"a\nb\n");
    assert_eq!(all_of(b"a\nb\n", &gains, PatchApplyMode::ResetHead), b"a\nb");
    let loses = format!("{header}@@ -1,2 +1,2 @@\n a\n-b\n+b\n{mark}");
    assert_eq!(all_of(b"a\nb\n", &loses, PatchApplyMode::Stage), b"a\nb");
    assert_eq!(all_of(b"a\nb", &loses, PatchApplyMode::ResetHead), b"a\nb\n");
    let context = format!("{header}@@ -1,2 +1,2 @@\n-a\n+A\n b\n{mark}");
    assert_eq!(all_of(b"a\nb", &context, PatchApplyMode::Stage), b"A\nb");
    assert_eq!(all_of(b"A\nb", &context, PatchApplyMode::ResetHead), b"a\nb");
    let before = format!("{header}@@ -1,1 +1,1 @@\n-a\n+A\n");
    assert_eq!(all_of(b"a\nb", &before, PatchApplyMode::Stage), b"A\nb");
    assert_eq!(all_of(b"a\nb\n", &before, PatchApplyMode::Stage), b"A\nb\n");
    let marked = format!("{header}@@ -1,1 +1,1 @@\n-a\n+A\n{mark}");
    assert_eq!(all_of(b"a\nb\n", &marked, PatchApplyMode::Stage), b"A\nb");
    let unmarked = format!("{header}@@ -2,1 +2,1 @@\n-b\n+B\n");
    assert_eq!(all_of(b"a\nb", &unmarked, PatchApplyMode::Stage), b"a\nB");
}

#[test]
fn a_hunk_at_the_last_line_number_is_split() {
    let text = "diff --git a/f b/f\nindex 1111111..2222222 100644\n--- a/f\n+++ b/f\n\
        @@ -1,5 +1,3 @@\n-a\n b\n-c\n d\n e\n";
    let mut hunk = one_file(text).hunks.remove(0);
    hunk.old_start = usize::MAX - 3;
    let parts = split_hunk(&hunk).expect("split");
    assert_eq!(parts.len(), 2);
    assert_eq!((parts[1].old_start, parts[1].old_lines), (usize::MAX - 2, 4));
    hunk.lines.truncate(2);
    hunk.old_start = usize::MAX;
    assert!(split_hunk(&hunk).is_none());
}

#[test]
fn a_patch_of_several_files_is_written_back() {
    let text = format!("{}{}{}{}", three_files(), two_hunks(), MODE, BINARY);
    let mut files = parse_unified_diff(&text).unwrap();
    files.iter_mut().for_each(select_all);
    let written: String = files.iter().map(reassemble_file_patch).collect();
    assert_eq!(written, text);
}

#[test]
fn nothing_selected_keeps_any_blob() {
    let mut file = one_file(&two_hunks());
    mark(&mut file, "nn");
    let old = b"\xff not the file the patch is of".to_vec();
    let applied = apply_selected_hunks_to_blob(&old, &file, PatchApplyMode::Stage).unwrap();
    assert_eq!(applied.bytes, Some(old));
}

#[test]
fn binary_files_are_not_selectable() {
    let files = parse_unified_diff(BINARY).unwrap();
    let error = apply_selected_hunks_to_blob(b"", &files[0], PatchApplyMode::Stage).unwrap_err();
    assert_eq!(error, PatchApplyError::BinaryNotSelectable);
    assert_eq!(error.message(), "binary files cannot be selected in patch mode");
}

#[test]
fn hunks_that_do_not_apply_say_why() {
    let mut file = one_file(&two_hunks());
    mark(&mut file, "yn");
    let detail = |old: &[u8]| {
        apply_selected_hunks_to_blob(old, &file, PatchApplyMode::Stage).unwrap_err().message()
    };
    assert_eq!(
        detail(b"line 1\nother \"two\"\nline 3\nline 4\nline 5\n"),
        "hunk does not apply to 'f.txt': line 2 mismatch: expected \"line 2\", \
         got \"other \\\"two\\\"\""
    );
    assert_eq!(
        detail(b"line 1\n\xff\nline 3\nline 4\nline 5\n"),
        "hunk does not apply to 'f.txt': line 2 mismatch: expected \"line 2\", got \"\u{fffd}\""
    );
    assert_eq!(
        detail(b"line 1\nline 2\n"),
        "hunk does not apply to 'f.txt': hunk -1,5 overruns file (2 lines)"
    );
    let mut insert = one_file(
        "diff --git a/f b/f\n--- a/f\n+++ b/f\n@@ -7,0 +8 @@\n+new\n",
    );
    mark(&mut insert, "y");
    assert_eq!(
        apply_selected_hunks_to_blob(b"one\n", &insert, PatchApplyMode::Stage)
            .unwrap_err()
            .message(),
        "hunk does not apply to 'f': insert at 7 past EOF (1)"
    );
}

#[test]
fn malformed_patches_are_refused() {
    assert_eq!(parse_unified_diff(""), Ok(vec![]));
    assert_eq!(parse_unified_diff("--- a/f\n+++ b/f\n"), Err(ParseError::MissingGitHeader));
    let header = parse_unified_diff("diff --git a/f b/f\n--- a/f\n+++ b/f\n@@ -x +1 @@\n");
    assert!(matches!(header, Err(ParseError::BadHunkHeader(_))));
    assert_eq!(ParseError::Empty.message(), "empty patch");
    assert_eq!(
        ParseError::BadHunkLine("?".into()).message(),
        "unrecognized hunk line: ?"
    );
}

#[test]
fn an_untouched_buffer_keeps_the_hunk() {
    let file = one_file(&two_hunks());
    let hunk = &file.hunks[0];
    let edited = parse_edited_buffer(&format_edit_buffer(hunk), hunk).unwrap();
    match edited {
        EditedHunk::Hunk(edited) => {
            assert_eq!(edited.lines, hunk.lines);
            assert_eq!((edited.old_start, edited.old_lines), (1, 5));
        }
        EditedHunk::Abandoned => panic!("not abandoned"),
    }
}

#[test]
fn edited_hunks_are_tried_on_the_blob() {
    let file = one_file(&two_hunks());
    let old = lines(20);
    let mut edited = file.hunks[0].clone();
    assert!(edited_hunk_applies(&file, 0, &edited, &old).is_ok());
    edited.lines[0] = HunkLine::Context("line one".into());
    assert!(matches!(
        edited_hunk_applies(&file, 0, &edited, &old),
        Err(PatchApplyError::HunkDoesNotApply { .. })
    ));
}

#[test]
fn paths_are_quoted_for_the_shell() {
    assert_eq!(shell_single_quote("a b"), "'a b'");
    assert_eq!(shell_single_quote("it's"), "'it'\\''s'");
}

#[test]
fn prompts_name_the_hunk_and_its_decision() {
    assert_eq!(
        format_prompt(0, 2, StagePrompt::Hunk, "y,n", None, PatchSessionKind::Stage),
        "(1/2) Stage this hunk [y,n]? "
    );
    assert_eq!(
        format_prompt(
            1,
            2,
            StagePrompt::Deletion,
            "y,n",
            Some(HunkUse::Skip),
            PatchSessionKind::Unstage
        ),
        "(2/2) Unstage deletion (was: n) [y,n]? "
    );
    assert!(help_text_for("y,q", PatchSessionKind::ApplyToIndex)
        .starts_with("y - apply this hunk to index\n"));
}

#[test]
fn prompts_follow_the_kind_of_change() {
    let file = |text: &str| StagePrompt::for_file(&one_file(text));
    assert_eq!(file(&two_hunks()), StagePrompt::Hunk);
    assert_eq!(file(DELETION), StagePrompt::Deletion);
    assert_eq!(file(EMPTY), StagePrompt::Addition);
    assert_eq!(file(MODE), StagePrompt::ModeChange);
}

#[test]
fn summaries_wait_for_every_decision() {
    let mut file = one_file(&two_hunks());
    assert_eq!(hunks_summary(&file), None);
    mark(&mut file, "yn");
    assert_eq!(
        hunks_summary(&file).as_deref(),
        Some("HUNKS SUMMARY - Hunks: 2, USE: 1, SKIP: 1")
    );
}

#[test]
fn searches_report_bad_patterns_and_misses() {
    let mut files = vec![dummy_file("a.txt", 2)];
    let mut output = String::new();
    run_session(&mut files, &lines_of("/(\n/^absent$\n/old[1-9]\ny\nq\n"), &mut output);
    assert_eq!(output.matches("No other hunks to search").count(), 2, "{output}");
    assert_eq!(files[0].hunks[0].use_decision, HunkUse::Undecided);
    assert_eq!(files[0].hunks[1].use_decision, HunkUse::Use);
}

#[test]
fn end_of_input_leaves_the_rest_undecided() {
    let mut files = vec![dummy_file("a.txt", 2), dummy_file("b.txt", 1)];
    let mut output = String::new();
    run_session(&mut files, &lines_of("y\n"), &mut output);
    assert_eq!(files[0].hunks[0].use_decision, HunkUse::Use);
    assert_eq!(files[0].hunks[1].use_decision, HunkUse::Undecided);
    assert_eq!(files[1].hunks[0].use_decision, HunkUse::Undecided);
}

#[test]
fn a_failed_editor_leaves_the_hunk() {
    let mut files = vec![dummy_file("a.txt", 1)];
    let before = files[0].hunks[0].clone();
    let mut output = String::new();
    run_session_with(
        &mut files,
        &lines_of("e\nn\nq\n"),
        &[None],
        &mut output,
        SessionOptions {
            editor: Some("false".into()),
            edit_path: Some("add-edit.patch".into()),
            ..SessionOptions::default()
        },
    );
    assert_eq!(files[0].hunks[0].lines, before.lines);
}
