//! What the classification of shell commands is for: which commands run
//! without a human, which never run, and what makes no difference.

use vstd::prelude::*;

use crate::command_safety;
use crate::command_safety::{BlastRadius, SafetyDisposition, VerdictModel};
use crate::text;

verus! {

//// Words

proof fn lemma_program_words()
    ensures
        "cat"@.len() == 3 && "cat"@[0] == 'c' && "cat"@[1] == 'a' && "cat"@[2] == 't',
        "cut"@.len() == 3 && "cut"@[0] == 'c' && "cut"@[1] == 'u' && "cut"@[2] == 't',
        "echo"@.len() == 4 && "echo"@[0] == 'e' && "echo"@[1] == 'c' && "echo"@[2] == 'h' && "echo"@[3] == 'o',
        "false"@.len() == 5 && "false"@[0] == 'f' && "false"@[1] == 'a' && "false"@[2] == 'l' && "false"@[3] == 's',
        "grep"@.len() == 4 && "grep"@[0] == 'g' && "grep"@[1] == 'r' && "grep"@[2] == 'e' && "grep"@[3] == 'p',
        "head"@.len() == 4 && "head"@[0] == 'h' && "head"@[1] == 'e' && "head"@[2] == 'a' && "head"@[3] == 'd',
        "id"@.len() == 2 && "id"@[0] == 'i' && "id"@[1] == 'd',
        "ls"@.len() == 2 && "ls"@[0] == 'l' && "ls"@[1] == 's',
        "nl"@.len() == 2 && "nl"@[0] == 'n' && "nl"@[1] == 'l',
        "paste"@.len() == 5 && "paste"@[0] == 'p' && "paste"@[1] == 'a' && "paste"@[2] == 's' && "paste"@[3] == 't',
        "pwd"@.len() == 3 && "pwd"@[0] == 'p' && "pwd"@[1] == 'w' && "pwd"@[2] == 'd',
        "rev"@.len() == 3 && "rev"@[0] == 'r' && "rev"@[1] == 'e' && "rev"@[2] == 'v',
        "seq"@.len() == 3 && "seq"@[0] == 's' && "seq"@[1] == 'e' && "seq"@[2] == 'q',
        "stat"@.len() == 4 && "stat"@[0] == 's' && "stat"@[1] == 't' && "stat"@[2] == 'a' && "stat"@[3] == 't',
        "tail"@.len() == 4 && "tail"@[0] == 't' && "tail"@[1] == 'a' && "tail"@[2] == 'i' && "tail"@[3] == 'l',
        "tr"@.len() == 2 && "tr"@[0] == 't' && "tr"@[1] == 'r',
        "true"@.len() == 4 && "true"@[0] == 't' && "true"@[1] == 'r' && "true"@[2] == 'u' && "true"@[3] == 'e',
        "uname"@.len() == 5 && "uname"@[0] == 'u' && "uname"@[1] == 'n' && "uname"@[2] == 'a' && "uname"@[3] == 'm',
        "uniq"@.len() == 4 && "uniq"@[0] == 'u' && "uniq"@[1] == 'n' && "uniq"@[2] == 'i' && "uniq"@[3] == 'q',
        "wc"@.len() == 2 && "wc"@[0] == 'w' && "wc"@[1] == 'c',
        "which"@.len() == 5 && "which"@[0] == 'w' && "which"@[1] == 'h' && "which"@[2] == 'i' && "which"@[3] == 'c',
        "whoami"@.len() == 6 && "whoami"@[0] == 'w' && "whoami"@[1] == 'h' && "whoami"@[2] == 'o' && "whoami"@[3] == 'a',
        "rg"@.len() == 2 && "rg"@[0] == 'r' && "rg"@[1] == 'g',
        "find"@.len() == 4 && "find"@[0] == 'f' && "find"@[1] == 'i' && "find"@[2] == 'n' && "find"@[3] == 'd',
        "sed"@.len() == 3 && "sed"@[0] == 's' && "sed"@[1] == 'e' && "sed"@[2] == 'd',
        "curl"@.len() == 4 && "curl"@[0] == 'c' && "curl"@[1] == 'u' && "curl"@[2] == 'r' && "curl"@[3] == 'l',
        "wget"@.len() == 4 && "wget"@[0] == 'w' && "wget"@[1] == 'g' && "wget"@[2] == 'e' && "wget"@[3] == 't',
        "ssh"@.len() == 3 && "ssh"@[0] == 's' && "ssh"@[1] == 's' && "ssh"@[2] == 'h',
        "scp"@.len() == 3 && "scp"@[0] == 's' && "scp"@[1] == 'c' && "scp"@[2] == 'p',
        "sftp"@.len() == 4 && "sftp"@[0] == 's' && "sftp"@[1] == 'f' && "sftp"@[2] == 't' && "sftp"@[3] == 'p',
        "nc"@.len() == 2 && "nc"@[0] == 'n' && "nc"@[1] == 'c',
        "netcat"@.len() == 6 && "netcat"@[0] == 'n' && "netcat"@[1] == 'e' && "netcat"@[2] == 't' && "netcat"@[3] == 'c',
        "gh"@.len() == 2 && "gh"@[0] == 'g' && "gh"@[1] == 'h',
        "bash"@.len() == 4 && "bash"@[0] == 'b' && "bash"@[1] == 'a' && "bash"@[2] == 's' && "bash"@[3] == 'h',
        "dash"@.len() == 4 && "dash"@[0] == 'd' && "dash"@[1] == 'a' && "dash"@[2] == 's' && "dash"@[3] == 'h',
        "sh"@.len() == 2 && "sh"@[0] == 's' && "sh"@[1] == 'h',
        "zsh"@.len() == 3 && "zsh"@[0] == 'z' && "zsh"@[1] == 's' && "zsh"@[2] == 'h',
        "git"@.len() == 3 && "git"@[0] == 'g' && "git"@[1] == 'i' && "git"@[2] == 't',
        "sudo"@.len() == 4 && "sudo"@[0] == 's' && "sudo"@[1] == 'u' && "sudo"@[2] == 'd' && "sudo"@[3] == 'o',
        "libra"@.len() == 5 && "libra"@[0] == 'l' && "libra"@[1] == 'i' && "libra"@[2] == 'b' && "libra"@[3] == 'r',
        "command"@.len() == 7 && "command"@[0] == 'c' && "command"@[1] == 'o' && "command"@[2] == 'm' && "command"@[3] == 'm',
        "env"@.len() == 3 && "env"@[0] == 'e' && "env"@[1] == 'n' && "env"@[2] == 'v',
        "rm"@.len() == 2 && "rm"@[0] == 'r' && "rm"@[1] == 'm',
        "chmod"@.len() == 5 && "chmod"@[0] == 'c' && "chmod"@[1] == 'h' && "chmod"@[2] == 'm' && "chmod"@[3] == 'o',
        "chown"@.len() == 5 && "chown"@[0] == 'c' && "chown"@[1] == 'h' && "chown"@[2] == 'o' && "chown"@[3] == 'w',
        "dd"@.len() == 2 && "dd"@[0] == 'd' && "dd"@[1] == 'd',
        "mkfs"@.len() == 4 && "mkfs"@[0] == 'm' && "mkfs"@[1] == 'k' && "mkfs"@[2] == 'f' && "mkfs"@[3] == 's',
        "mkfs.ext4"@.len() == 9 && "mkfs.ext4"@[0] == 'm' && "mkfs.ext4"@[1] == 'k' && "mkfs.ext4"@[2] == 'f' && "mkfs.ext4"@[3] == 's',
        "shutdown"@.len() == 8 && "shutdown"@[0] == 's' && "shutdown"@[1] == 'h' && "shutdown"@[2] == 'u' && "shutdown"@[3] == 't',
        "reboot"@.len() == 6 && "reboot"@[0] == 'r' && "reboot"@[1] == 'e' && "reboot"@[2] == 'b' && "reboot"@[3] == 'o',
        "poweroff"@.len() == 8 && "poweroff"@[0] == 'p' && "poweroff"@[1] == 'o' && "poweroff"@[2] == 'w' && "poweroff"@[3] == 'e',
{
    reveal_strlit("cat");
    reveal_strlit("cut");
    reveal_strlit("echo");
    reveal_strlit("false");
    reveal_strlit("grep");
    reveal_strlit("head");
    reveal_strlit("id");
    reveal_strlit("ls");
    reveal_strlit("nl");
    reveal_strlit("paste");
    reveal_strlit("pwd");
    reveal_strlit("rev");
    reveal_strlit("seq");
    reveal_strlit("stat");
    reveal_strlit("tail");
    reveal_strlit("tr");
    reveal_strlit("true");
    reveal_strlit("uname");
    reveal_strlit("uniq");
    reveal_strlit("wc");
    reveal_strlit("which");
    reveal_strlit("whoami");
    reveal_strlit("rg");
    reveal_strlit("find");
    reveal_strlit("sed");
    reveal_strlit("curl");
    reveal_strlit("wget");
    reveal_strlit("ssh");
    reveal_strlit("scp");
    reveal_strlit("sftp");
    reveal_strlit("nc");
    reveal_strlit("netcat");
    reveal_strlit("gh");
    reveal_strlit("bash");
    reveal_strlit("dash");
    reveal_strlit("sh");
    reveal_strlit("zsh");
    reveal_strlit("git");
    reveal_strlit("sudo");
    reveal_strlit("libra");
    reveal_strlit("command");
    reveal_strlit("env");
    reveal_strlit("rm");
    reveal_strlit("chmod");
    reveal_strlit("chown");
    reveal_strlit("dd");
    reveal_strlit("mkfs");
    reveal_strlit("mkfs.ext4");
    reveal_strlit("shutdown");
    reveal_strlit("reboot");
    reveal_strlit("poweroff");
}

/// Whether a verdict lets the command run without a human, and without asking
/// the VCS classifier.
pub open spec fn allows(v: VerdictModel) -> bool {
    v matches VerdictModel::Decided(d) && d.disposition is Allow
}

/// Whether a verdict keeps the command from running at all.
pub open spec fn denies(v: VerdictModel) -> bool {
    v matches VerdictModel::Decided(d) && d.disposition is Deny
}

/// Whether a verdict puts the command before a human.
pub open spec fn asks(v: VerdictModel) -> bool {
    v matches VerdictModel::Decided(d) && d.disposition is NeedsHuman
}

//// Programs by their names

/// Whether `n` is the plain name of a program: no path, no capitals and no
/// `.exe`.
pub open spec fn plain_name(n: Seq<char>) -> bool {
    &&& n.len() > 0
    &&& n != "."@
    &&& n != ".."@
    &&& !n.contains('/')
    &&& forall|i: int| 0 <= i < n.len() ==> !('A' <= #[trigger] n[i] && n[i] <= 'Z')
    &&& !(n.len() >= 4 && n[n.len() - 4] == '.' && n[n.len() - 3] == 'e' && n[n.len() - 2] == 'x'
        && n[n.len() - 1] == 'e')
}

proof fn lemma_split_last(d: Seq<char>, n: Seq<char>)
    requires
        !n.contains('/'),
    ensures
        text::split_on(d + seq!['/'] + n, '/').len() > 0,
        text::split_on(d + seq!['/'] + n, '/').last() == n,
    decreases d.len(),
{
    let s = d + seq!['/'] + n;
    assert(s[d.len() as int] == '/');
    assert(s.contains('/'));
    text::lemma_find_char(s, '/');
    let k = text::find_char(s, '/');
    let rest = s.skip(k + 1);
    assert(k <= d.len());
    if k == d.len() {
        assert(rest =~= n);
        assert(text::split_on(rest, '/') =~= seq![n]);
    } else {
        let e = d.skip(k + 1);
        assert(rest =~= e + seq!['/'] + n);
        lemma_split_last(e, n);
    }
    assert(text::split_on(s, '/').last() == text::split_on(rest, '/').last());
}

proof fn lemma_plain_stem(n: Seq<char>)
    requires
        plain_name(n),
    ensures
        command_safety::trim_exe(n) == n,
        text::ascii_lower(n) == n,
        command_safety::trim_exe(n + ".exe"@) == n,
{
    reveal_strlit(".exe");
    let x = ".exe"@;
    if n.len() >= 4 && n.skip(n.len() - 4) == x {
        let e = n.skip(n.len() - 4);
        assert(e[0] == n[n.len() - 4] && e[1] == n[n.len() - 3] && e[2] == n[n.len() - 2] && e[3]
            == n[n.len() - 1]);
    }
    assert(command_safety::trim_exe(n) == n);
    assert(text::ascii_lower(n) =~= n);
    let w = n + x;
    assert(w.skip(w.len() - 4) =~= x);
    assert(w.take(w.len() - 4) =~= n);
}

/// A program goes by its name, wherever it stands, with `.exe` or without.
pub proof fn law_program_goes_by_its_name(dir: Seq<char>, n: Seq<char>)
    requires
        plain_name(n),
    ensures
        command_safety::executable(n) == Some(n),
        command_safety::executable(dir + "/"@ + n) == Some(n),
        command_safety::executable(n + ".exe"@) == Some(n),
        command_safety::executable(dir + "/"@ + n + ".exe"@) == Some(n),
{
    reveal_strlit("/");
    reveal_strlit(".");
    reveal_strlit("..");
    reveal_strlit(".exe");
    lemma_plain_stem(n);
    assert("/"@ =~= seq!['/']);
    assert(text::split_on(n, '/') =~= seq![n]);
    assert(text::split_on(n, '/').last() == n);
    lemma_split_last(dir, n);
    let w = n + ".exe"@;
    assert(!w.contains('/')) by {
        if w.contains('/') {
            let i = choose|i: int| 0 <= i < w.len() && w[i] == '/';
            if i < n.len() {
                assert(n[i] == '/');
            }
        }
    }
    assert(text::split_on(w, '/') =~= seq![w]);
    assert(text::split_on(w, '/').last() == w);
    lemma_split_last(dir, w);
    assert(dir + "/"@ + n + ".exe"@ =~= dir + seq!['/'] + w);
}

/// Capitals make no other program.
pub proof fn law_program_name_has_no_case(n: Seq<char>, u: Seq<char>)
    requires
        plain_name(n),
        u.len() == n.len(),
        forall|i: int|
            0 <= i < n.len() ==> #[trigger] u[i] == n[i] || ('A' <= u[i] && u[i] <= 'Z' && n[i] as int
                == u[i] as int + 32),
    ensures
        command_safety::executable(u) == Some(n),
{
    reveal_strlit(".");
    reveal_strlit("..");
    reveal_strlit(".exe");
    lemma_plain_stem(n);
    assert(!u.contains('/')) by {
        if u.contains('/') {
            let i = choose|i: int| 0 <= i < u.len() && u[i] == '/';
            assert(n[i] == '/');
        }
    }
    assert(text::split_on(u, '/') =~= seq![u]);
    assert(text::split_on(u, '/').last() == u);
    if u == "."@ {
        assert(u[0] == n[0]);
        assert(n =~= "."@);
    }
    if u == ".."@ {
        assert(u[0] == n[0] && u[1] == n[1]);
        assert(n =~= ".."@);
    }
    if u.len() >= 4 && u.skip(u.len() - 4) == ".exe"@ {
        let e = u.skip(u.len() - 4);
        let k = u.len() - 4;
        assert(e[0] == u[k] && e[1] == u[k + 1] && e[2] == u[k + 2] && e[3] == u[k + 3]);
        assert(u[k] == n[k] && u[k + 1] == n[k + 1] && u[k + 2] == n[k + 2] && u[k + 3] == n[k + 3]);
    }
    assert(command_safety::trim_exe(u) == u);
    assert forall|i: int| 0 <= i < n.len() implies #[trigger] text::ascii_lower(u)[i] == n[i] by {
        assert(u[i] == n[i] || ('A' <= u[i] && u[i] <= 'Z' && n[i] as int == u[i] as int + 32));
        assert(!('A' <= n[i] && n[i] <= 'Z'));
    }
    assert(text::ascii_lower(u) =~= n);
}

//// What is allowed

/// Whether a program only reads, whatever it is given.
pub open spec fn reads_only(w: Seq<char>) -> bool {
    ||| w == "cat"@ || w == "cut"@ || w == "echo"@ || w == "false"@ || w == "grep"@ || w == "head"@
    ||| w == "id"@ || w == "ls"@ || w == "nl"@ || w == "paste"@ || w == "pwd"@ || w == "rev"@
    ||| w == "seq"@ || w == "stat"@ || w == "tail"@ || w == "tr"@ || w == "true"@ || w == "uname"@
    ||| w == "uniq"@ || w == "wc"@ || w == "which"@ || w == "whoami"@
}

/// Whether an argument makes `find` run, delete or write something.
pub open spec fn find_acts(a: Seq<char>) -> bool {
    ||| a == "-exec"@ || a == "-execdir"@ || a == "-ok"@ || a == "-okdir"@ || a == "-delete"@
    ||| a == "-fls"@ || a == "-fprint"@ || a == "-fprint0"@ || a == "-fprintf"@
}

/// Whether an argument makes `rg` run another program or unpack files.
pub open spec fn rg_acts(a: Seq<char>) -> bool {
    ||| a == "--pre"@ || a == "--hostname-bin"@ || a == "--search-zip"@ || a == "-z"@
    ||| exists|v: Seq<char>| a == #[trigger] ("--pre="@ + v)
    ||| exists|v: Seq<char>| a == #[trigger] ("--hostname-bin="@ + v)
}

/// Whether `s` is a number in decimal digits.
pub open spec fn line_number(s: Seq<char>) -> bool {
    s.len() > 0 && forall|i: int| 0 <= i < s.len() ==> '0' <= #[trigger] s[i] && s[i] <= '9'
}

/// Whether a `sed` script prints a line or a range of lines.
pub open spec fn sed_prints(a: Seq<char>) -> bool {
    ||| exists|n: Seq<char>| line_number(n) && a == #[trigger] n.push('p')
    ||| exists|m: Seq<char>, n: Seq<char>|
        line_number(m) && line_number(n) && a == #[trigger] (m.push(',') + n).push('p')
}

/// Whether words make a command that only reads.
pub open spec fn harmless(words: Seq<Seq<char>>) -> bool {
    words.len() > 0 && (command_safety::executable(words[0]) matches Some(w) && {
        ||| reads_only(w)
        ||| w == "rg"@ && forall|i: int| 1 <= i < words.len() ==> !rg_acts(#[trigger] words[i])
        ||| w == "find"@ && forall|i: int| 1 <= i < words.len() ==> !find_acts(#[trigger] words[i])
        ||| w == "sed"@ && words.len() >= 3 && words[1] == "-n"@ && sed_prints(words[2])
    })
}

proof fn lemma_prefix(p: Seq<char>, a: Seq<char>)
    ensures
        p.is_prefix_of(a) <==> exists|v: Seq<char>| a == #[trigger] (p + v),
{
    if p.is_prefix_of(a) {
        assert(a =~= p + a.skip(p.len() as int));
    }
    if exists|v: Seq<char>| a == #[trigger] (p + v) {
        let v = choose|v: Seq<char>| a == #[trigger] (p + v);
        assert(a.subrange(0, p.len() as int) =~= p);
    }
}

proof fn lemma_rg_acts(a: Seq<char>)
    ensures
        rg_acts(a) == command_safety::arg_passes(a, command_safety::ArgTest::RgActive),
{
    lemma_prefix("--pre="@, a);
    lemma_prefix("--hostname-bin="@, a);
}

proof fn lemma_line_number(s: Seq<char>)
    ensures
        line_number(s) == command_safety::is_number(s),
{
    if line_number(s) {
        assert forall|i: int| 0 <= i < s.len() implies 0 <= text::digit_value(#[trigger] s[i])
            < 10 by {
            assert('0' <= s[i] && s[i] <= '9');
        }
    }
    if command_safety::is_number(s) {
        assert forall|i: int| 0 <= i < s.len() implies '0' <= #[trigger] s[i] && s[i] <= '9' by {
            assert(0 <= text::digit_value(s[i]) < 10);
        }
    }
}

proof fn lemma_number_has_no_comma(s: Seq<char>)
    requires
        line_number(s),
    ensures
        !s.contains(','),
{
    if s.contains(',') {
        let i = choose|i: int| 0 <= i < s.len() && s[i] == ',';
        assert('0' <= s[i]);
    }
}

proof fn lemma_split_two(m: Seq<char>, n: Seq<char>)
    requires
        !m.contains(','),
        !n.contains(','),
    ensures
        text::split_on(m.push(',') + n, ',') == seq![m, n],
        text::split_on(n, ',') == seq![n],
{
    let s = m.push(',') + n;
    assert(s[m.len() as int] == ',');
    assert(s.contains(','));
    assert forall|j: int| 0 <= j < m.len() implies s[j] != ',' by {
        assert(m.contains(m[j]));
    }
    text::lemma_find_char_at(s, ',', m.len() as int);
    assert(s.take(m.len() as int) =~= m);
    assert(s.skip(m.len() as int + 1) =~= n);
    assert(text::split_on(n, ',') =~= seq![n]);
    assert(text::split_on(s, ',') =~= seq![m, n]);
}

proof fn lemma_sed_prints(a: Seq<char>)
    ensures
        sed_prints(a) == command_safety::prints_lines(a),
{
    if exists|n: Seq<char>| line_number(n) && a == #[trigger] n.push('p') {
        let n = choose|n: Seq<char>| line_number(n) && a == #[trigger] n.push('p');
        assert(a.drop_last() =~= n);
        lemma_number_has_no_comma(n);
        lemma_split_two(n, n);
        lemma_line_number(n);
    } else if sed_prints(a) {
        let (m, n) = choose|m: Seq<char>, n: Seq<char>|
            line_number(m) && line_number(n) && a == #[trigger] (m.push(',') + n).push('p');
        assert(a.drop_last() =~= m.push(',') + n);
        lemma_number_has_no_comma(m);
        lemma_number_has_no_comma(n);
        lemma_split_two(m, n);
        lemma_line_number(m);
        lemma_line_number(n);
    }
    if command_safety::prints_lines(a) {
        let core = a.drop_last();
        let parts = text::split_on(core, ',');
        text::lemma_find_char(core, ',');
        let k = text::find_char(core, ',');
        if core.contains(',') {
            let rest = core.skip(k + 1);
            assert(parts == seq![core.take(k)] + text::split_on(rest, ','));
            assert(parts[0] == core.take(k));
            if rest.contains(',') {
                text::lemma_find_char(rest, ',');
                let j = text::find_char(rest, ',');
                let last = rest.skip(j + 1);
                assert(text::split_on(rest, ',') == seq![rest.take(j)] + text::split_on(last, ','));
                assert(text::split_on(last, ',').len() >= 1);
                assert(parts.len() >= 3);
            }
            assert(text::split_on(rest, ',') =~= seq![rest]);
            assert(parts[1] == rest);
            let m = core.take(k);
            lemma_line_number(m);
            lemma_line_number(rest);
            assert(a =~= (m.push(',') + rest).push('p'));
        } else {
            assert(parts[0] == core);
            lemma_line_number(core);
            assert(a =~= core.push('p'));
        }
    }
}

proof fn lemma_harmless(words: Seq<Seq<char>>)
    requires
        words.len() > 0,
    ensures
        harmless(words) <==> (command_safety::executable(words[0]) matches Some(w)
            && command_safety::only_reads(w, words.drop_first())),
{
    lemma_program_words();
    let args = words.drop_first();
    let rg = command_safety::ArgTest::RgActive;
    let find = command_safety::ArgTest::FindActive;
    assert((forall|i: int| 1 <= i < words.len() ==> !rg_acts(#[trigger] words[i]))
        == !command_safety::any_passes(args, rg)) by {
        if command_safety::any_passes(args, rg) {
            let i = choose|i: int|
                0 <= i < args.len() && command_safety::arg_passes(#[trigger] args[i], rg);
            lemma_rg_acts(args[i]);
            assert(words[i + 1] == args[i]);
        } else {
            assert forall|i: int| 1 <= i < words.len() implies !rg_acts(#[trigger] words[i]) by {
                lemma_rg_acts(words[i]);
                assert(args[i - 1] == words[i]);
            }
        }
    }
    assert((forall|i: int| 1 <= i < words.len() ==> !find_acts(#[trigger] words[i]))
        == !command_safety::any_passes(args, find)) by {
        if command_safety::any_passes(args, find) {
            let i = choose|i: int|
                0 <= i < args.len() && command_safety::arg_passes(#[trigger] args[i], find);
            assert(words[i + 1] == args[i]);
        } else {
            assert forall|i: int| 1 <= i < words.len() implies !find_acts(#[trigger] words[i]) by {
                assert(args[i - 1] == words[i]);
            }
        }
    }
    if words.len() >= 3 {
        lemma_sed_prints(words[2]);
        assert(args[0] == words[1] && args[1] == words[2]);
    }
}

/// Whether words are a wrapper and what it wraps: `command` or `env` runs the
/// words from `i` on.
spec fn wraps(words: Seq<Seq<char>>) -> bool {
    words.len() > 0 && (command_safety::executable(words[0]) == Some("command"@)
        || command_safety::executable(words[0]) == Some("env"@))
}

/// What is allowed only reads: a program of the list, with no argument that
/// makes it act, by itself or behind `command` and `env`.
pub proof fn law_only_reading_is_allowed(words: Seq<Seq<char>>, limit: nat)
    requires
        allows(command_safety::judge_words(words, limit)),
    ensures
        exists|k: int| 0 <= k < words.len() && #[trigger] harmless(words.skip(k)),
    decreases words.len(),
{
    lemma_program_words();
    assert(words.skip(0) =~= words);
    let cmd = command_safety::executable(words[0])->0;
    if wraps(words) {
        let args = words.drop_first();
        command_safety::lemma_past_env_options(args, 0);
        let i = if cmd == "env"@ {
            command_safety::past_env_options(args, 0)
        } else {
            0
        };
        let rest = args.skip(i);
        law_only_reading_is_allowed(rest, limit);
        let k = choose|k: int| 0 <= k < rest.len() && #[trigger] harmless(rest.skip(k));
        assert(words.skip(1 + i + k) =~= rest.skip(k));
        assert(harmless(words.skip(1 + i + k)));
    } else {
        lemma_harmless(words);
        assert(harmless(words.skip(0)));
    }
}

/// A command that only reads is allowed.
pub proof fn law_reading_is_allowed(words: Seq<Seq<char>>, limit: nat)
    requires
        harmless(words),
    ensures
        allows(command_safety::judge_words(words, limit)),
{
    lemma_program_words();
    lemma_harmless(words);
}

/// `find` that runs, deletes or writes something is not allowed, nor is `rg`
/// that runs or unpacks something, wherever the argument stands.
pub proof fn law_acting_search_is_not_allowed(words: Seq<Seq<char>>, i: int, limit: nat)
    requires
        1 <= i < words.len(),
        (command_safety::executable(words[0]) == Some("find"@) && find_acts(words[i])) || (
        command_safety::executable(words[0]) == Some("rg"@) && rg_acts(words[i])),
    ensures
        asks(command_safety::judge_words(words, limit)),
{
    lemma_program_words();
    lemma_harmless(words);
    assert(!harmless(words)) by {
        assert(words[i] == words[i]);
    }
}

//// What is denied

/// Whether an argument is a group of short flags that holds `c`.
pub open spec fn short_flags(a: Seq<char>, c: char) -> bool {
    a.len() > 1 && a[0] == '-' && a[1] != '-' && exists|i: int| 1 <= i < a.len() && #[trigger] a[i] == c
}

/// Whether `rm` goes into directories.
pub open spec fn rm_recursive(a: Seq<char>) -> bool {
    a == "-R"@ || a == "--recursive"@ || short_flags(a, 'r')
}

/// Whether `rm` asks nothing.
pub open spec fn rm_forced(a: Seq<char>) -> bool {
    a == "--force"@ || short_flags(a, 'f')
}

pub open spec fn some_argument(words: Seq<Seq<char>>, p: spec_fn(Seq<char>) -> bool) -> bool {
    exists|i: int| 1 <= i < words.len() && p(#[trigger] words[i])
}

/// Whether words make a command that destroys data or stops the machine.
pub open spec fn wrecks(words: Seq<Seq<char>>) -> bool {
    words.len() > 0 && (command_safety::executable(words[0]) matches Some(w) && {
        ||| w == "rm"@ && some_argument(words, |a| rm_recursive(a)) && some_argument(
            words,
            |a| rm_forced(a),
        )
        ||| w == "chmod"@ && some_argument(words, |a| "-R"@.is_prefix_of(a)) && some_argument(
            words,
            |a| a == "777"@,
        )
        ||| w == "chown"@ && some_argument(words, |a| "-R"@.is_prefix_of(a))
        ||| w == "dd"@ && some_argument(words, |a| "of=/dev/"@.is_prefix_of(a))
        ||| w == "mkfs"@ || w == "mkfs.ext4"@ || w == "shutdown"@ || w == "reboot"@ || w == "poweroff"@
    })
}

/// Whether what is destroyed lies outside the workspace.
pub open spec fn wrecks_system(words: Seq<Seq<char>>) -> bool {
    wrecks(words) && (command_safety::executable(words[0]) matches Some(w) && (if w == "rm"@ {
        some_argument(words, |a| a == "/"@ || "/dev/"@.is_prefix_of(a))
    } else {
        w != "chmod"@ && w != "chown"@
    }))
}

proof fn lemma_short_flags(a: Seq<char>, c: char)
    requires
        c != '-',
    ensures
        short_flags(a, c) == command_safety::flag_group_has(a, c),
{
    reveal_strlit("--");
    if short_flags(a, c) {
        let i = choose|i: int| 1 <= i < a.len() && #[trigger] a[i] == c;
        assert(a.drop_first()[i - 1] == c);
        if "--"@.is_prefix_of(a) {
            assert(a.subrange(0, 2)[1] == "--"@[1]);
        }
    }
    if command_safety::flag_group_has(a, c) {
        let t = a.drop_first();
        let i = choose|i: int| 0 <= i < t.len() && t[i] == c;
        assert(a[i + 1] == c);
        if a[1] == '-' {
            assert(a.subrange(0, 2) =~= "--"@);
        }
    }
}

proof fn lemma_some_argument(
    words: Seq<Seq<char>>,
    p: spec_fn(Seq<char>) -> bool,
    t: command_safety::ArgTest,
)
    requires
        words.len() > 0,
        forall|a: Seq<char>| #[trigger] p(a) == command_safety::arg_passes(a, t),
    ensures
        some_argument(words, p) == command_safety::any_passes(words.drop_first(), t),
{
    let args = words.drop_first();
    if some_argument(words, p) {
        let i = choose|i: int| 1 <= i < words.len() && p(#[trigger] words[i]);
        assert(args[i - 1] == words[i]);
    }
    if command_safety::any_passes(args, t) {
        let i = choose|i: int| 0 <= i < args.len() && command_safety::arg_passes(#[trigger] args[i], t);
        assert(words[i + 1] == args[i]);
        assert(p(words[i + 1]));
    }
}

proof fn lemma_rm_arguments(words: Seq<Seq<char>>)
    requires
        words.len() > 0,
    ensures
        some_argument(words, |a| rm_recursive(a)) == command_safety::any_passes(
            words.drop_first(),
            command_safety::ArgTest::Recursive,
        ),
        some_argument(words, |a| rm_forced(a)) == command_safety::any_passes(
            words.drop_first(),
            command_safety::ArgTest::Force,
        ),
{
    reveal_strlit("-r");
    reveal_strlit("-f");
    let r = |a: Seq<char>| rm_recursive(a);
    let f = |a: Seq<char>| rm_forced(a);
    assert forall|a: Seq<char>| #[trigger] r(a) == command_safety::arg_passes(
        a,
        command_safety::ArgTest::Recursive,
    ) by {
        lemma_short_flags(a, 'r');
        if a == "-r"@ {
            assert(a[1] == 'r');
        }
    }
    assert forall|a: Seq<char>| #[trigger] f(a) == command_safety::arg_passes(
        a,
        command_safety::ArgTest::Force,
    ) by {
        lemma_short_flags(a, 'f');
        if a == "-f"@ {
            assert(a[1] == 'f');
        }
    }
    lemma_some_argument(words, r, command_safety::ArgTest::Recursive);
    lemma_some_argument(words, f, command_safety::ArgTest::Force);
}

proof fn lemma_wrecks(words: Seq<Seq<char>>)
    requires
        words.len() > 0,
    ensures
        wrecks(words) == (command_safety::destruction(words) is Some),
        wrecks(words) ==> command_safety::destruction(words) == Some(
            if wrecks_system(words) {
                BlastRadius::System
            } else {
                BlastRadius::Workspace
            },
        ),
{
    lemma_program_words();
    lemma_rm_arguments(words);
    lemma_some_argument(
        words,
        |a| "-R"@.is_prefix_of(a),
        command_safety::ArgTest::DashR,
    );
    lemma_some_argument(words, |a| a == "777"@, command_safety::ArgTest::Mode777);
    lemma_some_argument(
        words,
        |a| "of=/dev/"@.is_prefix_of(a),
        command_safety::ArgTest::DeviceOutput,
    );
    lemma_some_argument(
        words,
        |a| a == "/"@ || "/dev/"@.is_prefix_of(a),
        command_safety::ArgTest::RootOrDevice,
    );
}

/// What destroys is denied, and nothing else is denied for that; the harm
/// reaches the system where it leaves the workspace.
pub proof fn law_destruction_is_denied(words: Seq<Seq<char>>, limit: nat)
    requires
        wrecks(words),
    ensures
        command_safety::judge_words(words, limit) matches VerdictModel::Decided(d) && {
            &&& d.disposition is Deny
            &&& d.rule == "shell.destructive_command"@
            &&& d.blast_radius == if wrecks_system(words) {
                BlastRadius::System
            } else {
                BlastRadius::Workspace
            }
        },
{
    lemma_program_words();
    lemma_wrecks(words);
}

/// `sudo` lets nothing run by itself: what destroys is denied with it too, as
/// harm to the system, and the rest is asked about.
pub proof fn law_sudo_is_never_allowed(sudo: Seq<char>, words: Seq<Seq<char>>, limit: nat)
    requires
        command_safety::executable(sudo) == Some("sudo"@),
    ensures
        command_safety::judge_words(seq![sudo] + words, limit) matches VerdictModel::Decided(d) && {
            &&& d.blast_radius is System
            &&& if wrecks(words) {
                d.disposition is Deny
            } else {
                d.disposition is NeedsHuman
            }
        },
{
    lemma_program_words();
    let all = seq![sudo] + words;
    assert(all.drop_first() =~= words);
    if words.len() > 0 {
        lemma_wrecks(words);
    }
}

/// `git` is denied, and programs that use the network are asked about.
pub proof fn law_git_and_network_are_kept(words: Seq<Seq<char>>, limit: nat)
    requires
        words.len() > 0,
        command_safety::executable(words[0]) is Some,
    ensures
        ({
            let w = command_safety::executable(words[0])->0;
            let v = command_safety::judge_words(words, limit);
            &&& w == "git"@ ==> denies(v)
            &&& w == "curl"@ || w == "wget"@ || w == "ssh"@ || w == "scp"@ || w == "sftp"@ || w
                == "nc"@ || w == "netcat"@ || w == "gh"@ ==> asks(v) && v->Decided_0.rule
                == "shell.network_access"@ && v->Decided_0.blast_radius is Network
        }),
{
    lemma_program_words();
    lemma_wrecks(words);
}

/// Words that name no program are asked about.
pub proof fn law_no_program_is_asked_about(words: Seq<Seq<char>>, limit: nat)
    requires
        words.len() == 0 || command_safety::executable(words[0]) is None,
    ensures
        asks(command_safety::judge_words(words, limit)),
{
}

//// Wrappers and interpreters

/// Whether a word assigns a variable.
pub open spec fn assigns(w: Seq<char>) -> bool {
    w.len() > 0 && w[0] != '-' && exists|i: int| 0 <= i < w.len() && #[trigger] w[i] == '='
}

/// Whether a word is an option of `env` that stands alone.
pub open spec fn env_option(w: Seq<char>) -> bool {
    ||| assigns(w)
    ||| "--unset="@.is_prefix_of(w) || "--chdir="@.is_prefix_of(w)
    ||| w == "-i"@ || w == "--ignore-environment"@ || w == "-0"@ || w == "--null"@
}

/// Whether a word is an option of `env` that takes the next word along.
pub open spec fn env_option_with_value(w: Seq<char>) -> bool {
    w == "-u"@ || w == "--unset"@ || w == "-C"@ || w == "--chdir"@
}

proof fn lemma_assigns(w: Seq<char>)
    ensures
        assigns(w) == command_safety::is_assignment(w),
{
    if command_safety::is_assignment(w) {
        let i = choose|i: int| 0 <= i < w.len() && w[i] == '=';
        assert(w[i] == '=');
    }
}

proof fn lemma_env_shift(a: Seq<Seq<char>>, b: Seq<Seq<char>>, i: int)
    requires
        0 <= i <= b.len(),
    ensures
        command_safety::past_env_options(a + b, a.len() + i) == a.len()
            + command_safety::past_env_options(b, i),
    decreases b.len() - i,
{
    let all = a + b;
    if i < b.len() {
        assert(all[a.len() + i] == b[i]);
        lemma_env_shift(a, b, i + 1);
        if i + 1 < b.len() {
            lemma_env_shift(a, b, i + 2);
        }
    }
}

proof fn lemma_env_options(w: Seq<char>)
    ensures
        env_option_with_value(w) ==> !env_option(w),
        w.len() == 0 ==> !env_option(w) && !env_option_with_value(w),
{
    reveal_strlit("-u");
    reveal_strlit("--unset");
    reveal_strlit("-C");
    reveal_strlit("--chdir");
    reveal_strlit("--unset=");
    reveal_strlit("--chdir=");
    reveal_strlit("-i");
    reveal_strlit("--ignore-environment");
    reveal_strlit("-0");
    reveal_strlit("--null");
    assert("-u"@[1] == 'u' && "-C"@[1] == 'C' && "-i"@[1] == 'i' && "-0"@[1] == '0');
    assert("--unset"@[2] == 'u' && "--chdir"@[2] == 'c');
    assert("-u"@[0] == '-' && "--unset"@[0] == '-' && "-C"@[0] == '-' && "--chdir"@[0] == '-');
}

/// `env` runs what stands behind its options and assignments, and the verdict
/// is the one on that.
pub proof fn law_env_is_transparent(
    env: Seq<char>,
    x: Seq<char>,
    y: Seq<char>,
    words: Seq<Seq<char>>,
    limit: nat,
)
    requires
        command_safety::executable(env) == Some("env"@),
        words.len() > 0,
    ensures
        env_option(x) ==> command_safety::judge_words(seq![env, x] + words, limit)
            == command_safety::judge_words(seq![env] + words, limit),
        env_option_with_value(x) ==> command_safety::judge_words(seq![env, x, y] + words, limit)
            == command_safety::judge_words(seq![env] + words, limit),
        !env_option(words[0]) && !env_option_with_value(words[0]) ==> command_safety::judge_words(
            seq![env] + words,
            limit,
        ) == command_safety::judge_words(words, limit),
{
    lemma_program_words();
    lemma_assigns(x);
    lemma_assigns(words[0]);
    lemma_env_options(x);
    let plain = seq![env] + words;
    let one = seq![env, x] + words;
    let two = seq![env, x, y] + words;
    assert(plain.drop_first() =~= words);
    assert(one.drop_first() =~= seq![x] + words);
    assert(two.drop_first() =~= seq![x, y] + words);
    command_safety::lemma_past_env_options(words, 0);
    let i = command_safety::past_env_options(words, 0);
    lemma_env_shift(seq![x], words, 0);
    lemma_env_shift(seq![x, y], words, 0);
    assert((seq![x] + words).skip(1 + i) =~= words.skip(i));
    assert((seq![x, y] + words).skip(2 + i) =~= words.skip(i));
    assert((seq![x] + words)[0] == x);
    assert((seq![x, y] + words)[0] == x);
    assert(words.skip(0) =~= words);
}

/// A wrapper with nothing to run is asked about.
pub proof fn law_empty_wrapper_is_asked_about(w: Seq<char>, limit: nat)
    requires
        command_safety::executable(w) == Some("env"@) || command_safety::executable(w) == Some(
            "command"@,
        ),
    ensures
        asks(command_safety::judge_words(seq![w], limit)),
{
    lemma_program_words();
    assert(seq![w].drop_first() =~= Seq::<Seq<char>>::empty());
}

proof fn lemma_script(a: Seq<Seq<char>>, s: Seq<char>, b: Seq<Seq<char>>, i: int)
    requires
        0 <= i <= a.len(),
        forall|j: int| 0 <= j < a.len() ==> #[trigger] a[j] != "-c"@,
    ensures
        command_safety::script_of(a + seq!["-c"@, s] + b, i) == Some(s),
    decreases a.len() - i,
{
    let all = a + seq!["-c"@, s] + b;
    if i < a.len() {
        assert(all[i] == a[i]);
        lemma_script(a, s, b, i + 1);
    } else {
        assert(all[i] == "-c"@);
        assert(all[i + 1] == s);
    }
}

/// A script behind the first `-c` of a shell is denied where the script itself
/// is denied, with the same words, and is put before a human otherwise: an
/// interpreter makes nothing more permitted.
pub proof fn law_interpreter_permits_nothing(
    shell: Seq<char>,
    a: Seq<Seq<char>>,
    s: Seq<char>,
    b: Seq<Seq<char>>,
    limit: nat,
    vcs: command_safety::DecisionModel,
)
    requires
        command_safety::executable(shell) matches Some(w) && (w == "bash"@ || w == "dash"@ || w
            == "sh"@ || w == "zsh"@),
        forall|j: int| 0 <= j < a.len() ==> #[trigger] a[j] != "-c"@,
        s.len() < limit,
    ensures
        ({
            let v = command_safety::judge_words(seq![shell] + (a + seq!["-c"@, s] + b), limit);
            &&& denies(command_safety::judge(s)) ==> v == command_safety::judge(s)
            &&& !denies(command_safety::judge(s)) ==> !denies(v)
            &&& !(command_safety::settled(v, vcs).disposition is Allow)
            &&& command_safety::settled(v, vcs).disposition is Deny
                == (command_safety::settled(command_safety::judge(s), vcs).disposition is Deny)
        }),
{
    lemma_program_words();
    lemma_script(a, s, b, 0);
    let all = seq![shell] + (a + seq!["-c"@, s] + b);
    assert(all.drop_first() =~= a + seq!["-c"@, s] + b);
}

/// A `libra` command is handed to the VCS classifier word for word, and its
/// answer stands: only where it allows is the command allowed.
pub proof fn law_libra_is_judged_by_the_vcs(
    libra: Seq<char>,
    sub: Seq<char>,
    args: Seq<Seq<char>>,
    limit: nat,
    vcs: command_safety::DecisionModel,
)
    requires
        command_safety::executable(libra) == Some("libra"@),
    ensures
        ({
            let v = command_safety::judge_words(seq![libra, sub] + args, limit);
            &&& v == VerdictModel::Libra { subcommand: sub, args, nested: false }
            &&& command_safety::settled(v, vcs).disposition == vcs.disposition
            &&& !(vcs.disposition is Allow) ==> command_safety::settled(v, vcs) == vcs
        }),
        asks(command_safety::judge_words(seq![libra], limit)),
{
    lemma_program_words();
    let all = seq![libra, sub] + args;
    lemma_wrecks(all);
    lemma_wrecks(seq![libra]);
    assert(all.drop_first() =~= seq![sub] + args);
    assert((seq![sub] + args).drop_first() =~= args);
    assert(seq![libra].drop_first() =~= Seq::<Seq<char>>::empty());
}

//// Whole commands

proof fn lemma_trim_between(a: Seq<char>, c: Seq<char>, b: Seq<char>)
    requires
        text::is_blank(a),
        text::is_blank(b),
    ensures
        text::trim(a + c + b) == text::trim(c),
{
    text::lemma_trim_around(a, c, b);
}

/// Whitespace round a command makes no difference.
pub proof fn law_blanks_make_no_difference(a: Seq<char>, c: Seq<char>, b: Seq<char>)
    requires
        text::is_blank(a),
        text::is_blank(b),
    ensures
        command_safety::judge(a + c + b) == command_safety::judge(c),
        denies(command_safety::judge(a)),
{
    lemma_trim_between(a, c, b);
    text::lemma_trim_blank(a);
}

/// Whether a character is not ASCII.
pub open spec fn foreign(c: char) -> bool {
    c > '\u{7f}'
}

proof fn lemma_lower_keeps(c: Seq<char>, x: char)
    requires
        !('a' <= x && x <= 'z'),
        c.contains(x),
        !('A' <= x && x <= 'Z'),
    ensures
        text::ascii_lower(c).contains(x),
{
    let i = choose|i: int| 0 <= i < c.len() && c[i] == x;
    assert(text::ascii_lower(c)[i] == x);
}

/// A command that substitutes, redirects or combines, or that is not ASCII, is
/// never allowed: what is allowed is one plain command.
pub proof fn law_only_plain_commands_are_allowed(c: Seq<char>, i: int, vcs: command_safety::DecisionModel)
    requires
        0 <= i < c.len(),
        !text::is_white(c[i]),
        ({
            ||| c[i] == '`' || c[i] == '>' || c[i] == '<' || c[i] == '|' || c[i] == ';'
            ||| i + 1 < c.len() && c[i] == '$' && c[i + 1] == '('
            ||| i + 1 < c.len() && c[i] == '&' && c[i + 1] == '&'
            ||| foreign(c[i])
        }),
    ensures
        !(command_safety::settled(command_safety::judge(c), vcs).disposition is Allow),
{
    let t = text::trim(c);
    let lower = text::ascii_lower(t);
    text::lemma_trim_holds(c, i);
    let a = text::trimmed_away(c);
    let k = i - a;
    assert(t[k] == c[i]);
    assert(t.contains(c[i]));
    if foreign(c[i]) {
        assert(!command_safety::is_ascii_text(t)) by {
            assert(t[k] > '\u{7f}');
        }
    } else if c[i] == '$' || c[i] == '&' {
        assert(!text::is_white(c[i + 1]));
        text::lemma_trim_holds(c, i + 1);
        assert(t[k + 1] == c[i + 1]);
        reveal_strlit("$(");
        reveal_strlit("&&");
        let p = if c[i] == '$' {
            "$("@
        } else {
            "&&"@
        };
        assert(lower[k] == c[i] && lower[k + 1] == c[i + 1]);
        assert(lower.skip(k).subrange(0, 2) =~= p);
        assert(text::occurs_at(lower, p, k));
        assert(text::occurs_in(lower, p));
    } else {
        lemma_lower_keeps(t, c[i]);
    }
}

proof fn lemma_lower_occurs(c: Seq<char>, p: Seq<char>, k: int)
    requires
        0 <= k,
        k + p.len() <= c.len(),
        c.subrange(k, k + p.len()) == p,
        forall|i: int| 0 <= i < p.len() ==> !('A' <= #[trigger] p[i] && p[i] <= 'Z'),
    ensures
        text::occurs_in(text::ascii_lower(c), p),
{
    let l = text::ascii_lower(c);
    let here = l.skip(k).subrange(0, p.len() as int);
    assert forall|i: int| 0 <= i < p.len() implies here[i] == p[i] by {
        assert(c.subrange(k, k + p.len())[i] == p[i]);
        assert(l[k + i] == text::lower_char(c[k + i]));
    }
    assert(here =~= p);
    assert(text::occurs_at(l, p, k));
}

/// Whether `p` stands in `c` at `k`.
pub open spec fn stands_at(c: Seq<char>, p: Seq<char>, k: int) -> bool {
    0 <= k && k + p.len() <= c.len() && c.subrange(k, k + p.len()) == p
}

/// A download that is piped to a shell is denied, wherever the three stand.
pub proof fn law_downloads_are_not_run(c: Seq<char>, j: int, i: int, k: int)
    requires
        c.len() > 0 && !text::is_white(c[0]) && !text::is_white(c.last()),
        forall|n: int| 0 <= n < c.len() ==> !foreign(#[trigger] c[n]),
        (j == 0 && (stands_at(c, "curl "@, 0) || stands_at(c, "wget "@, 0))) || stands_at(
            c,
            " curl "@,
            j,
        ) || stands_at(c, " wget "@, j),
        0 <= i < c.len() && c[i] == '|',
        stands_at(c, " sh"@, k) || stands_at(c, " bash"@, k),
    ensures
        denies(command_safety::judge(c)),
{
    reveal_strlit("curl ");
    reveal_strlit("wget ");
    reveal_strlit(" curl ");
    reveal_strlit(" wget ");
    reveal_strlit(" sh");
    reveal_strlit(" bash");
    let lower = text::ascii_lower(c);
    assert(c =~= c.subrange(0, c.len() as int));
    text::lemma_trim_is(c, 0, c);
    assert(c.contains('|'));
    lemma_lower_keeps(c, '|');
    if stands_at(c, " sh"@, k) {
        lemma_lower_occurs(c, " sh"@, k);
    } else {
        lemma_lower_occurs(c, " bash"@, k);
    }
    if stands_at(c, " curl "@, j) {
        lemma_lower_occurs(c, " curl "@, j);
    } else if stands_at(c, " wget "@, j) {
        lemma_lower_occurs(c, " wget "@, j);
    } else {
        let p = if stands_at(c, "curl "@, 0) {
            "curl "@
        } else {
            "wget "@
        };
        let here = lower.subrange(0, p.len() as int);
        assert forall|n: int| 0 <= n < p.len() implies here[n] == p[n] by {
            assert(c.subrange(0, p.len() as int)[n] == p[n]);
        }
        assert(here =~= p);
    }
}

/// A command without whitespace round it that substitutes nothing, combines
/// nothing and does not run `git` is judged by its words.
pub proof fn law_plain_command_is_judged_by_its_words(c: Seq<char>, words: Seq<Seq<char>>)
    requires
        c.len() > 0 && !text::is_white(c[0]) && !text::is_white(c.last()),
        forall|n: int|
            0 <= n < c.len() ==> !foreign(#[trigger] c[n]) && c[n] != '`' && c[n] != '$' && c[n]
                != '>' && c[n] != '<' && c[n] != '|' && c[n] != ';' && c[n] != '&',
        command_safety::shell_words(c) == Some(words),
        words.len() > 0,
        !command_safety::words_invoke_git(words, 0, 0),
    ensures
        command_safety::judge(c) == command_safety::judge_words(words, c.len()),
{
    reveal_strlit("$(");
    reveal_strlit("&&");
    let lower = text::ascii_lower(c);
    assert(c =~= c.subrange(0, c.len() as int));
    text::lemma_trim_is(c, 0, c);
    assert forall|x: char| x == '`' || x == '$' || x == '>' || x == '<' || x == '|' || x == ';' || x
        == '&' implies !(#[trigger] lower.contains(x)) by {
        if lower.contains(x) {
            let n = choose|n: int| 0 <= n < lower.len() && lower[n] == x;
            assert(lower[n] == text::lower_char(c[n]));
            assert(c[n] == x);
        }
    }
    assert(!lower.contains('`') && !lower.contains('>') && !lower.contains('<') && !lower.contains('|')
        && !lower.contains(';'));
    if text::occurs_in(lower, "$("@) {
        let k = choose|k: int| 0 <= k <= lower.len() && #[trigger] text::occurs_at(lower, "$("@, k);
        assert(lower.skip(k).subrange(0, 2)[0] == '$');
        assert(lower[k] == '$');
        assert(lower.contains('$'));
    }
    if text::occurs_in(lower, "&&"@) {
        let k = choose|k: int| 0 <= k <= lower.len() && #[trigger] text::occurs_at(lower, "&&"@, k);
        assert(lower.skip(k).subrange(0, 2)[0] == '&');
        assert(lower[k] == '&');
        assert(lower.contains('&'));
    }
}

//// Git among the words

proof fn lemma_git_shift(a: Seq<Seq<char>>, b: Seq<Seq<char>>, start: int, i: int)
    requires
        0 <= start <= i <= b.len(),
    ensures
        command_safety::words_invoke_git(a + b, a.len() + start, a.len() + i)
            == command_safety::words_invoke_git(b, start, i),
    decreases b.len() - i,
{
    let all = a + b;
    if i < b.len() {
        assert(all[a.len() + i] == b[i]);
        assert(all.subrange(a.len() + start, a.len() + i) =~= b.subrange(start, i));
        lemma_git_shift(a, b, i + 1, i + 1);
        lemma_git_shift(a, b, start, i + 1);
    } else {
        assert(all.subrange(a.len() + start, all.len() as int) =~= b.subrange(
            start,
            b.len() as int,
        ));
    }
}

proof fn lemma_git_before(a: Seq<Seq<char>>, op: Seq<char>, b: Seq<Seq<char>>, start: int, i: int)
    requires
        0 <= start <= i <= a.len(),
        command_safety::is_operator(op),
    ensures
        command_safety::words_invoke_git(a + seq![op] + b, start, i)
            == (command_safety::words_invoke_git(a, start, i) || command_safety::words_invoke_git(
            b,
            0,
            0,
        )),
    decreases a.len() - i,
{
    let all = a + seq![op] + b;
    if i < a.len() {
        assert(all[i] == a[i]);
        assert(all.subrange(start, i) =~= a.subrange(start, i));
        lemma_git_before(a, op, b, i + 1, i + 1);
        lemma_git_before(a, op, b, start, i + 1);
    } else {
        assert(all[i] == op);
        assert(all.subrange(start, i) =~= a.subrange(start, a.len() as int));
        assert(all =~= (a + seq![op]) + b);
        lemma_git_shift(a + seq![op], b, 0, 0);
    }
}

/// Commands that an operator separates run `git` where one of them does.
pub proof fn law_git_is_found_between_operators(a: Seq<Seq<char>>, op: Seq<char>, b: Seq<Seq<char>>)
    requires
        op == "&&"@ || op == "||"@ || op == ";"@ || op == "|"@,
    ensures
        command_safety::words_invoke_git(a + seq![op] + b, 0, 0)
            == (command_safety::words_invoke_git(a, 0, 0) || command_safety::words_invoke_git(
            b,
            0,
            0,
        )),
{
    lemma_git_before(a, op, b, 0, 0);
}

/// Whether no word separates commands.
pub open spec fn one_command(words: Seq<Seq<char>>) -> bool {
    forall|i: int|
        0 <= i < words.len() ==> #[trigger] words[i] != "&&"@ && words[i] != "||"@ && words[i]
            != ";"@ && words[i] != "|"@
}

proof fn lemma_one_command(words: Seq<Seq<char>>, i: int)
    requires
        one_command(words),
        0 <= i <= words.len(),
    ensures
        command_safety::words_invoke_git(words, 0, i) == command_safety::segment_invokes_git(words),
    decreases words.len() - i,
{
    if i < words.len() {
        assert(words[i] == words[i]);
        lemma_one_command(words, i + 1);
    } else {
        assert(words.subrange(0, words.len() as int) =~= words);
    }
}

proof fn lemma_assignments_shift(w: Seq<char>, words: Seq<Seq<char>>, i: int)
    requires
        0 <= i <= words.len(),
    ensures
        command_safety::past_assignments(seq![w] + words, i + 1) == 1
            + command_safety::past_assignments(words, i),
    decreases words.len() - i,
{
    let all = seq![w] + words;
    if i < words.len() {
        assert(all[i + 1] == words[i]);
        lemma_assignments_shift(w, words, i + 1);
    }
}

proof fn lemma_runners_shift(w: Seq<char>, words: Seq<Seq<char>>, i: int)
    requires
        0 <= i <= words.len(),
    ensures
        command_safety::past_runners(seq![w] + words, i + 1) == 1 + command_safety::past_runners(
            words,
            i,
        ),
        i <= command_safety::past_runners(words, i) <= words.len(),
    decreases words.len() - i,
{
    let all = seq![w] + words;
    if i < words.len() {
        assert(all[i + 1] == words[i]);
        lemma_assignments_shift(w, words, i + 1);
        command_safety::lemma_past_assignments(words, i + 1);
        lemma_runners_shift(w, words, command_safety::past_assignments(words, i + 1));
    }
}

/// One command runs `git` where its program is `git`; assignments, `command`,
/// `sudo` and `env` before the program do not hide it.
pub proof fn law_git_is_found_behind_what_runs_it(w: Seq<char>, rest: Seq<Seq<char>>)
    requires
        one_command(seq![w] + rest),
    ensures
        assigns(w) || w == "command"@ || w == "sudo"@ || w == "env"@
            ==> command_safety::words_invoke_git(seq![w] + rest, 0, 0)
            == command_safety::words_invoke_git(rest, 0, 0),
        !assigns(w) && w != "command"@ && w != "sudo"@ && w != "env"@
            ==> command_safety::words_invoke_git(seq![w] + rest, 0, 0) == (
        command_safety::executable(w) == Some("git"@)),
{
    lemma_program_words();
    let all = seq![w] + rest;
    assert(one_command(rest)) by {
        assert forall|i: int| 0 <= i < rest.len() implies #[trigger] rest[i] != "&&"@ && rest[i]
            != "||"@ && rest[i] != ";"@ && rest[i] != "|"@ by {
            assert(all[i + 1] == rest[i]);
        }
    }
    lemma_one_command(all, 0);
    lemma_one_command(rest, 0);
    lemma_assigns(w);
    assert(all[0] == w);
    lemma_assignments_shift(w, rest, 0);
    command_safety::lemma_past_assignments(rest, 0);
    let i = command_safety::past_assignments(rest, 0);
    lemma_runners_shift(w, rest, i);
    let j = command_safety::past_runners(rest, i);
    if j < rest.len() {
        assert(all[j + 1] == rest[j]);
    }
    if w == "command"@ || w == "sudo"@ || w == "env"@ {
        assert(!assigns(w)) by {
            reveal_strlit("command");
            reveal_strlit("sudo");
            reveal_strlit("env");
        }
    }
}

} // verus!
