//! Shell command safety classification.
//!
//! Commands that invoke `git` or destroy data are denied, plain read-only
//! commands are allowed, and everything else is put before a human. Paths of
//! executables are `/`-separated.

use vstd::prelude::*;
use vstd::slice::slice_subrange;
use vstd::string::*;

use crate::text;
use crate::text::{
    chars_of, has_char, has_text, lowered, same, starts, text_of, trimmed,
};

verus! {

/// How far the harm of a command can reach.
#[derive(Debug, Clone, Copy, PartialEq, Eq, Structural)]
pub enum BlastRadius {
    Unknown,
    Workspace,
    Repository,
    Network,
    System,
}

#[derive(Debug, Clone, Copy, PartialEq, Eq, Structural)]
pub enum SafetyDisposition {
    Allow,
    NeedsHuman,
    Deny,
}

/// What was decided on a command, by which rule and why.
#[derive(Debug, PartialEq, Eq)]
pub struct SafetyDecision {
    pub disposition: SafetyDisposition,
    pub rule: String,
    pub reason: String,
    pub blast_radius: BlastRadius,
}

/// What a [`SafetyDecision`] says.
#[verifier::ext_equal]
pub struct DecisionModel {
    pub disposition: SafetyDisposition,
    pub rule: Seq<char>,
    pub reason: Seq<char>,
    pub blast_radius: BlastRadius,
}

impl View for SafetyDecision {
    type V = DecisionModel;

    open spec fn view(&self) -> DecisionModel {
        DecisionModel {
            disposition: self.disposition,
            rule: self.rule@,
            reason: self.reason@,
            blast_radius: self.blast_radius,
        }
    }
}

impl Clone for SafetyDecision {
    fn clone(&self) -> (r: Self)
        ensures
            r == *self,
    {
        SafetyDecision {
            disposition: self.disposition,
            rule: self.rule.clone(),
            reason: self.reason.clone(),
            blast_radius: self.blast_radius,
        }
    }
}

pub open spec fn denial(rule: Seq<char>, reason: Seq<char>, blast_radius: BlastRadius) -> DecisionModel {
    DecisionModel { disposition: SafetyDisposition::Deny, rule, reason, blast_radius }
}

pub open spec fn question(rule: Seq<char>, reason: Seq<char>, blast_radius: BlastRadius) -> DecisionModel {
    DecisionModel { disposition: SafetyDisposition::NeedsHuman, rule, reason, blast_radius }
}

pub open spec fn permission(
    rule: Seq<char>,
    reason: Seq<char>,
    blast_radius: BlastRadius,
) -> DecisionModel {
    DecisionModel { disposition: SafetyDisposition::Allow, rule, reason, blast_radius }
}

impl SafetyDecision {
    pub fn deny(rule: &str, reason: &str, blast_radius: BlastRadius) -> (r: Self)
        ensures
            r@ == denial(rule@, reason@, blast_radius),
    {
        SafetyDecision {
            disposition: SafetyDisposition::Deny,
            rule: rule.to_owned(),
            reason: reason.to_owned(),
            blast_radius,
        }
    }

    pub fn needs_human(rule: &str, reason: &str, blast_radius: BlastRadius) -> (r: Self)
        ensures
            r@ == question(rule@, reason@, blast_radius),
    {
        SafetyDecision {
            disposition: SafetyDisposition::NeedsHuman,
            rule: rule.to_owned(),
            reason: reason.to_owned(),
            blast_radius,
        }
    }

    pub fn allow(rule: &str, reason: &str, blast_radius: BlastRadius) -> (r: Self)
        ensures
            r@ == permission(rule@, reason@, blast_radius),
    {
        SafetyDecision {
            disposition: SafetyDisposition::Allow,
            rule: rule.to_owned(),
            reason: reason.to_owned(),
            blast_radius,
        }
    }

    pub fn is_allow(&self) -> (r: bool)
        ensures
            r == (self@.disposition is Allow),
    {
        self.disposition == SafetyDisposition::Allow
    }
}

/// What the classifier makes of a shell command: a decision, or a `libra`
/// command that the VCS classifier has to judge. `nested` tells whether a
/// shell interpreter runs it.
#[derive(Debug, PartialEq, Eq)]
pub enum ShellVerdict {
    Decided(SafetyDecision),
    Libra { subcommand: String, args: Vec<String>, nested: bool },
}

/// What a [`ShellVerdict`] says.
pub enum VerdictModel {
    Decided(DecisionModel),
    Libra { subcommand: Seq<char>, args: Seq<Seq<char>>, nested: bool },
}

impl View for ShellVerdict {
    type V = VerdictModel;

    open spec fn view(&self) -> VerdictModel {
        match self {
            ShellVerdict::Decided(d) => VerdictModel::Decided(d@),
            ShellVerdict::Libra { subcommand, args, nested } => VerdictModel::Libra {
                subcommand: subcommand@,
                args: text::texts(args@),
                nested: *nested,
            },
        }
    }
}

//// Words

/// The words into which the shell splits `s`; `None` where a quotation or an
/// escape is left open.
pub uninterp spec fn shell_words(s: Seq<char>) -> Option<Seq<Seq<char>>>;

pub open spec fn word_texts(o: Option<Vec<String>>) -> Option<Seq<Seq<char>>> {
    match o {
        Some(v) => Some(text::texts(v@)),
        None => None,
    }
}

/// `shlex::split`: the words that [`shell_words`] names. Words are made of
/// characters of the command, and between two of them stands at least one
/// that belongs to neither, so the words and the gaps between them are no
/// longer than the command. How quotes and escapes are read is not stated.
#[verifier::external_body]
fn split_words(s: &str) -> (r: Option<Vec<String>>)
    ensures
        word_texts(r) == shell_words(s@),
        r matches Some(v) ==> forall|i: int|
            0 <= i < v@.len() ==> (#[trigger] v@[i])@.len() + v@.len() <= s@.len() + 1,
{
    shlex::split(s)
}

/// Whether a word assigns a variable.
pub open spec fn is_assignment(w: Seq<char>) -> bool {
    w.contains('=') && !(w.len() > 0 && w[0] == '-')
}

/// The last part of a path that names something; `None` where there is none
/// or it leads upwards.
pub open spec fn file_name(path: Seq<char>) -> Option<Seq<char>> {
    last_name(text::split_on(path, '/'))
}

pub open spec fn last_name(parts: Seq<Seq<char>>) -> Option<Seq<char>>
    decreases parts.len(),
{
    if parts.len() == 0 {
        None
    } else if parts.last().len() == 0 || parts.last() == "."@ {
        last_name(parts.drop_last())
    } else if parts.last() == ".."@ {
        None
    } else {
        Some(parts.last())
    }
}

/// `s` without the copies of `.exe` at its end.
pub open spec fn trim_exe(s: Seq<char>) -> Seq<char>
    decreases s.len(),
{
    if s.len() >= 4 && s.skip(s.len() - 4) == ".exe"@ {
        trim_exe(s.take(s.len() - 4))
    } else {
        s
    }
}

/// The name of the program that a command word runs, in small letters.
pub open spec fn executable(w: Seq<char>) -> Option<Seq<char>> {
    match file_name(w) {
        Some(n) => Some(text::ascii_lower(trim_exe(n))),
        None => None,
    }
}

fn executable_name(command: &str) -> (r: Option<String>)
    ensures
        text::opt_text(r) == executable(command@),
{
    let cs = chars_of(command);
    let parts = text::cut_all(cs.as_slice(), '/');
    let ghost m = text::char_views(parts@);
    let mut n = parts.len();
    assert(m.take(n as int) =~= m);
    while n > 0
        invariant
            n <= parts.len(),
            m == text::char_views(parts@),
            m == text::split_on(command@, '/'),
            last_name(m.take(n as int)) == file_name(command@),
        decreases n,
    {
        assert(m.take(n as int).drop_last() =~= m.take(n - 1));
        let part = parts[n - 1].as_slice();
        assert(m.take(n as int).last() == part@);
        let t = text_of(part);
        if part.len() == 0 || same(t.as_str(), ".") {
            n -= 1;
        } else if same(t.as_str(), "..") {
            return None;
        } else {
            let mut k = part.len();
            assert(part@.take(k as int) =~= part@);
            proof {
                reveal_strlit(".exe");
            }
            while k >= 4 && part[k - 4] == '.' && part[k - 3] == 'e' && part[k - 2] == 'x'
                && part[k - 1] == 'e'
                invariant
                    k <= part.len(),
                    trim_exe(part@.take(k as int)) == trim_exe(part@),
                    ".exe"@.len() == 4 && ".exe"@[0] == '.' && ".exe"@[1] == 'e' && ".exe"@[2]
                        == 'x' && ".exe"@[3] == 'e',
                decreases k,
            {
                let ghost cur = part@.take(k as int);
                assert(cur.skip(k - 4) =~= ".exe"@);
                assert(cur.take(k - 4) =~= part@.take(k - 4));
                k -= 4;
            }
            let ghost cur = part@.take(k as int);
            assert(trim_exe(cur) == cur) by {
                if k >= 4 && cur.skip(k - 4) == ".exe"@ {
                    assert(cur.skip(k - 4)[0] == part@[k - 4]);
                    assert(cur.skip(k - 4)[1] == part@[k - 3]);
                    assert(cur.skip(k - 4)[2] == part@[k - 2]);
                    assert(cur.skip(k - 4)[3] == part@[k - 1]);
                }
            }
            let stem = slice_subrange(part, 0, k);
            assert(stem@ =~= cur);
            return Some(text_of(lowered(stem).as_slice()));
        }
    }
    None
}

fn assigns(w: &str) -> (r: bool)
    ensures
        r == is_assignment(w@),
{
    let cs = chars_of(w);
    has_char(cs.as_slice(), '=') && !(cs.len() > 0 && cs[0] == '-')
}

/// How many of `words` from `i` on assign variables.
pub open spec fn past_assignments(words: Seq<Seq<char>>, i: int) -> int
    decreases words.len() - i,
{
    if 0 <= i < words.len() && is_assignment(words[i]) {
        past_assignments(words, i + 1)
    } else {
        i
    }
}

/// Where the program stands in `words` from `i` on: behind any number of
/// `command`, `sudo` and `env`, each with the assignments that follow it.
pub open spec fn past_runners(words: Seq<Seq<char>>, i: int) -> int
    decreases words.len() - i,
    via past_runners_decreases
{
    if 0 <= i < words.len() && (words[i] == "command"@ || words[i] == "sudo"@ || words[i]
        == "env"@) {
        past_runners(words, past_assignments(words, i + 1))
    } else {
        i
    }
}

#[via_fn]
proof fn past_runners_decreases(words: Seq<Seq<char>>, i: int) {
    if 0 <= i < words.len() {
        lemma_past_assignments(words, i + 1);
    }
}

pub proof fn lemma_past_assignments(words: Seq<Seq<char>>, i: int)
    requires
        0 <= i <= words.len(),
    ensures
        i <= past_assignments(words, i) <= words.len(),
    decreases words.len() - i,
{
    if i < words.len() && is_assignment(words[i]) {
        lemma_past_assignments(words, i + 1);
    }
}

/// Whether a command without operators runs `git`.
pub open spec fn segment_invokes_git(words: Seq<Seq<char>>) -> bool {
    let i = past_runners(words, past_assignments(words, 0));
    i < words.len() && executable(words[i]) == Some("git"@)
}

pub open spec fn is_operator(w: Seq<char>) -> bool {
    w == "&&"@ || w == "||"@ || w == ";"@ || w == "|"@
}

/// Whether any of the commands that operators separate runs `git`: of those
/// that start at `start`, looking on from `i`.
pub open spec fn words_invoke_git(words: Seq<Seq<char>>, start: int, i: int) -> bool
    decreases words.len() - i,
{
    if i < 0 || i >= words.len() {
        segment_invokes_git(words.subrange(start, words.len() as int))
    } else if is_operator(words[i]) {
        segment_invokes_git(words.subrange(start, i)) || words_invoke_git(words, i + 1, i + 1)
    } else {
        words_invoke_git(words, start, i + 1)
    }
}

/// Whether a shell command runs `git`.
pub open spec fn invokes_git(command: Seq<char>) -> bool {
    match shell_words(command) {
        Some(words) => words_invoke_git(words, 0, 0),
        None => false,
    }
}

fn skip_assignments(words: &[String], from: usize) -> (r: usize)
    requires
        from <= words@.len(),
    ensures
        r == past_assignments(text::texts(words@), from as int),
        from <= r <= words@.len(),
{
    let ghost m = text::texts(words@);
    let mut i = from;
    while i < words.len() && assigns(words[i].as_str())
        invariant
            from <= i <= words@.len(),
            m == text::texts(words@),
            past_assignments(m, i as int) == past_assignments(m, from as int),
        decreases words@.len() - i,
    {
        i += 1;
    }
    i
}

fn shell_segment_invokes_git(segment: &[String]) -> (r: bool)
    ensures
        r == segment_invokes_git(text::texts(segment@)),
{
    let ghost m = text::texts(segment@);
    let mut i = skip_assignments(segment, 0);
    while i < segment.len() && (same(segment[i].as_str(), "command") || same(
        segment[i].as_str(),
        "sudo",
    ) || same(segment[i].as_str(), "env"))
        invariant
            i <= segment@.len(),
            m == text::texts(segment@),
            past_runners(m, i as int) == past_runners(m, past_assignments(m, 0)),
        decreases segment@.len() - i,
    {
        i = skip_assignments(segment, i + 1);
    }
    if i < segment.len() {
        match executable_name(segment[i].as_str()) {
            Some(name) => same(name.as_str(), "git"),
            None => false,
        }
    } else {
        false
    }
}

fn operator(w: &str) -> (r: bool)
    ensures
        r == is_operator(w@),
{
    same(w, "&&") || same(w, "||") || same(w, ";") || same(w, "|")
}

/// Whether any of the commands that operators separate runs `git`.
pub fn shell_words_invoke_git(words: &[String]) -> (r: bool)
    ensures
        r == words_invoke_git(text::texts(words@), 0, 0),
{
    let ghost m = text::texts(words@);
    let mut start: usize = 0;
    let mut i: usize = 0;
    while i < words.len()
        invariant
            start <= i <= words@.len(),
            m == text::texts(words@),
            words_invoke_git(m, start as int, i as int) == words_invoke_git(m, 0, 0),
        decreases words@.len() - i,
    {
        if operator(words[i].as_str()) {
            let segment = slice_subrange(words, start, i);
            assert(text::texts(segment@) =~= m.subrange(start as int, i as int));
            if shell_segment_invokes_git(segment) {
                return true;
            }
            start = i + 1;
        }
        i += 1;
    }
    let segment = slice_subrange(words, start, words.len());
    assert(text::texts(segment@) =~= m.subrange(start as int, m.len() as int));
    shell_segment_invokes_git(segment)
}

/// Returns true when a shell command appears to invoke Git as a version-control
/// executable. This is deliberately conservative: Libra-managed agents must use
/// Libra VCS tools instead of shelling out to `git`.
pub fn command_invokes_git_version_control(command: &str) -> (r: bool)
    ensures
        r == invokes_git(command@),
{
    match split_words(command) {
        Some(words) => shell_words_invoke_git(words.as_slice()),
        None => false,
    }
}

//// Kinds of words

/// A condition on one argument of a command.
#[derive(Debug, Clone, Copy, PartialEq, Eq, Structural)]
pub enum ArgTest {
    /// Makes `rg` run something or unpack files.
    RgActive,
    /// Makes `find` run, delete or write something.
    FindActive,
    /// Makes `rm` go into directories.
    Recursive,
    /// Makes `rm` ask nothing.
    Force,
    /// Names the root or a device.
    RootOrDevice,
    /// Makes `chmod` and `chown` go into directories.
    DashR,
    /// Opens a file to all.
    Mode777,
    /// Makes `dd` write to a device.
    DeviceOutput,
}

/// Whether `arg` is a group of short flags that holds `c`.
pub open spec fn flag_group_has(arg: Seq<char>, c: char) -> bool {
    arg.len() > 0 && arg[0] == '-' && !"--"@.is_prefix_of(arg) && arg.drop_first().contains(c)
}

pub open spec fn arg_passes(arg: Seq<char>, t: ArgTest) -> bool {
    match t {
        ArgTest::RgActive => arg == "--pre"@ || arg == "--hostname-bin"@ || arg == "--search-zip"@
            || arg == "-z"@ || "--pre="@.is_prefix_of(arg) || "--hostname-bin="@.is_prefix_of(arg),
        ArgTest::FindActive => arg == "-exec"@ || arg == "-execdir"@ || arg == "-ok"@ || arg
            == "-okdir"@ || arg == "-delete"@ || arg == "-fls"@ || arg == "-fprint"@ || arg
            == "-fprint0"@ || arg == "-fprintf"@,
        ArgTest::Recursive => arg == "-r"@ || arg == "-R"@ || arg == "--recursive"@
            || flag_group_has(arg, 'r'),
        ArgTest::Force => arg == "-f"@ || arg == "--force"@ || flag_group_has(arg, 'f'),
        ArgTest::RootOrDevice => arg == "/"@ || "/dev/"@.is_prefix_of(arg),
        ArgTest::DashR => "-R"@.is_prefix_of(arg),
        ArgTest::Mode777 => arg == "777"@,
        ArgTest::DeviceOutput => "of=/dev/"@.is_prefix_of(arg),
    }
}

/// Whether any argument passes the test.
pub open spec fn any_passes(args: Seq<Seq<char>>, t: ArgTest) -> bool {
    exists|i: int| 0 <= i < args.len() && arg_passes(#[trigger] args[i], t)
}

fn short_flag_group_contains(arg: &[char], target: char) -> (r: bool)
    ensures
        r == flag_group_has(arg@, target),
{
    if arg.len() > 0 && arg[0] == '-' && !starts(arg, "--") {
        let tail = slice_subrange(arg, 1, arg.len());
        assert(tail@ =~= arg@.drop_first());
        has_char(tail, target)
    } else {
        false
    }
}

fn passes(arg: &str, t: ArgTest) -> (r: bool)
    ensures
        r == arg_passes(arg@, t),
{
    let held = chars_of(arg);
    let cs = held.as_slice();
    match t {
        ArgTest::RgActive => same(arg, "--pre") || same(arg, "--hostname-bin") || same(
            arg,
            "--search-zip",
        ) || same(arg, "-z") || starts(cs, "--pre=") || starts(cs, "--hostname-bin="),
        ArgTest::FindActive => same(arg, "-exec") || same(arg, "-execdir") || same(arg, "-ok")
            || same(arg, "-okdir") || same(arg, "-delete") || same(arg, "-fls") || same(
            arg,
            "-fprint",
        ) || same(arg, "-fprint0") || same(arg, "-fprintf"),
        ArgTest::Recursive => same(arg, "-r") || same(arg, "-R") || same(arg, "--recursive")
            || short_flag_group_contains(cs, 'r'),
        ArgTest::Force => same(arg, "-f") || same(arg, "--force") || short_flag_group_contains(
            cs,
            'f',
        ),
        ArgTest::RootOrDevice => same(arg, "/") || starts(cs, "/dev/"),
        ArgTest::DashR => starts(cs, "-R"),
        ArgTest::Mode777 => same(arg, "777"),
        ArgTest::DeviceOutput => starts(cs, "of=/dev/"),
    }
}

fn any_arg(args: &[String], t: ArgTest) -> (r: bool)
    ensures
        r == any_passes(text::texts(args@), t),
{
    let ghost m = text::texts(args@);
    let mut i: usize = 0;
    while i < args.len()
        invariant
            i <= args.len(),
            m == text::texts(args@),
            forall|j: int| 0 <= j < i ==> !arg_passes(#[trigger] m[j], t),
        decreases args.len() - i,
    {
        assert(m[i as int] == args@[i as int]@);
        if passes(args[i].as_str(), t) {
            return true;
        }
        i += 1;
    }
    false
}

/// Whether `s` is a number as `sed` addresses a line.
pub open spec fn is_number(s: Seq<char>) -> bool {
    s.len() > 0 && text::all_digits(s, 10)
}

/// Whether a `sed` script prints one line or one range of lines.
pub open spec fn prints_lines(arg: Seq<char>) -> bool {
    &&& arg.len() > 0
    &&& arg.last() == 'p'
    &&& ({
        let parts = text::split_on(arg.drop_last(), ',');
        ||| parts.len() == 1 && is_number(parts[0])
        ||| parts.len() == 2 && is_number(parts[0]) && is_number(parts[1])
    })
}

fn number(s: &[char]) -> (r: bool)
    ensures
        r == is_number(s@),
{
    if s.len() == 0 {
        return false;
    }
    let mut i: usize = 0;
    while i < s.len()
        invariant
            i <= s.len(),
            forall|j: int| 0 <= j < i ==> 0 <= text::digit_value(#[trigger] s@[j]) < 10,
        decreases s.len() - i,
    {
        if s[i] < '0' || s[i] > '9' {
            assert(!(0 <= text::digit_value(s@[i as int]) < 10));
            return false;
        }
        i += 1;
    }
    true
}

fn sed_print_arg(arg: &str) -> (r: bool)
    ensures
        r == prints_lines(arg@),
{
    let cs = chars_of(arg);
    let n = cs.len();
    if n == 0 || cs[n - 1] != 'p' {
        return false;
    }
    let core = slice_subrange(cs.as_slice(), 0, n - 1);
    assert(core@ =~= arg@.drop_last());
    let parts = text::cut_all(core, ',');
    let ghost m = text::char_views(parts@);
    assert(m.len() == parts@.len());
    if parts.len() == 1 {
        assert(m[0] == parts@[0]@);
        number(parts[0].as_slice())
    } else if parts.len() == 2 {
        assert(m[0] == parts@[0]@);
        assert(m[1] == parts@[1]@);
        number(parts[0].as_slice()) && number(parts[1].as_slice())
    } else {
        false
    }
}

/// Programs that only read, whatever they are given.
pub open spec fn always_reads(cmd: Seq<char>) -> bool {
    cmd == "cat"@ || cmd == "cut"@ || cmd == "echo"@ || cmd == "false"@ || cmd == "grep"@ || cmd
        == "head"@ || cmd == "id"@ || cmd == "ls"@ || cmd == "nl"@ || cmd == "paste"@ || cmd
        == "pwd"@ || cmd == "rev"@ || cmd == "seq"@ || cmd == "stat"@ || cmd == "tail"@ || cmd
        == "tr"@ || cmd == "true"@ || cmd == "uname"@ || cmd == "uniq"@ || cmd == "wc"@ || cmd
        == "which"@ || cmd == "whoami"@
}

/// Whether a command only reads.
pub open spec fn only_reads(cmd: Seq<char>, args: Seq<Seq<char>>) -> bool {
    if always_reads(cmd) {
        true
    } else if cmd == "rg"@ {
        !any_passes(args, ArgTest::RgActive)
    } else if cmd == "find"@ {
        !any_passes(args, ArgTest::FindActive)
    } else if cmd == "sed"@ {
        args.len() >= 2 && args[0] == "-n"@ && prints_lines(args[1])
    } else {
        false
    }
}

fn always_read_only(cmd: &str) -> (r: bool)
    ensures
        r == always_reads(cmd@),
{
    same(cmd, "cat") || same(cmd, "cut") || same(cmd, "echo") || same(cmd, "false") || same(
        cmd,
        "grep",
    ) || same(cmd, "head") || same(cmd, "id") || same(cmd, "ls") || same(cmd, "nl") || same(
        cmd,
        "paste",
    ) || same(cmd, "pwd") || same(cmd, "rev") || same(cmd, "seq") || same(cmd, "stat") || same(
        cmd,
        "tail",
    ) || same(cmd, "tr") || same(cmd, "true") || same(cmd, "uname") || same(cmd, "uniq") || same(
        cmd,
        "wc",
    ) || same(cmd, "which") || same(cmd, "whoami")
}

fn shell_words_are_read_only(cmd: &str, args: &[String]) -> (r: bool)
    ensures
        r == only_reads(cmd@, text::texts(args@)),
{
    if always_read_only(cmd) {
        true
    } else if same(cmd, "rg") {
        !any_arg(args, ArgTest::RgActive)
    } else if same(cmd, "find") {
        !any_arg(args, ArgTest::FindActive)
    } else if same(cmd, "sed") {
        args.len() >= 2 && same(args[0].as_str(), "-n") && sed_print_arg(args[1].as_str())
    } else {
        false
    }
}

pub open spec fn uses_network(cmd: Seq<char>) -> bool {
    cmd == "curl"@ || cmd == "wget"@ || cmd == "ssh"@ || cmd == "scp"@ || cmd == "sftp"@ || cmd
        == "nc"@ || cmd == "netcat"@ || cmd == "gh"@
}

fn is_network_executable(cmd: &str) -> (r: bool)
    ensures
        r == uses_network(cmd@),
{
    same(cmd, "curl") || same(cmd, "wget") || same(cmd, "ssh") || same(cmd, "scp") || same(
        cmd,
        "sftp",
    ) || same(cmd, "nc") || same(cmd, "netcat") || same(cmd, "gh")
}

pub open spec fn is_interpreter(cmd: Seq<char>) -> bool {
    cmd == "bash"@ || cmd == "dash"@ || cmd == "sh"@ || cmd == "zsh"@
}

fn is_shell_interpreter(cmd: &str) -> (r: bool)
    ensures
        r == is_interpreter(cmd@),
{
    same(cmd, "bash") || same(cmd, "dash") || same(cmd, "sh") || same(cmd, "zsh")
}

/// What a command destroys; `None` where it destroys nothing.
pub open spec fn destruction(parts: Seq<Seq<char>>) -> Option<BlastRadius> {
    if parts.len() == 0 {
        None
    } else {
        let args = parts.drop_first();
        match executable(parts[0]) {
            None => None,
            Some(cmd) => if cmd == "rm"@ && any_passes(args, ArgTest::Recursive) && any_passes(
                args,
                ArgTest::Force,
            ) {
                if any_passes(args, ArgTest::RootOrDevice) {
                    Some(BlastRadius::System)
                } else {
                    Some(BlastRadius::Workspace)
                }
            } else if cmd == "chmod"@ && any_passes(args, ArgTest::DashR) && any_passes(
                args,
                ArgTest::Mode777,
            ) {
                Some(BlastRadius::Workspace)
            } else if cmd == "chown"@ && any_passes(args, ArgTest::DashR) {
                Some(BlastRadius::Workspace)
            } else if cmd == "dd"@ && any_passes(args, ArgTest::DeviceOutput) {
                Some(BlastRadius::System)
            } else if cmd == "mkfs"@ || cmd == "mkfs.ext4"@ || cmd == "shutdown"@ || cmd
                == "reboot"@ || cmd == "poweroff"@ {
                Some(BlastRadius::System)
            } else {
                None
            },
        }
    }
}

fn destructive_shell_blast_radius(parts: &[String]) -> (r: Option<BlastRadius>)
    ensures
        r == destruction(text::texts(parts@)),
{
    if parts.len() == 0 {
        return None;
    }
    let ghost m = text::texts(parts@);
    let args = slice_subrange(parts, 1, parts.len());
    assert(text::texts(args@) =~= m.drop_first());
    let held = match executable_name(parts[0].as_str()) {
        Some(cmd) => cmd,
        None => {
            return None;
        },
    };
    let cmd = held.as_str();
    if same(cmd, "rm") && any_arg(args, ArgTest::Recursive) && any_arg(args, ArgTest::Force) {
        if any_arg(args, ArgTest::RootOrDevice) {
            Some(BlastRadius::System)
        } else {
            Some(BlastRadius::Workspace)
        }
    } else if same(cmd, "chmod") && any_arg(args, ArgTest::DashR) && any_arg(
        args,
        ArgTest::Mode777,
    ) {
        Some(BlastRadius::Workspace)
    } else if same(cmd, "chown") && any_arg(args, ArgTest::DashR) {
        Some(BlastRadius::Workspace)
    } else if same(cmd, "dd") && any_arg(args, ArgTest::DeviceOutput) {
        Some(BlastRadius::System)
    } else if same(cmd, "mkfs") || same(cmd, "mkfs.ext4") || same(cmd, "shutdown") || same(
        cmd,
        "reboot",
    ) || same(cmd, "poweroff") {
        Some(BlastRadius::System)
    } else {
        None
    }
}

/// Where the program stands behind `env`: past its options and assignments.
pub open spec fn past_env_options(args: Seq<Seq<char>>, i: int) -> int
    decreases args.len() - i,
{
    if i < 0 || i >= args.len() {
        i
    } else if is_assignment(args[i]) || "--unset="@.is_prefix_of(args[i])
        || "--chdir="@.is_prefix_of(args[i]) || args[i] == "-i"@ || args[i]
        == "--ignore-environment"@ || args[i] == "-0"@ || args[i] == "--null"@ {
        past_env_options(args, i + 1)
    } else if args[i] == "-u"@ || args[i] == "--unset"@ || args[i] == "-C"@ || args[i]
        == "--chdir"@ {
        if i + 1 < args.len() {
            past_env_options(args, i + 2)
        } else {
            i + 1
        }
    } else {
        i
    }
}

pub proof fn lemma_past_env_options(args: Seq<Seq<char>>, i: int)
    requires
        0 <= i <= args.len(),
    ensures
        i <= past_env_options(args, i) <= args.len(),
    decreases args.len() - i,
{
    if i < args.len() {
        lemma_past_env_options(args, i + 1);
        if i + 1 < args.len() {
            lemma_past_env_options(args, i + 2);
        }
    }
}

fn skip_env_prefix(args: &[String]) -> (r: usize)
    ensures
        r == past_env_options(text::texts(args@), 0),
        r <= args@.len(),
{
    let ghost m = text::texts(args@);
    let mut i: usize = 0;
    while i < args.len()
        invariant
            i <= args@.len(),
            m == text::texts(args@),
            past_env_options(m, i as int) == past_env_options(m, 0),
        decreases args@.len() - i,
    {
        let arg = args[i].as_str();
        assert(m[i as int] == arg@);
        let cs = chars_of(arg);
        if assigns(arg) || starts(cs.as_slice(), "--unset=") || starts(cs.as_slice(), "--chdir=")
            || same(arg, "-i") || same(arg, "--ignore-environment") || same(arg, "-0") || same(
            arg,
            "--null",
        ) {
            i += 1;
        } else if same(arg, "-u") || same(arg, "--unset") || same(arg, "-C") || same(
            arg,
            "--chdir",
        ) {
            i += 1;
            if i < args.len() {
                i += 1;
            } else {
                return i;
            }
        } else {
            return i;
        }
    }
    i
}

/// The script that an interpreter is given: what follows the first `-c` from
/// `i` on.
pub open spec fn script_of(args: Seq<Seq<char>>, i: int) -> Option<Seq<char>>
    decreases args.len() - i,
{
    if i < 0 || i + 1 >= args.len() {
        None
    } else if args[i] == "-c"@ {
        Some(args[i + 1])
    } else {
        script_of(args, i + 1)
    }
}

fn shell_c_script(args: &[String]) -> (r: Option<&String>)
    ensures
        (match r {
            Some(s) => script_of(text::texts(args@), 0) == Some(s@) && exists|i: int|
                1 <= i < args@.len() && #[trigger] args@[i] == *s,
            None => script_of(text::texts(args@), 0) is None,
        }),
{
    let ghost m = text::texts(args@);
    let n = args.len();
    let mut i: usize = 0;
    while i < n && n - i > 1
        invariant
            i <= n == args@.len(),
            m == text::texts(args@),
            script_of(m, i as int) == script_of(m, 0),
        decreases n - i,
    {
        assert(m[i as int] == args@[i as int]@);
        if same(args[i].as_str(), "-c") {
            assert(m[i + 1] == args@[i + 1]@);
            return Some(&args[i + 1]);
        }
        i += 1;
    }
    None
}

//// Classification

/// Whether every character is an ASCII one.
pub open spec fn is_ascii_text(s: Seq<char>) -> bool {
    forall|i: int| 0 <= i < s.len() ==> #[trigger] s[i] <= '\u{7f}'
}

fn ascii_only(s: &[char]) -> (r: bool)
    ensures
        r == is_ascii_text(s@),
{
    let mut i: usize = 0;
    while i < s.len()
        invariant
            i <= s.len(),
            forall|j: int| 0 <= j < i ==> #[trigger] s@[j] <= '\u{7f}',
        decreases s.len() - i,
    {
        if s[i] > '\u{7f}' {
            return false;
        }
        i += 1;
    }
    true
}

/// Whether a command feeds a download to a shell.
pub open spec fn pipes_network_to_shell(c: Seq<char>) -> bool {
    &&& "curl "@.is_prefix_of(c) || "wget "@.is_prefix_of(c) || text::occurs_in(c, " curl "@)
        || text::occurs_in(c, " wget "@)
    &&& c.contains('|')
    &&& text::occurs_in(c, " sh"@) || text::occurs_in(c, " bash"@)
}

fn network_command_piped_to_shell(c: &[char]) -> (r: bool)
    ensures
        r == pipes_network_to_shell(c@),
{
    (starts(c, "curl ") || starts(c, "wget ") || has_text(c, " curl ") || has_text(c, " wget "))
        && has_char(c, '|') && (has_text(c, " sh") || has_text(c, " bash"))
}

/// Whether a command substitutes the output of another.
pub open spec fn substitutes(c: Seq<char>) -> bool {
    text::occurs_in(c, "$("@) || c.contains('`')
}

/// Whether a command combines commands or redirects data.
pub open spec fn combines(c: Seq<char>) -> bool {
    c.contains('>') || c.contains('<') || c.contains('|') || c.contains(';') || text::occurs_in(
        c,
        "&&"@,
    )
}

fn contains_redirection_or_pipeline(c: &[char]) -> (r: bool)
    ensures
        r == combines(c@),
{
    has_char(c, '>') || has_char(c, '<') || has_char(c, '|') || has_char(c, ';') || has_text(
        c,
        "&&",
    )
}

pub open spec fn git_denied() -> VerdictModel {
    VerdictModel::Decided(
        denial(
            "shell.direct_git_forbidden"@,
            "AI shell tools must use Libra VCS tools instead of invoking git directly"@,
            BlastRadius::Repository,
        ),
    )
}

pub open spec fn interpreter_question() -> DecisionModel {
    question(
        "shell.dynamic_evaluation"@,
        "shell interpreter command uses -c and needs review"@,
        BlastRadius::System,
    )
}

/// A script that an interpreter runs is denied where the script is denied, and
/// is asked about otherwise.
pub open spec fn through_interpreter(v: VerdictModel) -> VerdictModel {
    match v {
        VerdictModel::Decided(d) => if d.disposition is Deny {
            v
        } else {
            VerdictModel::Decided(interpreter_question())
        },
        VerdictModel::Libra { subcommand, args, .. } => {
            VerdictModel::Libra { subcommand, args, nested: true }
        },
    }
}

/// The verdict on a program that is neither a wrapper nor an interpreter with
/// a script.
pub open spec fn judge_program(cmd: Seq<char>, parts: Seq<Seq<char>>) -> VerdictModel {
    let args = parts.drop_first();
    if cmd == "git"@ {
        git_denied()
    } else if cmd == "sudo"@ {
        VerdictModel::Decided(
            match destruction(args) {
                Some(radius) => denial(
                    "shell.destructive_command"@,
                    "privileged destructive shell command is not allowed"@,
                    if radius is Workspace {
                        BlastRadius::System
                    } else {
                        radius
                    },
                ),
                None => question(
                    "shell.privileged_execution"@,
                    "privileged shell command needs human approval"@,
                    BlastRadius::System,
                ),
            },
        )
    } else if destruction(parts) is Some {
        VerdictModel::Decided(
            denial(
                "shell.destructive_command"@,
                "destructive shell command is not allowed"@,
                destruction(parts)->0,
            ),
        )
    } else if cmd == "libra"@ {
        if args.len() == 0 {
            VerdictModel::Decided(
                question(
                    "shell.workspace_mutation_or_execution"@,
                    "libra command without a subcommand needs review"@,
                    BlastRadius::Repository,
                ),
            )
        } else {
            VerdictModel::Libra { subcommand: args[0], args: args.drop_first(), nested: false }
        }
    } else if uses_network(cmd) {
        VerdictModel::Decided(
            question(
                "shell.network_access"@,
                "shell command requires network access"@,
                BlastRadius::Network,
            ),
        )
    } else if only_reads(cmd, args) {
        VerdictModel::Decided(
            permission(
                "shell.read_only_allowlist"@,
                "read-only shell command is allowlisted"@,
                BlastRadius::Workspace,
            ),
        )
    } else {
        VerdictModel::Decided(
            question(
                "shell.workspace_mutation_or_execution"@,
                "shell command may execute code or mutate the workspace"@,
                BlastRadius::Workspace,
            ),
        )
    }
}

/// The verdict on the words of a command that is `limit` characters long. A
/// script among them is shorter than that.
pub open spec fn judge_words(parts: Seq<Seq<char>>, limit: nat) -> VerdictModel
    decreases limit, 0nat, parts.len(),
    via judge_words_decreases
{
    let name = if parts.len() > 0 {
        executable(parts[0])
    } else {
        None
    };
    match name {
        None => VerdictModel::Decided(
            question(
                "shell.unparseable"@,
                "shell command has no executable name"@,
                BlastRadius::Unknown,
            ),
        ),
        Some(cmd) => {
            let args = parts.drop_first();
            if cmd == "command"@ || cmd == "env"@ {
                let i = if cmd == "env"@ {
                    past_env_options(args, 0)
                } else {
                    0
                };
                if i >= args.len() {
                    VerdictModel::Decided(
                        question(
                            "shell.workspace_mutation_or_execution"@,
                            "shell wrapper command without an executable needs review"@,
                            BlastRadius::Workspace,
                        ),
                    )
                } else {
                    judge_words(args.skip(i), limit)
                }
            } else if is_interpreter(cmd) && script_of(args, 0) is Some {
                let script = script_of(args, 0)->0;
                if script.len() < limit {
                    through_interpreter(judge(script))
                } else {
                    VerdictModel::Decided(interpreter_question())
                }
            } else {
                judge_program(cmd, parts)
            }
        },
    }
}

/// The verdict on a shell command.
pub open spec fn judge(command: Seq<char>) -> VerdictModel
    decreases command.len(), 1nat, 0nat,
    via judge_decreases
{
    let t = text::trim(command);
    let lower = text::ascii_lower(t);
    if t.len() == 0 {
        VerdictModel::Decided(
            denial("shell.empty"@, "empty shell command"@, BlastRadius::Unknown),
        )
    } else if !is_ascii_text(t) {
        VerdictModel::Decided(
            question(
                "shell.non_ascii_command"@,
                "shell command contains non-ASCII characters and needs review"@,
                BlastRadius::Unknown,
            ),
        )
    } else if invokes_git(t) {
        git_denied()
    } else if pipes_network_to_shell(lower) {
        VerdictModel::Decided(
            denial(
                "shell.network_code_execution"@,
                "network download piped into a shell is not allowed"@,
                BlastRadius::Network,
            ),
        )
    } else if substitutes(lower) {
        VerdictModel::Decided(
            question(
                "shell.dynamic_evaluation"@,
                "shell command uses dynamic evaluation or command substitution"@,
                BlastRadius::System,
            ),
        )
    } else if combines(lower) {
        VerdictModel::Decided(
            question(
                "shell.redirection_or_pipeline"@,
                "shell command combines commands or redirects data and needs review"@,
                if lower.contains('>') || lower.contains('<') {
                    BlastRadius::Workspace
                } else {
                    BlastRadius::Unknown
                },
            ),
        )
    } else {
        match shell_words(t) {
            Some(parts) => if parts.len() == 0 {
                VerdictModel::Decided(unparseable())
            } else {
                judge_words(parts, t.len())
            },
            None => VerdictModel::Decided(unparseable()),
        }
    }
}

pub open spec fn unparseable() -> DecisionModel {
    question(
        "shell.unparseable"@,
        "shell command could not be parsed into plain words"@,
        BlastRadius::Unknown,
    )
}

#[via_fn]
proof fn judge_words_decreases(parts: Seq<Seq<char>>, limit: nat) {
    if parts.len() > 0 {
        lemma_past_env_options(parts.drop_first(), 0);
    }
}

#[via_fn]
proof fn judge_decreases(command: Seq<char>) {
    lemma_trim_shorter(command);
}

proof fn lemma_trim_shorter(s: Seq<char>)
    ensures
        text::trim(s).len() <= s.len(),
{
    lemma_trim_start_shorter(s);
    lemma_trim_end_shorter(text::trim_start(s));
}

proof fn lemma_trim_start_shorter(s: Seq<char>)
    ensures
        text::trim_start(s).len() <= s.len(),
    decreases s.len(),
{
    if s.len() > 0 && text::is_white(s[0]) {
        lemma_trim_start_shorter(s.drop_first());
    }
}

proof fn lemma_trim_end_shorter(s: Seq<char>)
    ensures
        text::trim_end(s).len() <= s.len(),
    decreases s.len(),
{
    if s.len() > 0 && text::is_white(s.last()) {
        lemma_trim_end_shorter(s.drop_last());
    }
}

fn decided(d: SafetyDecision) -> (r: ShellVerdict)
    ensures
        r@ == VerdictModel::Decided(d@),
{
    ShellVerdict::Decided(d)
}

fn deny_git() -> (r: ShellVerdict)
    ensures
        r@ == git_denied(),
{
    decided(
        SafetyDecision::deny(
            "shell.direct_git_forbidden",
            "AI shell tools must use Libra VCS tools instead of invoking git directly",
            BlastRadius::Repository,
        ),
    )
}

fn cannot_parse() -> (r: ShellVerdict)
    ensures
        r@ == VerdictModel::Decided(unparseable()),
{
    decided(
        SafetyDecision::needs_human(
            "shell.unparseable",
            "shell command could not be parsed into plain words",
            BlastRadius::Unknown,
        ),
    )
}

fn ask_interpreter() -> (r: SafetyDecision)
    ensures
        r@ == interpreter_question(),
{
    SafetyDecision::needs_human(
        "shell.dynamic_evaluation",
        "shell interpreter command uses -c and needs review",
        BlastRadius::System,
    )
}

fn run_by_interpreter(v: ShellVerdict) -> (r: ShellVerdict)
    ensures
        r@ == through_interpreter(v@),
{
    match v {
        ShellVerdict::Decided(d) => {
            if d.disposition == SafetyDisposition::Deny {
                ShellVerdict::Decided(d)
            } else {
                ShellVerdict::Decided(ask_interpreter())
            }
        },
        ShellVerdict::Libra { subcommand, args, nested: _ } => {
            ShellVerdict::Libra { subcommand, args, nested: true }
        },
    }
}

fn classify_program(cmd: &str, parts: &[String]) -> (r: ShellVerdict)
    requires
        parts@.len() > 0,
    ensures
        r@ == judge_program(cmd@, text::texts(parts@)),
{
    let ghost m = text::texts(parts@);
    let args = slice_subrange(parts, 1, parts.len());
    assert(text::texts(args@) =~= m.drop_first());
    if same(cmd, "git") {
        return deny_git();
    }
    if same(cmd, "sudo") {
        let d = match destructive_shell_blast_radius(args) {
            Some(radius) => {
                let reach = if radius == BlastRadius::Workspace {
                    BlastRadius::System
                } else {
                    radius
                };
                SafetyDecision::deny(
                    "shell.destructive_command",
                    "privileged destructive shell command is not allowed",
                    reach,
                )
            },
            None => SafetyDecision::needs_human(
                "shell.privileged_execution",
                "privileged shell command needs human approval",
                BlastRadius::System,
            ),
        };
        return decided(d);
    }
    if let Some(radius) = destructive_shell_blast_radius(parts) {
        return decided(
            SafetyDecision::deny(
                "shell.destructive_command",
                "destructive shell command is not allowed",
                radius,
            ),
        );
    }
    if same(cmd, "libra") {
        if args.len() == 0 {
            return decided(
                SafetyDecision::needs_human(
                    "shell.workspace_mutation_or_execution",
                    "libra command without a subcommand needs review",
                    BlastRadius::Repository,
                ),
            );
        }
        let rest = text::copy_strings(slice_subrange(args, 1, args.len()));
        assert(text::texts(rest@) =~= m.drop_first().drop_first());
        return ShellVerdict::Libra { subcommand: args[0].clone(), args: rest, nested: false };
    }
    if is_network_executable(cmd) {
        return decided(
            SafetyDecision::needs_human(
                "shell.network_access",
                "shell command requires network access",
                BlastRadius::Network,
            ),
        );
    }
    if shell_words_are_read_only(cmd, args) {
        return decided(
            SafetyDecision::allow(
                "shell.read_only_allowlist",
                "read-only shell command is allowlisted",
                BlastRadius::Workspace,
            ),
        );
    }
    decided(
        SafetyDecision::needs_human(
            "shell.workspace_mutation_or_execution",
            "shell command may execute code or mutate the workspace",
            BlastRadius::Workspace,
        ),
    )
}

/// Whether words can come from a command that is `limit` characters long:
/// each of several is shorter than it.
pub open spec fn words_fit(parts: Seq<String>, limit: nat) -> bool {
    parts.len() >= 2 ==> forall|i: int| 0 <= i < parts.len() ==> (#[trigger] parts[i])@.len() < limit
}

/// Classifies the words of a command that is `limit` characters long.
pub fn classify_shell_words(parts: &[String], limit: usize) -> (r: ShellVerdict)
    requires
        words_fit(parts@, limit as nat),
    ensures
        r@ == judge_words(text::texts(parts@), limit as nat),
    decreases limit, 0nat, parts@.len(),
{
    let ghost m = text::texts(parts@);
    let name = if parts.len() > 0 {
        executable_name(parts[0].as_str())
    } else {
        None
    };
    let held = match name {
        Some(cmd) => cmd,
        None => {
            return decided(
                SafetyDecision::needs_human(
                    "shell.unparseable",
                    "shell command has no executable name",
                    BlastRadius::Unknown,
                ),
            );
        },
    };
    let cmd = held.as_str();
    let args = slice_subrange(parts, 1, parts.len());
    assert(text::texts(args@) =~= m.drop_first());
    let is_env = same(cmd, "env");
    if is_env || same(cmd, "command") {
        let i = if is_env {
            skip_env_prefix(args)
        } else {
            0
        };
        if i >= args.len() {
            return decided(
                SafetyDecision::needs_human(
                    "shell.workspace_mutation_or_execution",
                    "shell wrapper command without an executable needs review",
                    BlastRadius::Workspace,
                ),
            );
        }
        let rest = slice_subrange(args, i, args.len());
        assert(text::texts(rest@) =~= m.drop_first().skip(i as int));
        assert(words_fit(rest@, limit as nat)) by {
            assert forall|j: int| 0 <= j < rest@.len() implies (#[trigger] rest@[j])@.len()
                < limit by {
                assert(rest@[j] == parts@[1 + i + j]);
            }
        }
        return classify_shell_words(rest, limit);
    }
    if is_shell_interpreter(cmd) {
        if let Some(script) = shell_c_script(args) {
            proof {
                let k = choose|k: int| 1 <= k < args@.len() && #[trigger] args@[k] == *script;
                assert(args@[k] == parts@[k + 1]);
            }
            return run_by_interpreter(classify_shell_command_safety(script.as_str()));
        }
    }
    classify_program(cmd, parts)
}

/// Classifies a shell command. A `libra` command is handed back for the VCS
/// classifier, whose answer [`settle_libra_verdict`] takes.
pub fn classify_shell_command_safety(command: &str) -> (r: ShellVerdict)
    ensures
        r@ == judge(command@),
    decreases command@.len(), 1nat, 0nat,
{
    let held = chars_of(command);
    let cut = trimmed(held.as_slice());
    proof {
        lemma_trim_shorter(command@);
    }
    if cut.len() == 0 {
        return decided(
            SafetyDecision::deny("shell.empty", "empty shell command", BlastRadius::Unknown),
        );
    }
    if !ascii_only(cut) {
        return decided(
            SafetyDecision::needs_human(
                "shell.non_ascii_command",
                "shell command contains non-ASCII characters and needs review",
                BlastRadius::Unknown,
            ),
        );
    }
    let plain = text_of(cut);
    if command_invokes_git_version_control(plain.as_str()) {
        return deny_git();
    }
    let low = lowered(cut);
    let lower = low.as_slice();
    if network_command_piped_to_shell(lower) {
        return decided(
            SafetyDecision::deny(
                "shell.network_code_execution",
                "network download piped into a shell is not allowed",
                BlastRadius::Network,
            ),
        );
    }
    if has_text(lower, "$(") || has_char(lower, '`') {
        return decided(
            SafetyDecision::needs_human(
                "shell.dynamic_evaluation",
                "shell command uses dynamic evaluation or command substitution",
                BlastRadius::System,
            ),
        );
    }
    if contains_redirection_or_pipeline(lower) {
        let reach = if has_char(lower, '>') || has_char(lower, '<') {
            BlastRadius::Workspace
        } else {
            BlastRadius::Unknown
        };
        return decided(
            SafetyDecision::needs_human(
                "shell.redirection_or_pipeline",
                "shell command combines commands or redirects data and needs review",
                reach,
            ),
        );
    }
    match split_words(plain.as_str()) {
        Some(parts) => {
            assert(text::texts(parts@).len() == parts@.len());
            if parts.len() == 0 {
                cannot_parse()
            } else {
                classify_shell_words(parts.as_slice(), cut.len())
            }
        },
        None => cannot_parse(),
    }
}

/// The decision on a verdict, given what the VCS classifier says of the
/// `libra` command in it.
pub open spec fn settled(v: VerdictModel, vcs: DecisionModel) -> DecisionModel {
    match v {
        VerdictModel::Decided(d) => d,
        VerdictModel::Libra { nested, .. } => if nested {
            if vcs.disposition is Deny {
                vcs
            } else {
                interpreter_question()
            }
        } else if vcs.disposition is Allow {
            permission(
                "shell.libra_read_only"@,
                "read-only libra command is allowlisted"@,
                BlastRadius::Repository,
            )
        } else {
            vcs
        },
    }
}

/// Turns a verdict into a decision, given what the VCS classifier says of the
/// `libra` command in it.
pub fn settle_libra_verdict(verdict: ShellVerdict, vcs: SafetyDecision) -> (r: SafetyDecision)
    ensures
        r@ == settled(verdict@, vcs@),
{
    match verdict {
        ShellVerdict::Decided(d) => d,
        ShellVerdict::Libra { subcommand: _, args: _, nested } => {
            if nested {
                if vcs.disposition == SafetyDisposition::Deny {
                    vcs
                } else {
                    ask_interpreter()
                }
            } else if vcs.is_allow() {
                SafetyDecision::allow(
                    "shell.libra_read_only",
                    "read-only libra command is allowlisted",
                    BlastRadius::Repository,
                )
            } else {
                vcs
            }
        },
    }
}

//// Laws

/// A command that runs `git` is denied.
pub proof fn law_git_is_denied(command: Seq<char>)
    requires
        is_ascii_text(text::trim(command)),
        text::trim(command).len() > 0,
        invokes_git(text::trim(command)),
    ensures
        judge(command) == git_denied(),
{
}

/// What is allowed is plain: ASCII, without substitution, redirection or
/// operators, and it does not run `git`.
pub proof fn law_allowed_is_plain(command: Seq<char>, vcs: DecisionModel)
    requires
        settled(judge(command), vcs).disposition is Allow,
    ensures
        ({
            let t = text::trim(command);
            let lower = text::ascii_lower(t);
            &&& t.len() > 0
            &&& is_ascii_text(t)
            &&& !invokes_git(t)
            &&& !substitutes(lower)
            &&& !combines(lower)
        }),
{
}

/// A wrapper changes nothing of the verdict on what it runs.
pub proof fn law_command_wrapper_is_transparent(parts: Seq<Seq<char>>, limit: nat)
    requires
        parts.len() > 0,
    ensures
        judge_words(seq!["command"@] + parts, limit) == judge_words(parts, limit),
{
    let all = seq!["command"@] + parts;
    assert(all.drop_first() =~= parts);
    assert(parts.skip(0) =~= parts);
    lemma_command_executable();
}

proof fn lemma_command_executable()
    ensures
        executable("command"@) == Some("command"@),
        "command"@ != "env"@,
{
    reveal_strlit("command");
    reveal_strlit("env");
    reveal_strlit(".");
    reveal_strlit("..");
    reveal_strlit(".exe");
    let c = "command"@;
    assert(!c.contains('/'));
    let parts = text::split_on(c, '/');
    assert(parts =~= seq![c]);
    assert(parts.last() == c);
    assert(file_name(c) == Some(c));
    assert(c.skip(3)[0] == 'm');
    assert(trim_exe(c) == c);
    assert(text::ascii_lower(c) =~= c);
}

/// What an interpreter runs from a script is never allowed without a human.
pub proof fn law_scripts_are_never_allowed(v: VerdictModel, vcs: DecisionModel)
    ensures
        !(settled(through_interpreter(v), vcs).disposition is Allow),
{
}

} // verus!
