//! Where the per-user state lives.
//!
//! 1. a non-empty `LIBRA_HOME` wins;
//! 2. otherwise, where `LIBRA_CONFIG_GLOBAL_DB` is set, the state lives next
//!    to that database, so that isolated environments stay isolated;
//! 3. otherwise `.libra` under the home directory.
//!
//! Without a home directory there is an error: the state gates the replacement
//! of binaries, and is not written where everyone can write. Paths are bytes
//! with `/` between their parts.

use vstd::prelude::*;
use vstd::slice::{slice_subrange, slice_to_vec};

verus! {

/// Environment variable overriding the Libra home directory.
pub const LIBRA_HOME_ENV: &'static str = "LIBRA_HOME";

/// Environment variable overriding the global configuration database.
pub const LIBRA_CONFIG_GLOBAL_DB_ENV: &'static str = "LIBRA_CONFIG_GLOBAL_DB";

/// Failure to determine the Libra home directory.
#[derive(Debug, PartialEq, Eq)]
pub enum LibraHomeError {
    /// No home directory is available.
    Unresolvable,
}

impl LibraHomeError {
    /// The sentence that reports the error.
    pub fn message(&self) -> (r: &'static str)
        ensures
            r@
                == "cannot determine the Libra home directory: neither the LIBRA_HOME environment variable nor a home directory is available; set LIBRA_HOME to an absolute path (the installer default is ~/.libra)"@,
    {
        "cannot determine the Libra home directory: neither the LIBRA_HOME environment variable nor a home directory is available; set LIBRA_HOME to an absolute path (the installer default is ~/.libra)"
    }
}

/// A path without separators and `.` parts at its end; the root stays.
pub open spec fn trimmed_path(p: Seq<u8>) -> Seq<u8>
    decreases p.len(),
{
    if p.len() >= 2 && (p.last() == 47 || (p.last() == 46 && p[p.len() - 2] == 47)) {
        trimmed_path(p.drop_last())
    } else {
        p
    }
}

/// Where the last part of a path starts.
pub open spec fn last_part(p: Seq<u8>) -> int
    decreases p.len(),
{
    if p.len() == 0 || p.last() == 47 {
        p.len() as int
    } else {
        last_part(p.drop_last())
    }
}

/// The directory that holds a path; the current one, where a path names none
/// or is the root.
pub open spec fn directory_of(p: Seq<u8>) -> Seq<u8> {
    let t = trimmed_path(p);
    let above = trimmed_path(t.take(last_part(t)));
    if t == seq![47u8] || above.len() == 0 {
        seq![46u8]
    } else {
        above
    }
}

fn trim_path(p: &[u8]) -> (r: &[u8])
    ensures
        r@ == trimmed_path(p@),
{
    let mut n: usize = p.len();
    assert(p@.take(n as int) =~= p@);
    while n >= 2 && (p[n - 1] == 47 || (p[n - 1] == 46 && p[n - 2] == 47))
        invariant
            n <= p@.len(),
            trimmed_path(p@.take(n as int)) == trimmed_path(p@),
        decreases n,
    {
        assert(p@.take(n as int).drop_last() =~= p@.take(n - 1));
        n -= 1;
    }
    let r = slice_subrange(p, 0, n);
    assert(r@ =~= p@.take(n as int));
    r
}

fn start_of_last_part(p: &[u8]) -> (r: usize)
    ensures
        r == last_part(p@),
        r <= p@.len(),
{
    let mut n: usize = p.len();
    assert(p@.take(n as int) =~= p@);
    while n > 0 && p[n - 1] != 47
        invariant
            n <= p@.len(),
            last_part(p@.take(n as int)) == last_part(p@),
        decreases n,
    {
        assert(p@.take(n as int).drop_last() =~= p@.take(n - 1));
        n -= 1;
    }
    n
}

fn parent_directory(p: &[u8]) -> (r: Vec<u8>)
    ensures
        r@ == directory_of(p@),
{
    let t = trim_path(p);
    let k = start_of_last_part(t);
    let head = slice_subrange(t, 0, k);
    assert(head@ =~= t@.take(k as int));
    let above = trim_path(head);
    let is_root = t.len() == 1 && t[0] == 47;
    assert(is_root == (t@ == seq![47u8])) by {
        if is_root {
            assert(t@ =~= seq![47u8]);
        }
    }
    if is_root || above.len() == 0 {
        let mut here: Vec<u8> = Vec::new();
        here.push(46);
        assert(here@ =~= seq![46u8]);
        return here;
    }
    slice_to_vec(above)
}

/// The `.libra` directory of a directory.
pub open spec fn dot_libra(dir: Seq<u8>) -> Seq<u8> {
    let name = seq![46u8, 108, 105, 98, 114, 97];
    if dir.len() > 0 && dir.last() != 47 {
        dir.push(47u8) + name
    } else {
        dir + name
    }
}

/// The value of a variable that is set and not empty.
pub open spec fn set_value(v: Option<Vec<u8>>) -> Option<Seq<u8>> {
    match v {
        Some(b) => if b@.len() > 0 {
            Some(b@)
        } else {
            None
        },
        None => None,
    }
}

/// The Libra home directory, by the variables that are set and not empty and
/// the platform's home directory.
pub open spec fn home_of(
    explicit: Option<Seq<u8>>,
    global_db: Option<Seq<u8>>,
    home: Option<Seq<u8>>,
    platform_home: Option<Seq<u8>>,
) -> Option<Seq<u8>> {
    match (explicit, global_db, home, platform_home) {
        (Some(e), _, _, _) => Some(e),
        (None, Some(db), _, _) => Some(directory_of(db)),
        (None, None, Some(h), _) => Some(dot_libra(h)),
        (None, None, None, Some(h)) => Some(dot_libra(h)),
        (None, None, None, None) => None,
    }
}

/// What a directory is, where there is one.
pub open spec fn opt_bytes(v: Option<Vec<u8>>) -> Option<Seq<u8>> {
    match v {
        Some(b) => Some(b@),
        None => None,
    }
}

fn under(dir: &[u8]) -> (r: Vec<u8>)
    ensures
        r@ == dot_libra(dir@),
{
    let mut out = slice_to_vec(dir);
    if dir.len() > 0 && dir[dir.len() - 1] != 47 {
        out.push(47);
    }
    let ghost start = out@;
    out.push(46);
    out.push(108);
    out.push(105);
    out.push(98);
    out.push(114);
    out.push(97);
    assert(out@ =~= start + seq![46u8, 108, 105, 98, 114, 97]);
    assert(out@ =~= dot_libra(dir@));
    out
}

/// Resolves the per-user state directory from the values of `LIBRA_HOME`,
/// `LIBRA_CONFIG_GLOBAL_DB` and `HOME` and the platform's home directory. Empty
/// values count as unset.
pub fn resolve_libra_home(
    explicit: Option<Vec<u8>>,
    global_db: Option<Vec<u8>>,
    home: Option<Vec<u8>>,
    platform_home: Option<Vec<u8>>,
) -> (r: Result<Vec<u8>, LibraHomeError>)
    ensures
        ({
            let expected = home_of(
                set_value(explicit),
                set_value(global_db),
                set_value(home),
                opt_bytes(platform_home),
            );
            match r {
                Ok(dir) => expected == Some(dir@),
                Err(_) => expected is None,
            }
        }),
{
    if let Some(e) = explicit {
        if e.len() > 0 {
            return Ok(e);
        }
    }
    if let Some(db) = global_db {
        if db.len() > 0 {
            return Ok(parent_directory(db.as_slice()));
        }
    }
    if let Some(h) = home {
        if h.len() > 0 {
            return Ok(under(h.as_slice()));
        }
    }
    match platform_home {
        Some(h) => Ok(under(h.as_slice())),
        None => Err(LibraHomeError::Unresolvable),
    }
}

/// Where the configuration database is overridden, the user's real home does
/// not matter.
pub proof fn law_isolation_ignores_home(
    explicit: Option<Seq<u8>>,
    global_db: Seq<u8>,
    home: Option<Seq<u8>>,
    platform_home: Option<Seq<u8>>,
)
    ensures
        home_of(explicit, Some(global_db), home, platform_home) == home_of(
            explicit,
            Some(global_db),
            None,
            None,
        ),
        home_of(explicit, Some(global_db), home, platform_home) is Some,
{
}

/// An explicit home wins over everything else.
pub proof fn law_explicit_home_wins(
    explicit: Seq<u8>,
    global_db: Option<Seq<u8>>,
    home: Option<Seq<u8>>,
    platform_home: Option<Seq<u8>>,
)
    ensures
        home_of(Some(explicit), global_db, home, platform_home) == Some(explicit),
{
}

/// Whether bytes are one part of a path: a name without separators.
pub open spec fn is_name(name: Seq<u8>) -> bool {
    name.len() > 0 && name != seq![46u8] && forall|i: int|
        0 <= i < name.len() ==> #[trigger] name[i] != 47
}

/// Whether a path ends in a name, and so says nothing twice at its end.
pub open spec fn ends_in_name(dir: Seq<u8>) -> bool {
    &&& dir.len() > 0
    &&& dir.last() != 47
    &&& dir.last() == 46 ==> dir.len() == 1 || dir[dir.len() - 2] != 47
}

proof fn lemma_last_part(dir: Seq<u8>, name: Seq<u8>)
    requires
        forall|i: int| 0 <= i < name.len() ==> #[trigger] name[i] != 47,
    ensures
        last_part(dir.push(47u8) + name) == dir.len() + 1,
    decreases name.len(),
{
    let p = dir.push(47u8) + name;
    if name.len() == 0 {
        assert(p.last() == 47);
    } else {
        assert(p.last() == name[name.len() - 1]);
        assert(p.drop_last() =~= dir.push(47u8) + name.drop_last());
        assert forall|i: int| 0 <= i < name.drop_last().len() implies #[trigger] name.drop_last()[i]
            != 47 by {
            assert(name.drop_last()[i] == name[i]);
        }
        lemma_last_part(dir, name.drop_last());
    }
}

/// The state lives in the directory that holds the configuration database,
/// with or without a separator behind its name.
pub proof fn law_state_lives_next_to_the_database(
    dir: Seq<u8>,
    name: Seq<u8>,
    home: Option<Seq<u8>>,
    platform_home: Option<Seq<u8>>,
)
    requires
        ends_in_name(dir),
        is_name(name),
    ensures
        home_of(None, Some(dir.push(47u8) + name), home, platform_home) == Some(dir),
        home_of(None, Some((dir.push(47u8) + name).push(47u8)), home, platform_home) == Some(dir),
{
    let p = dir.push(47u8) + name;
    assert(p.last() == name[name.len() - 1]);
    assert(trimmed_path(p) == p) by {
        if p.last() == 46 {
            if name.len() == 1 {
                assert(name =~= seq![46u8]);
            } else {
                assert(p[p.len() - 2] == name[name.len() - 2]);
            }
        }
    }
    assert(p.push(47u8).drop_last() =~= p);
    assert(trimmed_path(p.push(47u8)) == p);
    lemma_last_part(dir, name);
    assert(p.take(last_part(p)) =~= dir.push(47u8));
    assert(dir.push(47u8).drop_last() =~= dir);
    assert(trimmed_path(dir) == dir);
    assert(trimmed_path(dir.push(47u8)) == dir);
    assert(p.len() > 1);
}

/// Without a directory in its name, the database is in the current directory.
pub proof fn law_bare_database_is_in_the_current_directory(name: Seq<u8>)
    requires
        is_name(name),
    ensures
        home_of(None, Some(name), None, None) == Some(seq![46u8]),
{
    assert(name[name.len() - 1] != 47);
    assert(trimmed_path(name) == name) by {
        if name.len() >= 2 {
            assert(name[name.len() - 2] != 47);
        }
    }
    lemma_no_part_before(name);
    assert(name.take(0) =~= Seq::<u8>::empty());
}

proof fn lemma_no_part_before(name: Seq<u8>)
    requires
        forall|i: int| 0 <= i < name.len() ==> #[trigger] name[i] != 47,
    ensures
        last_part(name) == 0,
    decreases name.len(),
{
    if name.len() > 0 {
        assert(name[name.len() - 1] != 47);
        assert forall|i: int| 0 <= i < name.drop_last().len() implies #[trigger] name.drop_last()[i]
            != 47 by {
            assert(name.drop_last()[i] == name[i]);
        }
        lemma_no_part_before(name.drop_last());
    }
}

/// The state of a home directory is in its `.libra`, and the home that the
/// environment gives goes before the platform's.
pub proof fn law_state_lives_under_home(home: Seq<u8>, platform_home: Option<Seq<u8>>)
    requires
        home.len() > 0,
        home.last() != 47,
    ensures
        home_of(None, None, Some(home), platform_home) == Some(
            home + vstd::utf8::encode_utf8("/.libra"@),
        ),
        home_of(None, None, None, Some(home)) == Some(home + vstd::utf8::encode_utf8("/.libra"@)),
        home_of(None, None, None, None) is None,
{
    reveal_strlit("/.libra");
    let t = "/.libra"@;
    assert(t.len() == 7);
    assert(vstd::utf8::is_ascii_chars(t)) by {
        assert(forall|i: int| 0 <= i < 7 ==> '\0' <= #[trigger] t[i] <= '\u{7f}');
    }
    vstd::utf8::is_ascii_chars_encode_utf8(t);
    let b = vstd::utf8::encode_utf8(t);
    assert(b =~= seq![47u8, 46, 108, 105, 98, 114, 97]);
    assert(dot_libra(home) =~= home + b);
}

} // verus!
