//! Text as sequences of characters: what the parsers and renderers of this
//! crate are stated over, and the executable operations that meet those
//! statements.

use vstd::prelude::*;
use vstd::slice::slice_subrange;

verus! {

/// `String::push` appends one character.
pub assume_specification[ String::push ](s: &mut String, c: char)
    ensures
        final(s)@ == old(s)@.push(c),
;

/// `==` on string slices compares their characters.
pub assume_specification[ <str as PartialEq>::eq ](a: &str, b: &str) -> (r: bool)
    ensures
        r == (a@ == b@),
;

/// Whether two texts are the same.
pub fn same(a: &str, b: &str) -> (r: bool)
    ensures
        r == (a@ == b@),
{
    *a == *b
}

/// The characters of `s`, in order.
pub fn chars_of(s: &str) -> (r: Vec<char>)
    ensures
        r@ == s@,
{
    let mut out: Vec<char> = Vec::new();
    for c in it: s.chars()
        invariant
            it.seq() == s@,
            out@ == s@.take(it.index() as int),
    {
        out.push(c);
    }
    out
}

/// The string made of the characters `c`.
pub fn text_of(c: &[char]) -> (r: String)
    ensures
        r@ == c@,
{
    let mut out = String::new();
    let mut i: usize = 0;
    while i < c.len()
        invariant
            i <= c.len(),
            out@ == c@.take(i as int),
        decreases c.len() - i,
    {
        out.push(c[i]);
        i += 1;
    }
    assert(c@.take(i as int) =~= c@);
    out
}

/// Copies `c` to the end of `out`.
pub fn push_chars(out: &mut String, c: &[char])
    ensures
        final(out)@ == old(out)@ + c@,
{
    let ghost start = out@;
    let mut i: usize = 0;
    while i < c.len()
        invariant
            i <= c.len(),
            start == old(out)@,
            out@ == start + c@.take(i as int),
        decreases c.len() - i,
    {
        out.push(c[i]);
        i += 1;
        assert(start + c@.take(i as int) =~= (start + c@.take(i - 1)).push(c@[i - 1]));
    }
    assert(c@.take(i as int) =~= c@);
}

/// An owned copy of a list of strings.
pub fn copy_strings(v: &[String]) -> (r: Vec<String>)
    ensures
        r@ == v@,
{
    let mut out: Vec<String> = Vec::new();
    let mut i: usize = 0;
    while i < v.len()
        invariant
            i <= v.len(),
            out@ == v@.take(i as int),
        decreases v.len() - i,
    {
        out.push(v[i].clone());
        i += 1;
    }
    assert(v@.take(i as int) =~= v@);
    out
}

/// The texts that a list of strings holds.
pub open spec fn texts(v: Seq<String>) -> Seq<Seq<char>> {
    v.map_values(|s: String| s@)
}

/// The text that an optional string holds.
pub open spec fn opt_text(o: Option<String>) -> Option<Seq<char>> {
    match o {
        Some(s) => Some(s@),
        None => None,
    }
}

//// Whitespace and trimming

/// The Unicode `White_Space` property.
pub open spec fn is_white(c: char) -> bool {
    ||| '\u{9}' <= c <= '\u{d}'
    ||| c == '\u{20}'
    ||| c == '\u{85}'
    ||| c == '\u{a0}'
    ||| c == '\u{1680}'
    ||| '\u{2000}' <= c <= '\u{200a}'
    ||| c == '\u{2028}'
    ||| c == '\u{2029}'
    ||| c == '\u{202f}'
    ||| c == '\u{205f}'
    ||| c == '\u{3000}'
}

pub fn white(c: char) -> (r: bool)
    ensures
        r == is_white(c),
{
    ('\u{9}' <= c && c <= '\u{d}') || c == '\u{20}' || c == '\u{85}' || c == '\u{a0}' || c
        == '\u{1680}' || ('\u{2000}' <= c && c <= '\u{200a}') || c == '\u{2028}' || c == '\u{2029}'
        || c == '\u{202f}' || c == '\u{205f}' || c == '\u{3000}'
}

/// `s` without its leading whitespace.
pub open spec fn trim_start(s: Seq<char>) -> Seq<char>
    decreases s.len(),
{
    if s.len() > 0 && is_white(s[0]) {
        trim_start(s.drop_first())
    } else {
        s
    }
}

/// `s` without its trailing whitespace.
pub open spec fn trim_end(s: Seq<char>) -> Seq<char>
    decreases s.len(),
{
    if s.len() > 0 && is_white(s.last()) {
        trim_end(s.drop_last())
    } else {
        s
    }
}

/// `s` without the whitespace around it.
pub open spec fn trim(s: Seq<char>) -> Seq<char> {
    trim_end(trim_start(s))
}

/// Whether `s` is made of whitespace alone.
pub open spec fn is_blank(s: Seq<char>) -> bool {
    forall|i: int| 0 <= i < s.len() ==> is_white(#[trigger] s[i])
}

/// `s` without the copies of `c` at its end.
pub open spec fn trim_end_char(s: Seq<char>, c: char) -> Seq<char>
    decreases s.len(),
{
    if s.len() > 0 && s.last() == c {
        trim_end_char(s.drop_last(), c)
    } else {
        s
    }
}

pub proof fn lemma_trim_blank(s: Seq<char>)
    ensures
        (trim(s).len() == 0) == is_blank(s),
{
    lemma_trim_start_blank(s);
    lemma_trim_end_blank(trim_start(s));
    lemma_trim_start_suffix(s);
    if !is_blank(s) {
        assert(!is_blank(trim_start(s)));
    }
}

proof fn lemma_trim_start_blank(s: Seq<char>)
    ensures
        (trim_start(s).len() == 0) == is_blank(s),
        is_blank(trim_start(s)) == is_blank(s),
    decreases s.len(),
{
    if s.len() > 0 && is_white(s[0]) {
        let t = s.drop_first();
        lemma_trim_start_blank(t);
        assert(is_blank(t) == is_blank(s)) by {
            if is_blank(t) {
                assert forall|i: int| 0 <= i < s.len() implies is_white(#[trigger] s[i]) by {
                    if i > 0 {
                        assert(s[i] == t[i - 1]);
                    }
                }
            }
            if is_blank(s) {
                assert forall|i: int| 0 <= i < t.len() implies is_white(#[trigger] t[i]) by {
                    assert(t[i] == s[i + 1]);
                }
            }
        }
    }
}

proof fn lemma_trim_end_blank(s: Seq<char>)
    ensures
        (trim_end(s).len() == 0) == is_blank(s),
    decreases s.len(),
{
    if s.len() > 0 && is_white(s.last()) {
        let t = s.drop_last();
        lemma_trim_end_blank(t);
        assert(is_blank(t) == is_blank(s)) by {
            if is_blank(t) {
                assert forall|i: int| 0 <= i < s.len() implies is_white(#[trigger] s[i]) by {
                    if i < s.len() - 1 {
                        assert(s[i] == t[i]);
                    }
                }
            }
            if is_blank(s) {
                assert forall|i: int| 0 <= i < t.len() implies is_white(#[trigger] t[i]) by {
                    assert(t[i] == s[i]);
                }
            }
        }
    }
}

proof fn lemma_trim_start_suffix(s: Seq<char>)
    ensures
        trim_start(s).len() <= s.len(),
        trim_start(s) == s.skip(s.len() - trim_start(s).len()),
    decreases s.len(),
{
    if s.len() > 0 && is_white(s[0]) {
        lemma_trim_start_suffix(s.drop_first());
        assert(trim_start(s) =~= s.skip(s.len() - trim_start(s).len()));
    }
}

pub fn trimmed_start(s: &[char]) -> (r: &[char])
    ensures
        r@ == trim_start(s@),
        r@.len() <= s@.len(),
{
    let mut i: usize = 0;
    assert(s@.skip(0) =~= s@);
    while i < s.len() && white(s[i])
        invariant
            i <= s.len(),
            trim_start(s@.skip(i as int)) == trim_start(s@),
        decreases s.len() - i,
    {
        assert(s@.skip(i as int).drop_first() =~= s@.skip(i + 1));
        i += 1;
    }
    let r = slice_subrange(s, i, s.len());
    assert(r@ =~= s@.skip(i as int));
    r
}

pub fn trimmed_end(s: &[char]) -> (r: &[char])
    ensures
        r@ == trim_end(s@),
        r@.len() <= s@.len(),
{
    let mut n: usize = s.len();
    assert(s@.take(n as int) =~= s@);
    while n > 0 && white(s[n - 1])
        invariant
            n <= s.len(),
            trim_end(s@.take(n as int)) == trim_end(s@),
        decreases n,
    {
        assert(s@.take(n as int).drop_last() =~= s@.take(n - 1));
        n -= 1;
    }
    let r = slice_subrange(s, 0, n);
    assert(r@ =~= s@.take(n as int));
    r
}

pub fn trimmed(s: &[char]) -> (r: &[char])
    ensures
        r@ == trim(s@),
        r@.len() <= s@.len(),
{
    trimmed_end(trimmed_start(s))
}

pub fn trimmed_end_char(s: &[char], c: char) -> (r: &[char])
    ensures
        r@ == trim_end_char(s@, c),
        r@.len() <= s@.len(),
{
    let mut n: usize = s.len();
    assert(s@.take(n as int) =~= s@);
    while n > 0 && s[n - 1] == c
        invariant
            n <= s.len(),
            trim_end_char(s@.take(n as int), c) == trim_end_char(s@, c),
        decreases n,
    {
        assert(s@.take(n as int).drop_last() =~= s@.take(n - 1));
        n -= 1;
    }
    let r = slice_subrange(s, 0, n);
    assert(r@ =~= s@.take(n as int));
    r
}

/// Whether nothing but whitespace stands in `s`.
pub fn blank(s: &str) -> (r: bool)
    ensures
        r == is_blank(s@),
{
    let cs = chars_of(s);
    let mut i: usize = 0;
    while i < cs.len()
        invariant
            i <= cs.len(),
            cs@ == s@,
            forall|j: int| 0 <= j < i ==> is_white(#[trigger] s@[j]),
        decreases cs.len() - i,
    {
        if !white(cs[i]) {
            assert(!is_white(s@[i as int]));
            return false;
        }
        i += 1;
    }
    true
}

//// Prefixes, suffixes and searches

pub fn starts(s: &[char], p: &str) -> (r: bool)
    ensures
        r == p@.is_prefix_of(s@),
{
    let ps = chars_of(p);
    starts_chars(s, ps.as_slice())
}

pub fn starts_chars(s: &[char], p: &[char]) -> (r: bool)
    ensures
        r == p@.is_prefix_of(s@),
{
    if p.len() > s.len() {
        return false;
    }
    let mut i: usize = 0;
    while i < p.len()
        invariant
            i <= p.len() <= s.len(),
            forall|j: int| 0 <= j < i ==> p@[j] == s@[j],
        decreases p.len() - i,
    {
        if p[i] != s[i] {
            assert(p@[i as int] != s@.subrange(0, p@.len() as int)[i as int]);
            return false;
        }
        i += 1;
    }
    assert(p@ =~= s@.subrange(0, p@.len() as int));
    true
}

/// What follows the prefix `p` of `s`, where `s` has it.
pub open spec fn after_prefix(s: Seq<char>, p: Seq<char>) -> Option<Seq<char>> {
    if p.is_prefix_of(s) {
        Some(s.skip(p.len() as int))
    } else {
        None
    }
}

pub fn strip_prefix<'a>(s: &'a [char], p: &str) -> (r: Option<&'a [char]>)
    ensures
        (match r {
            Some(t) => after_prefix(s@, p@) == Some(t@),
            None => after_prefix(s@, p@) is None,
        }),
{
    let ps = chars_of(p);
    if starts_chars(s, ps.as_slice()) {
        let t = slice_subrange(s, ps.len(), s.len());
        assert(t@ =~= s@.skip(p@.len() as int));
        Some(t)
    } else {
        None
    }
}

pub fn ends_char(s: &[char], c: char) -> (r: bool)
    ensures
        r == (s@.len() > 0 && s@.last() == c),
{
    s.len() > 0 && s[s.len() - 1] == c
}

/// How many characters stand before the first `c` of `s`: all of them, where
/// `s` holds no `c`.
pub open spec fn find_char(s: Seq<char>, c: char) -> int
    decreases s.len(),
{
    if s.len() == 0 || s[0] == c {
        0
    } else {
        1 + find_char(s.drop_first(), c)
    }
}

pub proof fn lemma_find_char(s: Seq<char>, c: char)
    ensures
        0 <= find_char(s, c) <= s.len(),
        find_char(s, c) < s.len() ==> s[find_char(s, c)] == c,
        forall|j: int| 0 <= j < find_char(s, c) ==> s[j] != c,
        s.contains(c) == (find_char(s, c) < s.len()),
    decreases s.len(),
{
    if s.len() > 0 && s[0] != c {
        let t = s.drop_first();
        lemma_find_char(t, c);
        assert forall|j: int| 0 <= j < find_char(s, c) implies s[j] != c by {
            if j > 0 {
                assert(s[j] == t[j - 1]);
            }
        }
        if find_char(s, c) < s.len() {
            assert(s[find_char(s, c)] == t[find_char(t, c)]);
        }
        if s.contains(c) {
            let k = choose|k: int| 0 <= k < s.len() && s[k] == c;
            assert(t[k - 1] == c);
        }
    }
}

/// The first position that holds `c`, and nothing but other characters before
/// it, is what `find_char` gives.
pub proof fn lemma_find_char_at(s: Seq<char>, c: char, k: int)
    requires
        0 <= k <= s.len(),
        forall|j: int| 0 <= j < k ==> s[j] != c,
        k == s.len() || s[k] == c,
    ensures
        find_char(s, c) == k,
{
    lemma_find_char(s, c);
    if find_char(s, c) < k {
        assert(s[find_char(s, c)] != c);
    }
}

pub fn index_of_char(s: &[char], c: char) -> (r: usize)
    ensures
        r == find_char(s@, c),
        r <= s@.len(),
{
    let mut i: usize = 0;
    while i < s.len() && s[i] != c
        invariant
            i <= s.len(),
            forall|j: int| 0 <= j < i ==> s@[j] != c,
        decreases s.len() - i,
    {
        i += 1;
    }
    proof {
        lemma_find_char_at(s@, c, i as int);
    }
    i
}

pub fn has_char(s: &[char], c: char) -> (r: bool)
    ensures
        r == s@.contains(c),
{
    let i = index_of_char(s, c);
    proof {
        lemma_find_char(s@, c);
    }
    i < s.len()
}

/// `s` cut at the first `c`, which belongs to neither part.
pub open spec fn split_once(s: Seq<char>, c: char) -> Option<(Seq<char>, Seq<char>)> {
    let k = find_char(s, c);
    if k < s.len() {
        Some((s.take(k), s.skip(k + 1)))
    } else {
        None
    }
}

pub fn cut_once(s: &[char], c: char) -> (r: Option<(&[char], &[char])>)
    ensures
        (match r {
            Some((a, b)) => split_once(s@, c) == Some((a@, b@)),
            None => split_once(s@, c) is None,
        }),
{
    let k = index_of_char(s, c);
    if k < s.len() {
        let a = slice_subrange(s, 0, k);
        let b = slice_subrange(s, k + 1, s.len());
        assert(a@ =~= s@.take(k as int));
        assert(b@ =~= s@.skip(k + 1));
        Some((a, b))
    } else {
        None
    }
}

/// What follows the last `c` of `s`: all of `s`, where it holds none.
pub open spec fn after_last(s: Seq<char>, c: char) -> Seq<char>
    decreases s.len(),
    via after_last_decreases
{
    if s.contains(c) {
        after_last(s.skip(find_char(s, c) + 1), c)
    } else {
        s
    }
}

#[via_fn]
proof fn after_last_decreases(s: Seq<char>, c: char) {
    lemma_find_char(s, c);
}

pub proof fn lemma_after_last(s: Seq<char>, c: char, k: int)
    requires
        0 <= k <= s.len(),
        k > 0 ==> s[k - 1] == c,
        forall|j: int| k <= j < s.len() ==> s[j] != c,
    ensures
        after_last(s, c) == s.skip(k),
    decreases s.len(),
{
    lemma_find_char(s, c);
    if k == 0 {
        assert(!s.contains(c));
        assert(s.skip(0) =~= s);
    } else {
        let f = find_char(s, c);
        assert(s.contains(c));
        assert(f <= k - 1);
        let t = s.skip(f + 1);
        assert(t.skip(k - f - 1) =~= s.skip(k));
        assert(k - f - 1 > 0 ==> t[k - f - 2] == c);
        lemma_after_last(t, c, k - f - 1);
    }
}

pub fn past_last(s: &[char], c: char) -> (r: &[char])
    ensures
        r@ == after_last(s@, c),
{
    let mut k: usize = s.len();
    while k > 0 && s[k - 1] != c
        invariant
            k <= s.len(),
            forall|j: int| k <= j < s.len() ==> s@[j] != c,
        decreases k,
    {
        k -= 1;
    }
    proof {
        lemma_after_last(s@, c, k as int);
    }
    let r = slice_subrange(s, k, s.len());
    assert(r@ =~= s@.skip(k as int));
    r
}

/// Whether `p` stands at position `i` of `s`.
pub open spec fn occurs_at(s: Seq<char>, p: Seq<char>, i: int) -> bool {
    p.is_prefix_of(s.skip(i))
}

/// Whether `p` stands anywhere in `s`.
pub open spec fn occurs_in(s: Seq<char>, p: Seq<char>) -> bool {
    exists|i: int| 0 <= i <= s.len() && #[trigger] occurs_at(s, p, i)
}

/// How many characters stand before the first `p` of `s`: all of them, where
/// `p` does not occur.
pub open spec fn find_text(s: Seq<char>, p: Seq<char>) -> int
    decreases s.len(),
{
    if s.len() == 0 || p.is_prefix_of(s) {
        0
    } else {
        1 + find_text(s.drop_first(), p)
    }
}

/// `s` up to the first `p`.
pub open spec fn before_text(s: Seq<char>, p: Seq<char>) -> Seq<char> {
    s.take(find_text(s, p))
}

pub proof fn lemma_find_text(s: Seq<char>, p: Seq<char>)
    ensures
        0 <= find_text(s, p) <= s.len(),
    decreases s.len(),
{
    if !(s.len() == 0 || p.is_prefix_of(s)) {
        lemma_find_text(s.drop_first(), p);
    }
}

pub fn index_of_text(s: &[char], p: &str) -> (r: usize)
    ensures
        r == find_text(s@, p@),
        r <= s@.len(),
{
    let mut i: usize = 0;
    assert(s@.skip(0) =~= s@);
    let ps = chars_of(p);
    while i < s.len()
        invariant
            i <= s.len(),
            ps@ == p@,
            i + find_text(s@.skip(i as int), p@) == find_text(s@, p@),
        decreases s.len() - i,
    {
        let rest = slice_subrange(s, i, s.len());
        assert(rest@ =~= s@.skip(i as int));
        if starts_chars(rest, ps.as_slice()) {
            return i;
        }
        assert(s@.skip(i as int).drop_first() =~= s@.skip(i + 1));
        i += 1;
    }
    i
}

pub fn prefix_before<'a>(s: &'a [char], p: &str) -> (r: &'a [char])
    ensures
        r@ == before_text(s@, p@),
{
    let k = index_of_text(s, p);
    let r = slice_subrange(s, 0, k);
    assert(r@ =~= s@.take(k as int));
    r
}

pub fn has_text(s: &[char], p: &str) -> (r: bool)
    ensures
        r == occurs_in(s@, p@),
{
    let ps = chars_of(p);
    let mut i: usize = 0;
    loop
        invariant
            i <= s.len(),
            ps@ == p@,
            forall|j: int| 0 <= j < i ==> !#[trigger] occurs_at(s@, p@, j),
        decreases s.len() - i,
    {
        let rest = slice_subrange(s, i, s.len());
        assert(rest@ =~= s@.skip(i as int));
        if starts_chars(rest, ps.as_slice()) {
            assert(occurs_at(s@, p@, i as int));
            return true;
        }
        assert(!occurs_at(s@, p@, i as int));
        if i == s.len() {
            return false;
        }
        i += 1;
    }
}

//// Words and lines

/// How many characters stand before the first whitespace of `s`.
pub open spec fn find_white(s: Seq<char>) -> int
    decreases s.len(),
{
    if s.len() == 0 || is_white(s[0]) {
        0
    } else {
        1 + find_white(s.drop_first())
    }
}

pub proof fn lemma_find_white(s: Seq<char>)
    ensures
        0 <= find_white(s) <= s.len(),
        find_white(s) < s.len() ==> is_white(s[find_white(s)]),
        forall|j: int| 0 <= j < find_white(s) ==> !is_white(#[trigger] s[j]),
    decreases s.len(),
{
    if s.len() > 0 && !is_white(s[0]) {
        let t = s.drop_first();
        lemma_find_white(t);
        assert forall|j: int| 0 <= j < find_white(s) implies !is_white(#[trigger] s[j]) by {
            if j > 0 {
                assert(s[j] == t[j - 1]);
            }
        }
    }
}

pub proof fn lemma_find_white_at(s: Seq<char>, k: int)
    requires
        0 <= k <= s.len(),
        forall|j: int| 0 <= j < k ==> !is_white(#[trigger] s[j]),
        k == s.len() || is_white(s[k]),
    ensures
        find_white(s) == k,
{
    lemma_find_white(s);
    if find_white(s) < k {
        assert(!is_white(s[find_white(s)]));
    }
}

pub fn index_of_white(s: &[char]) -> (r: usize)
    ensures
        r == find_white(s@),
        r <= s@.len(),
{
    let mut i: usize = 0;
    while i < s.len() && !white(s[i])
        invariant
            i <= s.len(),
            forall|j: int| 0 <= j < i ==> !is_white(#[trigger] s@[j]),
        decreases s.len() - i,
    {
        i += 1;
    }
    proof {
        lemma_find_white_at(s@, i as int);
    }
    i
}

/// The first whitespace-separated word of `s`; empty where there is none.
pub open spec fn first_word(s: Seq<char>) -> Seq<char> {
    let t = trim_start(s);
    t.take(find_white(t))
}

/// What follows the first word of `s`.
pub open spec fn after_first_word(s: Seq<char>) -> Seq<char> {
    let t = trim_start(s);
    t.skip(find_white(t))
}

/// The first word of `s` and what follows it.
pub fn cut_word(s: &[char]) -> (r: (&[char], &[char]))
    ensures
        r.0@ == first_word(s@),
        r.1@ == after_first_word(s@),
        r.1@.len() <= s@.len(),
        r.0@.len() > 0 ==> r.1@.len() < s@.len(),
{
    let t = trimmed_start(s);
    let k = index_of_white(t);
    let a = slice_subrange(t, 0, k);
    let b = slice_subrange(t, k, t.len());
    assert(a@ =~= t@.take(k as int));
    assert(b@ =~= t@.skip(k as int));
    (a, b)
}

/// `s` cut behind each newline, which stays with the line it ends.
pub open spec fn split_keep(s: Seq<char>) -> Seq<Seq<char>>
    decreases s.len(),
    via split_keep_decreases
{
    if s.len() == 0 {
        Seq::empty()
    } else if s.contains('\n') {
        let k = find_char(s, '\n') + 1;
        seq![s.take(k)] + split_keep(s.skip(k))
    } else {
        seq![s]
    }
}

#[via_fn]
proof fn split_keep_decreases(s: Seq<char>) {
    lemma_find_char(s, '\n');
}

/// A line without the newline, or the carriage return and newline, that ends
/// it.
pub open spec fn chomp(l: Seq<char>) -> Seq<char> {
    if l.len() > 0 && l.last() == '\n' {
        let m = l.drop_last();
        if m.len() > 0 && m.last() == '\r' {
            m.drop_last()
        } else {
            m
        }
    } else {
        l
    }
}

/// The lines of `s` without what ends them.
pub open spec fn lines(s: Seq<char>) -> Seq<Seq<char>> {
    split_keep(s).map_values(|l: Seq<char>| chomp(l))
}

/// The views of a list of character lists.
pub open spec fn char_views(v: Seq<Vec<char>>) -> Seq<Seq<char>> {
    v.map_values(|c: Vec<char>| c@)
}

pub fn copy_chars(s: &[char]) -> (r: Vec<char>)
    ensures
        r@ == s@,
{
    vstd::slice::slice_to_vec(s)
}

pub fn cut_lines_keep(s: &[char]) -> (r: Vec<Vec<char>>)
    ensures
        char_views(r@) == split_keep(s@),
{
    let mut out: Vec<Vec<char>> = Vec::new();
    let mut rest = s;
    assert(char_views(out@) =~= Seq::<Seq<char>>::empty());
    while rest.len() > 0
        invariant
            char_views(out@) + split_keep(rest@) == split_keep(s@),
        decreases rest.len(),
    {
        proof {
            lemma_find_char(rest@, '\n');
        }
        let k = index_of_char(rest, '\n');
        let ghost before = char_views(out@);
        let ghost r0 = rest@;
        if k < rest.len() {
            let l = copy_chars(slice_subrange(rest, 0, k + 1));
            assert(l@ =~= rest@.take(k + 1));
            out.push(l);
            rest = slice_subrange(rest, k + 1, rest.len());
            assert(rest@ =~= r0.skip(k + 1));
        } else {
            let l = copy_chars(rest);
            out.push(l);
            rest = slice_subrange(rest, k, rest.len());
            assert(rest@ =~= Seq::<char>::empty());
        }
        assert(char_views(out@) =~= before.push(char_views(out@).last()));
        assert(char_views(out@) + split_keep(rest@) =~= before + split_keep(r0));
    }
    assert(char_views(out@) + split_keep(rest@) =~= char_views(out@));
    out
}

pub fn chomped(l: &[char]) -> (r: &[char])
    ensures
        r@ == chomp(l@),
{
    let n = l.len();
    if n > 0 && l[n - 1] == '\n' {
        if n > 1 && l[n - 2] == '\r' {
            let r = slice_subrange(l, 0, n - 2);
            assert(r@ =~= l@.drop_last().drop_last());
            r
        } else {
            let r = slice_subrange(l, 0, n - 1);
            assert(r@ =~= l@.drop_last());
            r
        }
    } else {
        l
    }
}

pub fn cut_lines(s: &[char]) -> (r: Vec<Vec<char>>)
    ensures
        char_views(r@) == lines(s@),
{
    let kept = cut_lines_keep(s);
    let mut out: Vec<Vec<char>> = Vec::new();
    let mut i: usize = 0;
    while i < kept.len()
        invariant
            i <= kept.len(),
            out@.len() == i,
            forall|j: int| 0 <= j < i ==> (#[trigger] out@[j])@ == chomp(kept@[j]@),
        decreases kept.len() - i,
    {
        out.push(copy_chars(chomped(kept[i].as_slice())));
        i += 1;
    }
    assert forall|j: int| 0 <= j < i implies (#[trigger] char_views(out@)[j]) == lines(s@)[j] by {
        assert(split_keep(s@)[j] == kept@[j]@);
    }
    assert(char_views(out@) =~= lines(s@));
    out
}

//// Numbers

/// The value of a decimal digit, and of the digits below ten in general.
pub open spec fn digit_value(c: char) -> int {
    c as int - '0' as int
}

/// Whether every character of `s` is a digit below `radix`.
pub open spec fn all_digits(s: Seq<char>, radix: int) -> bool {
    forall|i: int| 0 <= i < s.len() ==> 0 <= digit_value(#[trigger] s[i]) < radix
}

/// The number that the digits `s` write in base `radix`.
pub open spec fn digits_value(s: Seq<char>, radix: int) -> int
    decreases s.len(),
{
    if s.len() == 0 {
        0
    } else {
        digits_value(s.drop_last(), radix) * radix + digit_value(s.last())
    }
}

/// The digits of a number as it may be written: a plus sign may stand before
/// them.
pub open spec fn unsigned_digits(s: Seq<char>) -> Seq<char> {
    if s.len() > 0 && s[0] == '+' {
        s.drop_first()
    } else {
        s
    }
}

/// The unsigned number up to `max` that `s` writes in base `radix`, which is
/// at most ten.
pub open spec fn parse_unsigned(s: Seq<char>, radix: int, max: int) -> Option<int> {
    let d = unsigned_digits(s);
    if d.len() > 0 && all_digits(d, radix) && digits_value(d, radix) <= max {
        Some(digits_value(d, radix))
    } else {
        None
    }
}

proof fn lemma_digits_monotone(s: Seq<char>, radix: int, k: int)
    requires
        all_digits(s, radix),
        1 <= radix,
        0 <= k <= s.len(),
    ensures
        0 <= digits_value(s.take(k), radix) <= digits_value(s, radix),
    decreases s.len(),
{
    if k == s.len() {
        assert(s.take(k) =~= s);
        lemma_digits_nonneg(s, radix);
    } else {
        let t = s.drop_last();
        assert(t.take(k) =~= s.take(k));
        assert(all_digits(t, radix)) by {
            assert forall|i: int| 0 <= i < t.len() implies 0 <= digit_value(#[trigger] t[i])
                < radix by {
                assert(t[i] == s[i]);
            }
        }
        lemma_digits_monotone(t, radix, k);
        let a = digits_value(t, radix);
        assert(a <= a * radix) by (nonlinear_arith)
            requires
                0 <= a,
                1 <= radix,
        ;
        assert(0 <= digit_value(s[s.len() - 1]));
    }
}

proof fn lemma_digits_nonneg(s: Seq<char>, radix: int)
    requires
        all_digits(s, radix),
        1 <= radix,
    ensures
        0 <= digits_value(s, radix),
    decreases s.len(),
{
    if s.len() > 0 {
        let t = s.drop_last();
        assert(all_digits(t, radix)) by {
            assert forall|i: int| 0 <= i < t.len() implies 0 <= digit_value(#[trigger] t[i])
                < radix by {
                assert(t[i] == s[i]);
            }
        }
        lemma_digits_nonneg(t, radix);
        let a = digits_value(t, radix);
        assert(0 <= a * radix) by (nonlinear_arith)
            requires
                0 <= a,
                1 <= radix,
        ;
        assert(0 <= digit_value(s[s.len() - 1]));
    }
}

/// Reads an unsigned number of base `radix` that is at most `max`.
pub fn read_unsigned(s: &[char], radix: u64, max: u64) -> (r: Option<u64>)
    requires
        2 <= radix <= 10,
    ensures
        (match r {
            Some(v) => parse_unsigned(s@, radix as int, max as int) == Some(v as int),
            None => parse_unsigned(s@, radix as int, max as int) is None,
        }),
{
    let d = if s.len() > 0 && s[0] == '+' {
        let d = slice_subrange(s, 1, s.len());
        assert(d@ =~= s@.drop_first());
        d
    } else {
        s
    };
    assert(d@ == unsigned_digits(s@));
    if d.len() == 0 {
        return None;
    }
    let mut v: u128 = 0;
    let mut i: usize = 0;
    let mut over: bool = false;
    assert(d@.take(0) =~= Seq::<char>::empty());
    while i < d.len()
        invariant
            i <= d.len(),
            2 <= radix <= 10,
            d@ == unsigned_digits(s@),
            all_digits(d@.take(i as int), radix as int),
            !over ==> v <= max && v == digits_value(d@.take(i as int), radix as int),
            over ==> exists|k: int|
                0 <= k <= i && digits_value(#[trigger] d@.take(k), radix as int) > max,
        decreases d.len() - i,
    {
        let c = d[i];
        if c < '0' || c > '9' {
            assert(!(0 <= digit_value(d@[i as int]) < radix as int));
            return None;
        }
        let n: u64 = (c as u8 - 48) as u64;
        if n >= radix {
            assert(!(0 <= digit_value(d@[i as int]) < radix as int));
            return None;
        }
        let ghost a = d@.take(i as int);
        let ghost b = d@.take(i + 1);
        assert(b.drop_last() =~= a);
        assert(all_digits(b, radix as int)) by {
            assert forall|j: int| 0 <= j < b.len() implies 0 <= digit_value(#[trigger] b[j])
                < radix as int by {
                if j < i {
                    assert(b[j] == a[j]);
                }
            }
        }
        if !over {
            assert(0 <= v * radix <= 10 * 0xffff_ffff_ffff_ffff) by (nonlinear_arith)
                requires
                    0 <= v <= 0xffff_ffff_ffff_ffff,
                    2 <= radix <= 10,
            ;
            v = v * (radix as u128) + (n as u128);
            assert(v == digits_value(b, radix as int));
            if v > max as u128 {
                over = true;
                assert(digits_value(d@.take(i + 1), radix as int) > max);
            }
        }
        i += 1;
    }
    assert(d@.take(i as int) =~= d@);
    if over {
        proof {
            let k = choose|k: int|
                0 <= k <= i && digits_value(#[trigger] d@.take(k), radix as int) > max;
            lemma_digits_monotone(d@, radix as int, k);
        }
        return None;
    }
    Some(v as u64)
}

/// Reads a decimal `usize`.
pub fn read_usize(s: &[char]) -> (r: Option<usize>)
    ensures
        (match r {
            Some(v) => parse_unsigned(s@, 10, usize::MAX as int) == Some(v as int),
            None => parse_unsigned(s@, 10, usize::MAX as int) is None,
        }),
{
    match read_unsigned(s, 10, usize::MAX as u64) {
        Some(v) => Some(v as usize),
        None => None,
    }
}

/// The digit that writes `n`, which is below ten.
pub open spec fn digit_char(n: nat) -> char {
    ('0' as nat + n) as char
}

/// `n` in decimal notation.
pub open spec fn decimal(n: nat) -> Seq<char>
    decreases n,
{
    if n < 10 {
        seq![digit_char(n)]
    } else {
        decimal(n / 10).push(digit_char(n % 10))
    }
}

/// An integer in decimal notation.
pub open spec fn signed_decimal(n: int) -> Seq<char> {
    if n < 0 {
        seq!['-'] + decimal((-n) as nat)
    } else {
        decimal(n as nat)
    }
}

fn digit_of(n: u128) -> (r: char)
    requires
        n < 10,
    ensures
        r == digit_char(n as nat),
{
    if n == 0 {
        '0'
    } else if n == 1 {
        '1'
    } else if n == 2 {
        '2'
    } else if n == 3 {
        '3'
    } else if n == 4 {
        '4'
    } else if n == 5 {
        '5'
    } else if n == 6 {
        '6'
    } else if n == 7 {
        '7'
    } else if n == 8 {
        '8'
    } else {
        '9'
    }
}

/// Writes `n` in decimal at the end of `out`.
pub fn push_decimal(out: &mut String, n: u128)
    ensures
        final(out)@ == old(out)@ + decimal(n as nat),
    decreases n,
{
    if n < 10 {
        out.push(digit_of(n));
        assert(old(out)@ + decimal(n as nat) =~= old(out)@.push(digit_char(n as nat)));
    } else {
        push_decimal(out, n / 10);
        out.push(digit_of(n % 10));
        assert(old(out)@ + decimal(n as nat) =~= (old(out)@ + decimal((n / 10) as nat)).push(
            digit_char((n % 10) as nat),
        ));
    }
}

pub fn decimal_text(n: u64) -> (r: String)
    ensures
        r@ == decimal(n as nat),
{
    let mut out = String::new();
    push_decimal(&mut out, n as u128);
    assert(Seq::<char>::empty() + decimal(n as nat) =~= decimal(n as nat));
    out
}

pub fn signed_decimal_text(n: i64) -> (r: String)
    ensures
        r@ == signed_decimal(n as int),
{
    let mut out = String::new();
    if n < 0 {
        out.push('-');
        let m: u64 = if n == i64::MIN {
            0x8000_0000_0000_0000
        } else {
            (-n) as u64
        };
        push_decimal(&mut out, m as u128);
        assert(out@ =~= signed_decimal(n as int));
    } else {
        push_decimal(&mut out, n as u128);
        assert(out@ =~= signed_decimal(n as int));
    }
    out
}

//// Letter case

/// `c` with an ASCII capital made small.
pub open spec fn lower_char(c: char) -> char {
    if 'A' <= c <= 'Z' {
        (c as nat + 32) as char
    } else {
        c
    }
}

/// `s` with its ASCII capitals made small.
pub open spec fn ascii_lower(s: Seq<char>) -> Seq<char> {
    s.map_values(|c: char| lower_char(c))
}

fn lowered_char(c: char) -> (r: char)
    ensures
        r == lower_char(c),
{
    if 'A' <= c && c <= 'Z' {
        ((c as u8) + 32) as char
    } else {
        c
    }
}

pub fn lowered(s: &[char]) -> (r: Vec<char>)
    ensures
        r@ == ascii_lower(s@),
{
    let mut out: Vec<char> = Vec::new();
    let mut i: usize = 0;
    while i < s.len()
        invariant
            i <= s.len(),
            out@ == ascii_lower(s@).take(i as int),
        decreases s.len() - i,
    {
        out.push(lowered_char(s[i]));
        i += 1;
    }
    assert(ascii_lower(s@).take(i as int) =~= ascii_lower(s@));
    out
}

/// What follows the first `p` of `s`, where it occurs.
pub open spec fn after_text(s: Seq<char>, p: Seq<char>) -> Option<Seq<char>> {
    if find_text(s, p) < s.len() {
        Some(s.skip(find_text(s, p) + p.len()))
    } else {
        None
    }
}

proof fn lemma_find_text_prefix(s: Seq<char>, p: Seq<char>)
    ensures
        0 <= find_text(s, p) <= s.len(),
        find_text(s, p) < s.len() ==> occurs_at(s, p, find_text(s, p)),
    decreases s.len(),
{
    if s.len() == 0 || p.is_prefix_of(s) {
        assert(s.skip(0) =~= s);
    } else {
        let t = s.drop_first();
        lemma_find_text_prefix(t, p);
        assert(t.skip(find_text(t, p)) =~= s.skip(find_text(s, p)));
    }
}

pub fn suffix_after<'a>(s: &'a [char], p: &str) -> (r: Option<&'a [char]>)
    ensures
        (match r {
            Some(t) => after_text(s@, p@) == Some(t@),
            None => after_text(s@, p@) is None,
        }),
{
    let k = index_of_text(s, p);
    if k < s.len() {
        proof {
            lemma_find_text_prefix(s@, p@);
        }
        let n = p.unicode_len();
        let t = slice_subrange(s, k + n, s.len());
        assert(t@ =~= s@.skip(k + n));
        Some(t)
    } else {
        None
    }
}

/// `s` with each `c` replaced by `by`.
pub open spec fn replace_char(s: Seq<char>, c: char, by: Seq<char>) -> Seq<char>
    decreases s.len(),
{
    if s.len() == 0 {
        s
    } else if s.last() == c {
        replace_char(s.drop_last(), c, by) + by
    } else {
        replace_char(s.drop_last(), c, by).push(s.last())
    }
}

/// Appends `s` with each `c` replaced by `by`.
pub fn push_replaced(out: &mut String, s: &[char], c: char, by: &str)
    ensures
        final(out)@ == old(out)@ + replace_char(s@, c, by@),
{
    let ghost start = out@;
    let mut i: usize = 0;
    assert(start + replace_char(s@.take(0), c, by@) =~= start);
    while i < s.len()
        invariant
            i <= s.len(),
            out@ == start + replace_char(s@.take(i as int), c, by@),
        decreases s.len() - i,
    {
        assert(s@.take(i + 1).drop_last() =~= s@.take(i as int));
        if s[i] == c {
            out.append(by);
        } else {
            out.push(s[i]);
        }
        assert(out@ =~= start + replace_char(s@.take(i + 1), c, by@));
        i += 1;
    }
    assert(s@.take(i as int) =~= s@);
}

/// `s` cut at every `c`: one piece more than it holds of them.
pub open spec fn split_on(s: Seq<char>, c: char) -> Seq<Seq<char>>
    decreases s.len(),
    via split_on_decreases
{
    if s.contains(c) {
        seq![s.take(find_char(s, c))] + split_on(s.skip(find_char(s, c) + 1), c)
    } else {
        seq![s]
    }
}

#[via_fn]
proof fn split_on_decreases(s: Seq<char>, c: char) {
    lemma_find_char(s, c);
}

pub fn cut_all(s: &[char], c: char) -> (r: Vec<Vec<char>>)
    ensures
        char_views(r@) == split_on(s@, c),
{
    let mut out: Vec<Vec<char>> = Vec::new();
    let mut rest = s;
    assert(char_views(out@) + split_on(rest@, c) =~= split_on(s@, c));
    loop
        invariant
            char_views(out@) + split_on(rest@, c) == split_on(s@, c),
        decreases rest@.len(),
    {
        proof {
            lemma_find_char(rest@, c);
        }
        let k = index_of_char(rest, c);
        let ghost before = char_views(out@);
        let ghost r0 = rest@;
        if k < rest.len() {
            let l = copy_chars(slice_subrange(rest, 0, k));
            assert(l@ =~= r0.take(k as int));
            out.push(l);
            rest = slice_subrange(rest, k + 1, rest.len());
            assert(rest@ =~= r0.skip(k + 1));
            assert(char_views(out@) =~= before.push(r0.take(k as int)));
            assert(char_views(out@) + split_on(rest@, c) =~= before + split_on(r0, c));
        } else {
            out.push(copy_chars(rest));
            assert(char_views(out@) =~= before.push(r0));
            assert(char_views(out@) =~= before + split_on(r0, c));
            return out;
        }
    }
}

/// `s` without the newlines and carriage returns at its end.
pub open spec fn trim_line_end(s: Seq<char>) -> Seq<char>
    decreases s.len(),
{
    if s.len() > 0 && (s.last() == '\n' || s.last() == '\r') {
        trim_line_end(s.drop_last())
    } else {
        s
    }
}

pub fn trimmed_line_end(s: &[char]) -> (r: &[char])
    ensures
        r@ == trim_line_end(s@),
        r@.len() <= s@.len(),
{
    let mut n: usize = s.len();
    assert(s@.take(n as int) =~= s@);
    while n > 0 && (s[n - 1] == '\n' || s[n - 1] == '\r')
        invariant
            n <= s.len(),
            trim_line_end(s@.take(n as int)) == trim_line_end(s@),
        decreases n,
    {
        assert(s@.take(n as int).drop_last() =~= s@.take(n - 1));
        n -= 1;
    }
    let r = slice_subrange(s, 0, n);
    assert(r@ =~= s@.take(n as int));
    r
}

/// A line comes off the front of a text whole.
pub proof fn lemma_split_keep_line(a: Seq<char>, rest: Seq<char>)
    requires
        !a.contains('\n'),
    ensures
        split_keep(a.push('\n') + rest) == seq![a.push('\n')] + split_keep(rest),
        lines(a.push('\n') + rest) == seq![chomp(a.push('\n'))] + lines(rest),
{
    let s = a.push('\n') + rest;
    assert forall|j: int| 0 <= j < a.len() implies s[j] != '\n' by {
        assert(a.contains(a[j]));
    }
    lemma_find_char_at(s, '\n', a.len() as int);
    assert(s[a.len() as int] == '\n');
    assert(s.contains('\n'));
    assert(s.take(a.len() as int + 1) =~= a.push('\n'));
    assert(s.skip(a.len() as int + 1) =~= rest);
    assert(lines(s) =~= seq![chomp(a.push('\n'))] + lines(rest));
}

/// A first character that is no whitespace survives trimming.
pub proof fn lemma_trim_keeps_first(s: Seq<char>)
    requires
        s.len() > 0,
        !is_white(s[0]),
    ensures
        trim(s).len() > 0,
        trim(s)[0] == s[0],
    decreases s.len(),
{
    lemma_trim_end_first(s);
}

proof fn lemma_trim_end_first(s: Seq<char>)
    requires
        s.len() > 0,
        !is_white(s[0]),
    ensures
        trim_end(s).len() > 0,
        trim_end(s)[0] == s[0],
    decreases s.len(),
{
    if is_white(s.last()) {
        lemma_trim_end_first(s.drop_last());
    }
}

/// Whether `s` is one word.
pub open spec fn is_word(s: Seq<char>) -> bool {
    s.len() > 0 && forall|i: int| 0 <= i < s.len() ==> !is_white(#[trigger] s[i])
}

/// A word followed by whitespace, or by nothing, is the first word.
pub proof fn lemma_first_word(w: Seq<char>, rest: Seq<char>)
    requires
        is_word(w),
        rest.len() > 0 ==> is_white(rest[0]),
    ensures
        first_word(w + rest) == w,
        after_first_word(w + rest) == rest,
        find_white(w + rest) == w.len(),
{
    let s = w + rest;
    assert(s[0] == w[0]);
    assert(trim_start(s) == s);
    assert forall|j: int| 0 <= j < w.len() implies !is_white(#[trigger] s[j]) by {
        assert(s[j] == w[j]);
    }
    lemma_find_white_at(s, w.len() as int);
    assert(s.take(w.len() as int) =~= w);
    assert(s.skip(w.len() as int) =~= rest);
}

/// Decimal notation holds digits alone.
pub proof fn lemma_decimal_digits(n: nat)
    ensures
        decimal(n).len() > 0,
        all_digits(decimal(n), 10),
        digits_value(decimal(n), 10) == n,
    decreases n,
{
    if n < 10 {
        assert(decimal(n).drop_last() =~= Seq::<char>::empty());
        assert(digits_value(Seq::<char>::empty(), 10) == 0);
    } else {
        lemma_decimal_digits(n / 10);
        let d = decimal(n / 10);
        let s = decimal(n);
        assert(s.drop_last() =~= d);
        assert forall|i: int| 0 <= i < s.len() implies 0 <= digit_value(#[trigger] s[i]) < 10 by {
            if i < d.len() {
                assert(s[i] == d[i]);
            }
        }
    }
}

/// Whether `t` is made of comment lines alone.
pub open spec fn is_comment(t: Seq<char>) -> bool {
    t.len() > 0 ==> {
        &&& t[0] == '#'
        &&& t.last() == '\n'
        &&& forall|i: int| 0 <= i < t.len() - 1 && #[trigger] t[i] == '\n' ==> t[i + 1] == '#'
    }
}

/// Reading back a number in decimal notation gives the number.
pub proof fn lemma_decimal_round_trip(n: nat, max: int)
    requires
        n <= max,
    ensures
        parse_unsigned(decimal(n), 10, max) == Some(n as int),
{
    lemma_decimal_digits(n);
    let s = decimal(n);
    assert(0 <= digit_value(s[0]) < 10);
    assert(unsigned_digits(s) == s);
}

/// Whitespace is what Unicode says it is: of the ASCII characters the space and
/// those from tab to carriage return.
pub proof fn law_whitespace(c: char)
    ensures
        (c as int) < 128 ==> (is_white(c) <==> c as int == 32 || 9 <= c as int <= 13),
        (c as int) >= 128 ==> (is_white(c) <==> c as int == 0x85 || c as int == 0xa0 || c as int
            == 0x1680 || 0x2000 <= c as int <= 0x200a || c as int == 0x2028 || c as int == 0x2029
            || c as int == 0x202f || c as int == 0x205f || c as int == 0x3000),
{
}

/// How many characters stand before the first that is not whitespace.
pub open spec fn trimmed_away(s: Seq<char>) -> int {
    s.len() - trim_start(s).len()
}

pub proof fn lemma_trim_start_cut(s: Seq<char>)
    ensures
        0 <= trimmed_away(s) <= s.len(),
        trim_start(s) == s.skip(trimmed_away(s)),
        forall|i: int| 0 <= i < trimmed_away(s) ==> is_white(#[trigger] s[i]),
        trim_start(s).len() > 0 ==> !is_white(trim_start(s)[0]),
    decreases s.len(),
{
    lemma_trim_start_suffix(s);
    if s.len() > 0 && is_white(s[0]) {
        let t = s.drop_first();
        lemma_trim_start_cut(t);
        assert forall|i: int| 0 <= i < trimmed_away(s) implies is_white(#[trigger] s[i]) by {
            if i > 0 {
                assert(s[i] == t[i - 1]);
            }
        }
    }
}

pub proof fn lemma_trim_end_cut(s: Seq<char>)
    ensures
        trim_end(s).len() <= s.len(),
        trim_end(s) == s.take(trim_end(s).len() as int),
        forall|i: int| trim_end(s).len() <= i < s.len() ==> is_white(#[trigger] s[i]),
        trim_end(s).len() > 0 ==> !is_white(trim_end(s).last()),
    decreases s.len(),
{
    if s.len() > 0 && is_white(s.last()) {
        let t = s.drop_last();
        lemma_trim_end_cut(t);
        assert(trim_end(s) =~= s.take(trim_end(s).len() as int));
        assert forall|i: int| trim_end(s).len() <= i < s.len() implies is_white(#[trigger] s[i]) by {
            if i < s.len() - 1 {
                assert(s[i] == t[i]);
            }
        }
    } else {
        assert(s =~= s.take(s.len() as int));
    }
}

/// Trimming takes whitespace away at both ends, and nothing else: what is not
/// whitespace stays, in its order.
pub proof fn law_trim_takes_whitespace_alone(s: Seq<char>)
    ensures
        ({
            let a = trimmed_away(s);
            let t = trim(s);
            &&& 0 <= a && a + t.len() <= s.len()
            &&& t == s.subrange(a, a + t.len())
            &&& forall|i: int| 0 <= i < a ==> is_white(#[trigger] s[i])
            &&& t.len() > 0 ==> !is_white(t[0]) && !is_white(t.last())
            &&& forall|i: int| a + t.len() <= i < s.len() ==> is_white(#[trigger] s[i])
        }),
{
    lemma_trim_start_cut(s);
    let u = trim_start(s);
    lemma_trim_end_cut(u);
    let a = trimmed_away(s);
    let t = trim(s);
    assert(t =~= s.subrange(a, a + t.len()));
    assert forall|i: int| a + t.len() <= i < s.len() implies is_white(#[trigger] s[i]) by {
        assert(s[i] == u[i - a]);
    }
    if t.len() > 0 {
        assert(t[0] == u[0]);
    }
}

/// What is not whitespace is still there.
pub proof fn lemma_trim_holds(s: Seq<char>, i: int)
    requires
        0 <= i < s.len(),
        !is_white(s[i]),
    ensures
        trimmed_away(s) <= i < trimmed_away(s) + trim(s).len(),
        trim(s)[i - trimmed_away(s)] == s[i],
{
    law_trim_takes_whitespace_alone(s);
}

/// Two cuts at solid ends of the same text are the same.
pub proof fn lemma_trim_is(s: Seq<char>, a: int, t: Seq<char>)
    requires
        0 <= a,
        a + t.len() <= s.len(),
        t == s.subrange(a, a + t.len()),
        t.len() > 0 ==> !is_white(t[0]) && !is_white(t.last()),
        forall|i: int| 0 <= i < a ==> is_white(#[trigger] s[i]),
        forall|i: int| a + t.len() <= i < s.len() ==> is_white(#[trigger] s[i]),
    ensures
        trim(s) == t,
{
    law_trim_takes_whitespace_alone(s);
    let b = trimmed_away(s);
    let u = trim(s);
    if t.len() == 0 {
        if u.len() > 0 {
            assert(u[0] == s[b]);
        }
        assert(u =~= t);
    } else {
        assert(t[0] == s[a]);
        assert(t.last() == s[a + t.len() - 1]);
        lemma_trim_holds(s, a);
        lemma_trim_holds(s, a + t.len() - 1);
        assert(u[0] == s[b]);
        assert(u.last() == s[b + u.len() - 1]);
        assert(a == b);
        assert(u.len() == t.len());
        assert(u =~= t);
    }
}

pub proof fn lemma_trim_around(a: Seq<char>, c: Seq<char>, b: Seq<char>)
    requires
        is_blank(a),
        is_blank(b),
    ensures
        trim(a + c + b) == trim(c),
{
    law_trim_takes_whitespace_alone(c);
    let s = a + c + b;
    let t = trim(c);
    let k = trimmed_away(c);
    let n = a.len() + k;
    assert(t =~= s.subrange(n, n + t.len()));
    assert forall|i: int| 0 <= i < n implies is_white(#[trigger] s[i]) by {
        if i < a.len() {
            assert(s[i] == a[i]);
        } else {
            assert(s[i] == c[i - a.len()]);
        }
    }
    assert forall|i: int| n + t.len() <= i < s.len() implies is_white(#[trigger] s[i]) by {
        if i < a.len() + c.len() {
            assert(s[i] == c[i - a.len()]);
        } else {
            assert(s[i] == b[i - a.len() - c.len()]);
        }
    }
    lemma_trim_is(s, n, t);
}

} // verus!
