//! What the answers to the prompts of a patch-mode session do.

use vstd::prelude::*;

use super::edit;
use super::edit::EditedModel;
use super::model;
use super::model::{FileModel, HunkModel, HunkUse};
use super::session;
use super::session::{
    EventModel, OptionsModel, RequestModel, SessionAction, SessionModel,
};
use crate::text;

verus! {

/// Whether a line of input is one letter, however the line ends.
pub open spec fn is_key(line: Seq<char>, key: char) -> bool {
    ||| line == seq![key]
    ||| line == seq![key, '\n']
    ||| line == seq![key, '\r', '\n']
}

proof fn lemma_key(line: Seq<char>, key: char)
    requires
        is_key(line, key),
        key != '\n',
        key != '\r',
    ensures
        text::trim_line_end(line) == seq![key],
{
    reveal_with_fuel(text::trim_line_end, 4);
    assert(seq![key, '\n'].drop_last() =~= seq![key]);
    assert(seq![key, '\r', '\n'].drop_last() =~= seq![key, '\r']);
    assert(seq![key, '\r'].drop_last() =~= seq![key]);
}

/// Whether a session asks about a hunk.
pub open spec fn asks(s: SessionModel) -> bool {
    s.running() && s.phase is Answer && s.cursor() < s.file().hunks.len()
}

/// The file that was asked about, once the line was answered.
pub open spec fn file_after(s: SessionModel, o: OptionsModel, line: Seq<char>) -> FileModel {
    s.step(o, EventModel::Line(line)).session.files[s.file_index()]
}

/// The hunk with a decision.
pub open spec fn decided(h: HunkModel, d: HunkUse) -> HunkModel {
    HunkModel { use_decision: d, ..h }
}

proof fn lemma_proceed_keeps(s: SessionModel, t: SessionModel, o: OptionsModel, i: int)
    requires
        t.files.len() == s.files.len(),
        t.cursors.len() == t.files.len(),
        0 <= i < t.files.len(),
        t.files[i].hunks.len() > 0,
        t.sel < t.selectable.len() ==> 0 <= t.sel && 0 <= t.file_index() < t.files.len(),
    ensures
        t.proceed(o).session.files[i] == t.files[i],
        t.proceed(o).session.sel == t.sel,
        t.proceed(o).session.selectable == t.selectable,
        t.sel >= t.selectable.len() ==> t.proceed(o).request == RequestModel::Finish(
            SessionAction::Continue,
        ),
        t.sel < t.selectable.len() ==> t.proceed(o).request is Line
            && t.proceed(o).session.phase is Answer,
        t.sel < t.selectable.len() && t.file_index() == i && 0 <= t.cursors[i]
            < t.files[i].hunks.len() ==> t.proceed(o).session.cursors[i] == t.cursors[i],
{
}

/// `y` takes the hunk and `n` leaves it; neither decides of another hunk of the
/// file. `a` takes, and `d` leaves, the hunk and all behind it.
pub proof fn law_keys_decide(s: SessionModel, o: OptionsModel, line: Seq<char>, i: int)
    requires
        asks(s),
        0 <= i < s.file().hunks.len(),
    ensures
        is_key(line, 'y') ==> file_after(s, o, line).hunks[i] == if i == s.cursor() {
            decided(s.file().hunks[i], HunkUse::Use)
        } else {
            s.file().hunks[i]
        },
        is_key(line, 'n') ==> file_after(s, o, line).hunks[i] == if i == s.cursor() {
            decided(s.file().hunks[i], HunkUse::Skip)
        } else {
            s.file().hunks[i]
        },
        is_key(line, 'a') ==> file_after(s, o, line).hunks[i] == if i >= s.cursor() {
            decided(s.file().hunks[i], HunkUse::Use)
        } else {
            s.file().hunks[i]
        },
        is_key(line, 'd') ==> file_after(s, o, line).hunks[i] == if i >= s.cursor() {
            decided(s.file().hunks[i], HunkUse::Skip)
        } else {
            s.file().hunks[i]
        },
{
    reveal(SessionModel::step);
    reveal(SessionModel::answer);
    let f = s.file();
    let c = s.cursor();
    let k = s.file_index();
    if is_key(line, 'y') {
        lemma_key(line, 'y');
        let t = s.with_file(session::with_decision(f, c, HunkUse::Use)).advanced(o);
        lemma_next(s, t);
        lemma_proceed_keeps(s, t, o, k);
    }
    if is_key(line, 'n') {
        lemma_key(line, 'n');
        let t = s.with_file(session::with_decision(f, c, HunkUse::Skip)).advanced(o);
        lemma_next(s, t);
        lemma_proceed_keeps(s, t, o, k);
    }
    if is_key(line, 'a') {
        lemma_key(line, 'a');
        let t = s.decide_rest(o, HunkUse::Use);
        lemma_next(s, t);
        lemma_proceed_keeps(s, t, o, k);
    }
    if is_key(line, 'd') {
        lemma_key(line, 'd');
        let t = s.decide_rest(o, HunkUse::Skip);
        lemma_next(s, t);
        lemma_proceed_keeps(s, t, o, k);
    }
}

proof fn lemma_next(s: SessionModel, t: SessionModel)
    requires
        s.wf(),
        t.selectable == s.selectable,
        t.files.len() == s.files.len(),
        t.sel == s.sel || t.sel == s.sel + 1,
    ensures
        t.sel < t.selectable.len() ==> 0 <= t.sel && 0 <= t.file_index() < t.files.len(),
{
    if t.sel < t.selectable.len() {
        assert(0 <= s.selectable[t.sel] < s.files.len());
    }
}

/// Where an answer that decides leads with auto-advance: `y` and `n` to the
/// next hunk, behind the last one to the next file; `a` and `d` to the next
/// file at once. Behind the last file the session is over. Without auto-advance
/// the session stays where it is.
pub proof fn law_decisions_lead_on(s: SessionModel, o: OptionsModel, line: Seq<char>, key: char)
    requires
        asks(s),
        is_key(line, key),
        key == 'y' || key == 'n' || key == 'a' || key == 'd',
    ensures
        ({
            let r = s.step(o, EventModel::Line(line));
            let more = (key == 'y' || key == 'n') && s.cursor() + 1 < s.file().hunks.len();
            if !o.auto_advance {
                r.request is Line && r.session.sel == s.sel && r.session.cursors[s.file_index()]
                    == s.cursor()
            } else if more {
                r.request is Line && r.session.sel == s.sel && r.session.cursors[s.file_index()]
                    == s.cursor() + 1
            } else if s.sel + 1 < s.selectable.len() {
                r.request is Line && r.session.sel == s.sel + 1
            } else {
                r.request == RequestModel::Finish(SessionAction::Continue)
            }
        }),
{
    reveal(SessionModel::step);
    reveal(SessionModel::answer);
    lemma_key(line, key);
    let f = s.file();
    let c = s.cursor();
    let k = s.file_index();
    let d = if key == 'y' || key == 'a' {
        HunkUse::Use
    } else {
        HunkUse::Skip
    };
    let t = if key == 'y' || key == 'n' {
        s.with_file(session::with_decision(f, c, d)).advanced(o)
    } else {
        s.decide_rest(o, d)
    };
    lemma_next(s, t);
    lemma_proceed_keeps(s, t, o, k);
}

/// Moving decides nothing: `j`, `k`, `J`, `K`, `p`, `P`, `?` and `q` leave every
/// hunk of the file as it is.
pub proof fn law_moves_decide_nothing(s: SessionModel, o: OptionsModel, line: Seq<char>, key: char)
    requires
        asks(s),
        is_key(line, key),
        key == 'j' || key == 'k' || key == 'J' || key == 'K' || key == 'p' || key == 'P' || key
            == '?' || key == 'q',
    ensures
        file_after(s, o, line) == s.file(),
{
    reveal(SessionModel::step);
    reveal(SessionModel::answer);
    lemma_key(line, key);
    let k = s.file_index();
    lemma_next(s, s);
    lemma_proceed_keeps(s, s, o, k);
    if key == 'j' || key == 'k' {
        let from = if key == 'j' {
            s.cursor() + 1
        } else {
            s.cursor() - 1
        };
        if let Some(i) = session::next_undecided(s.file().hunks, from, key == 'j') {
            lemma_proceed_keeps(s, s.with_cursor(i), o, k);
        }
    }
    lemma_proceed_keeps(s, s.with_cursor(s.cursor() + 1), o, k);
    lemma_proceed_keeps(s, s.with_cursor(s.cursor() - 1), o, k);
}

/// `q` ends the session at once, and so does the end of the input.
pub proof fn law_quitting_ends_the_session(s: SessionModel, o: OptionsModel, line: Seq<char>)
    requires
        asks(s),
        is_key(line, 'q'),
    ensures
        s.step(o, EventModel::Line(line)).request == RequestModel::Finish(SessionAction::Quit),
        s.step(o, EventModel::EndOfInput).request == RequestModel::Finish(SessionAction::Quit),
        s.step(o, EventModel::Line(line)).session.files == s.files,
{
    reveal(SessionModel::step);
    reveal(SessionModel::answer);
    lemma_key(line, 'q');
}

/// Whether a hunk is undecided.
pub open spec fn is_undecided(f: FileModel, i: int) -> bool {
    0 <= i < f.hunks.len() && f.hunks[i].use_decision == HunkUse::Undecided
}

proof fn lemma_next_undecided(hunks: Seq<HunkModel>, i: int, forward: bool)
    ensures
        ({
            let r = session::next_undecided(hunks, i, forward);
            match r {
                Some(k) => {
                    &&& 0 <= k < hunks.len()
                    &&& hunks[k].use_decision is Undecided
                    &&& if forward {
                        i <= k && forall|j: int|
                            i <= j < k ==> !((#[trigger] hunks[j]).use_decision is Undecided)
                    } else {
                        k <= i && forall|j: int|
                            k < j <= i ==> !((#[trigger] hunks[j]).use_decision is Undecided)
                    }
                },
                None => if forward {
                    i >= 0 ==> forall|j: int|
                        i <= j < hunks.len() ==> !((
                        #[trigger] hunks[j]).use_decision is Undecided)
                } else {
                    i < hunks.len() ==> forall|j: int|
                        0 <= j <= i ==> !((#[trigger] hunks[j]).use_decision is Undecided)
                },
            }
        }),
    decreases (if forward { hunks.len() - i } else { i + 1 }),
{
    if 0 <= i < hunks.len() && !(hunks[i].use_decision is Undecided) {
        if forward {
            lemma_next_undecided(hunks, i + 1, forward);
        } else {
            lemma_next_undecided(hunks, i - 1, forward);
        }
    }
}

/// `j` goes to the nearest undecided hunk behind, and `k` to the nearest one
/// before; where there is none they stay.
pub proof fn law_undecided_hunks_are_reached(
    s: SessionModel,
    o: OptionsModel,
    line: Seq<char>,
    key: char,
)
    requires
        asks(s),
        is_key(line, key),
        key == 'j' || key == 'k',
    ensures
        ({
            let r = s.step(o, EventModel::Line(line));
            let c = s.cursor();
            let to = r.session.cursors[s.file_index()];
            &&& r.request is Line
            &&& r.session.sel == s.sel
            &&& to == c || (is_undecided(s.file(), to) && if key == 'j' {
                to > c
            } else {
                to < c
            })
            &&& forall|i: int| #[trigger]
                is_undecided(s.file(), i) ==> if key == 'j' {
                    i > c ==> c < to <= i
                } else {
                    i < c ==> i <= to < c
                }
        }),
{
    reveal(SessionModel::step);
    reveal(SessionModel::answer);
    lemma_key(line, key);
    let c = s.cursor();
    let k = s.file_index();
    let from = if key == 'j' {
        c + 1
    } else {
        c - 1
    };
    lemma_next_undecided(s.file().hunks, from, key == 'j');
    lemma_next(s, s);
    lemma_proceed_keeps(s, s, o, k);
    if let Some(i) = session::next_undecided(s.file().hunks, from, key == 'j') {
        lemma_proceed_keeps(s, s.with_cursor(i), o, k);
    }
}

/// `J` goes to the next hunk and `K` to the one before, whatever was decided;
/// at the ends they stay.
pub proof fn law_neighbours_are_reached(s: SessionModel, o: OptionsModel, line: Seq<char>)
    requires
        asks(s),
        is_key(line, 'J') || is_key(line, 'K'),
    ensures
        ({
            let r = s.step(o, EventModel::Line(line));
            let c = s.cursor();
            let to = r.session.cursors[s.file_index()];
            &&& r.request is Line
            &&& r.session.sel == s.sel
            &&& is_key(line, 'J') ==> to == if c + 1 < s.file().hunks.len() {
                c + 1
            } else {
                c
            }
            &&& is_key(line, 'K') ==> to == if c > 0 {
                c - 1
            } else {
                c
            }
        }),
{
    reveal(SessionModel::step);
    reveal(SessionModel::answer);
    if is_key(line, 'J') {
        lemma_key(line, 'J');
        assert(line[0] == 'J');
    } else {
        lemma_key(line, 'K');
        assert(line[0] == 'K');
    }
    let k = s.file_index();
    lemma_next(s, s);
    lemma_proceed_keeps(s, s, o, k);
    lemma_proceed_keeps(s, s.with_cursor(s.cursor() + 1), o, k);
    lemma_proceed_keeps(s, s.with_cursor(s.cursor() - 1), o, k);
}

/// Without auto-advance `>` goes to the next file and `<` to the one before,
/// round the list, so that each undoes the other.
pub proof fn law_files_are_reached(s: SessionModel, o: OptionsModel, line: Seq<char>)
    requires
        asks(s),
        !o.auto_advance,
        s.selectable.len() > 1,
        is_key(line, '>') || is_key(line, '<'),
    ensures
        ({
            let r = s.step(o, EventModel::Line(line));
            let n = s.selectable.len() as int;
            &&& r.request is Line
            &&& is_key(line, '>') ==> r.session.sel == if s.sel + 1 == n {
                0
            } else {
                s.sel + 1
            }
            &&& is_key(line, '<') ==> r.session.sel == if s.sel == 0 {
                n - 1
            } else {
                s.sel - 1
            }
        }),
{
    reveal(SessionModel::step);
    reveal(SessionModel::answer);
    let n = s.selectable.len() as int;
    if is_key(line, '>') {
        lemma_key(line, '>');
        assert(line[0] == '>');
        if s.sel + 1 == n {
            assert((s.sel + 1) % n == 0) by (nonlinear_arith)
                requires
                    s.sel + 1 == n,
                    n > 1,
            ;
        } else {
            assert((s.sel + 1) % n == s.sel + 1) by (nonlinear_arith)
                requires
                    0 <= s.sel + 1 < n,
            ;
        }
    } else {
        lemma_key(line, '<');
        assert(line[0] == '<');
        if s.sel == 0 {
            assert((s.sel + (n - 1)) % n == n - 1) by (nonlinear_arith)
                requires
                    s.sel == 0,
                    n > 1,
            ;
        } else {
            assert((s.sel + (n - 1)) % n == s.sel - 1) by (nonlinear_arith)
                requires
                    0 < s.sel < n,
            ;
        }
    }
}

/// `g` and a number goes to the hunk of that number, counted from one; a number
/// that no hunk has leads nowhere.
pub proof fn law_numbered_hunk_is_reached(s: SessionModel, o: OptionsModel, n: nat)
    requires
        asks(s),
        s.file().hunks.len() > 1,
        n <= usize::MAX,
    ensures
        ({
            let line = seq!['g'] + text::decimal(n) + seq!['\n'];
            let r = s.step(o, EventModel::Line(line));
            &&& r.request is Line
            &&& r.session.sel == s.sel
            &&& r.session.cursors[s.file_index()] == if 1 <= n <= s.file().hunks.len() {
                n - 1
            } else {
                s.cursor()
            }
            &&& r.session.files[s.file_index()] == s.file()
        }),
{
    reveal(SessionModel::step);
    reveal(SessionModel::answer);
    reveal_with_fuel(text::trim_line_end, 2);
    let d = text::decimal(n);
    let line = seq!['g'] + d + seq!['\n'];
    text::lemma_decimal_digits(n);
    text::lemma_decimal_round_trip(n, usize::MAX as int);
    assert(line.drop_last() =~= seq!['g'] + d);
    let a = seq!['g'] + d;
    assert(a.last() == d.last());
    assert(0 <= text::digit_value(d[d.len() - 1]) < 10);
    assert(0 <= text::digit_value(d[0]) < 10);
    assert(text::trim_line_end(line) == a);
    assert(a.drop_first() =~= d);
    assert(d =~= d.subrange(0, d.len() as int));
    text::lemma_trim_is(d, 0, d);
    let k = s.file_index();
    lemma_next(s, s);
    lemma_proceed_keeps(s, s, o, k);
    lemma_proceed_keeps(s, s.with_cursor(n - 1), o, k);
}

spec fn found_at(hunks: Seq<HunkModel>, c: int, p: Seq<char>, j: int) -> bool {
    let i = (c + 1 + j) % (hunks.len() as int);
    i != c && session::regex_search(p, session::search_text(hunks[i])) == Some(true)
}

proof fn lemma_found(hunks: Seq<HunkModel>, c: int, p: Seq<char>, k: int)
    requires
        0 <= c < hunks.len(),
        0 <= k,
    ensures
        session::found_from(hunks, c, p, k) matches Some(i) ==> 0 <= i < hunks.len() && i != c
            && session::regex_search(p, session::search_text(hunks[i])) == Some(true),
        session::found_from(hunks, c, p, k) is None ==> forall|j: int|
            k <= j < hunks.len() ==> !#[trigger] found_at(hunks, c, p, j),
    decreases hunks.len() - k,
{
    if k < hunks.len() {
        let n = hunks.len() as int;
        assert(0 <= (c + 1 + k) % n < n) by (nonlinear_arith)
            requires
                n > 0,
        ;
        lemma_found(hunks, c, p, k + 1);
    }
}

proof fn lemma_search_words(p: Seq<char>)
    requires
        text::is_word(p),
    ensures
        text::trim_line_end(seq!['/'] + p + seq!['\n']) == seq!['/'] + p,
        (seq!['/'] + p).drop_first() == p,
        text::trim(p) == p,
{
    reveal_with_fuel(text::trim_line_end, 2);
    let line = seq!['/'] + p + seq!['\n'];
    let a = seq!['/'] + p;
    assert(line.drop_last() =~= a);
    assert(a.last() == p[p.len() - 1]);
    assert(!text::is_white(p[p.len() - 1]) && !text::is_white(p[0]));
    assert(text::trim_line_end(line) == a);
    assert(a.drop_first() =~= p);
    assert(p =~= p.subrange(0, p.len() as int));
    text::lemma_trim_is(p, 0, p);
}

proof fn lemma_search_line(s: SessionModel, o: OptionsModel, p: Seq<char>)
    requires
        asks(s),
        s.file().hunks.len() > 1,
        text::is_word(p),
    ensures
        s.step(o, EventModel::Line(seq!['/'] + p + seq!['\n'])) == s.search_for(o, p),
{
    let line = seq!['/'] + p + seq!['\n'];
    let a = seq!['/'] + p;
    lemma_search_words(p);
    assert(a[0] == '/');
    assert(s.step(o, EventModel::Line(line)) == s.answer(o, a)) by {
        reveal(SessionModel::step);
    }
    assert(s.answer(o, a) == s.search_answer(o, a)) by {
        reveal(SessionModel::answer);
    }
}

proof fn lemma_none_found(hunks: Seq<HunkModel>, c: int, p: Seq<char>, i: int)
    requires
        0 <= c < hunks.len(),
        0 <= i < hunks.len(),
        i != c,
        session::found_from(hunks, c, p, 0) is None,
    ensures
        session::regex_search(p, session::search_text(hunks[i])) != Some(true),
{
    let n = hunks.len() as int;
    let j = if i > c {
        i - c - 1
    } else {
        i - c - 1 + n
    };
    lemma_found(hunks, c, p, 0);
    assert((c + 1 + j) % n == i) by (nonlinear_arith)
        requires
            0 <= i < n,
            c + 1 + j == i || c + 1 + j == i + n,
    ;
    assert(!found_at(hunks, c, p, j));
}

/// `/` and a pattern goes to another hunk that the pattern is found in, where
/// there is one.
pub proof fn law_pattern_is_found(s: SessionModel, o: OptionsModel, p: Seq<char>)
    requires
        asks(s),
        s.file().hunks.len() > 1,
        text::is_word(p),
    ensures
        ({
            let line = seq!['/'] + p + seq!['\n'];
            let r = s.step(o, EventModel::Line(line));
            let to = r.session.cursors[s.file_index()];
            &&& r.request is Line
            &&& r.session.sel == s.sel
            &&& r.session.files[s.file_index()] == s.file()
            &&& to != s.cursor() ==> session::regex_search(
                p,
                session::search_text(s.file().hunks[to]),
            ) == Some(true)
            &&& forall|i: int|
                0 <= i < s.file().hunks.len() && i != s.cursor() && session::regex_search(
                    p,
                    #[trigger] session::search_text(s.file().hunks[i]),
                ) == Some(true) ==> to != s.cursor()
        }),
{
    let hunks = s.file().hunks;
    let c = s.cursor();
    let k = s.file_index();
    lemma_search_line(s, o, p);
    lemma_next(s, s);
    lemma_proceed_keeps(s, s, o, k);
    lemma_found(hunks, c, p, 0);
    match session::found_from(hunks, c, p, 0) {
        Some(i) => {
            lemma_proceed_keeps(s, s.with_cursor(i), o, k);
        },
        None => {
            assert forall|i: int|
                0 <= i < hunks.len() && i != c implies session::regex_search(
                p,
                #[trigger] session::search_text(hunks[i]),
            ) != Some(true) by {
                lemma_none_found(hunks, c, p, i);
            }
        },
    }
}

//// Splitting and editing

/// `s` puts the parts of a hunk in its place, each undecided, and leaves the
/// other hunks; one that cannot be split stays.
pub proof fn law_split_hunk_is_replaced_by_its_parts(
    s: SessionModel,
    o: OptionsModel,
    line: Seq<char>,
)
    requires
        asks(s),
        is_key(line, 's'),
    ensures
        ({
            let f = s.file();
            let c = s.cursor();
            let g = file_after(s, o, line);
            match model::split_pieces(f.hunks[c]) {
                Some(parts) => if model::numbers_fit(f.hunks[c]) {
                    &&& g.hunks == f.hunks.take(c) + parts + f.hunks.skip(c + 1)
                    &&& parts.len() > 1
                    &&& forall|k: int|
                        0 <= k < parts.len() ==> (#[trigger] parts[k]).use_decision
                            == HunkUse::Undecided
                } else {
                    g == f
                },
                None => g == f,
            }
        }),
{
    reveal(SessionModel::step);
    reveal(SessionModel::answer);
    lemma_key(line, 's');
    let f = s.file();
    let c = s.cursor();
    let k = s.file_index();
    lemma_next(s, s);
    lemma_proceed_keeps(s, s, o, k);
    if session::can_split(f.hunks[c]) {
        let parts = model::split_pieces(f.hunks[c])->0;
        let g = FileModel { hunks: f.hunks.take(c) + parts + f.hunks.skip(c + 1), ..f };
        lemma_next(s, s.with_file(g));
        lemma_proceed_keeps(s, s.with_file(g), o, k);
    }
}

/// `e` hands the hunk to the editor, where it can be edited and there is one.
pub proof fn law_editor_gets_the_hunk(s: SessionModel, o: OptionsModel, line: Seq<char>)
    requires
        asks(s),
        is_key(line, 'e'),
    ensures
        ({
            let r = s.step(o, EventModel::Line(line));
            let h = s.file().hunks[s.cursor()];
            &&& r.request is Edit <==> o.editor is Some && !s.file().deleted && (h.header.len() > 0
                || h.lines.len() > 0)
            &&& r.request matches RequestModel::Edit(t) ==> t == edit::edit_buffer(h)
            &&& r.session.files[s.file_index()] == s.file()
        }),
{
    reveal(SessionModel::step);
    reveal(SessionModel::answer);
    lemma_key(line, 'e');
    lemma_next(s, s);
    lemma_proceed_keeps(s, s, o, s.file_index());
}

/// An edited hunk takes the place of the hunk and is taken, where it applies;
/// an edit that left nothing changes nothing, and one that cannot be read or
/// does not apply changes nothing yet, but is asked about.
pub proof fn law_edited_hunk_is_taken(s: SessionModel, o: OptionsModel, t: Seq<char>, i: int)
    requires
        s.running(),
        s.phase is Edit,
        0 <= i < s.file().hunks.len(),
    ensures
        ({
            let r = s.step(o, EventModel::Edited(t));
            let f = s.file();
            let c = s.cursor();
            let g = r.session.files[s.file_index()];
            match edit::edited(t, f.hunks[c]) {
                Ok(EditedModel::Hunk(h)) => if s.edit_applies(o, h) {
                    g.hunks[i] == if i == c {
                        decided(h, HunkUse::Use)
                    } else {
                        f.hunks[i]
                    }
                } else {
                    g == f && r.session.phase is Retry && r.request is Line
                },
                Ok(EditedModel::Abandoned) => g == f && !(r.session.phase is Retry),
                Err(_) => g == f && r.session.phase is Retry && r.request is Line,
            }
        }),
{
    reveal(SessionModel::step);
    let f = s.file();
    let c = s.cursor();
    let k = s.file_index();
    lemma_next(s, s);
    lemma_proceed_keeps(s, s, o, k);
    if let Ok(EditedModel::Hunk(h)) = edit::edited(t, f.hunks[c]) {
        let u = s.with_file(edit::with_trial(f, c, h)).advanced(o);
        lemma_next(s, u);
        lemma_proceed_keeps(s, u, o, k);
    }
}

/// Whether to edit again: `n` gives the edit up and leaves the hunk as it was,
/// `y` hands it to the editor once more, and anything else is asked again.
pub proof fn law_retry_is_answered(s: SessionModel, o: OptionsModel, line: Seq<char>)
    requires
        s.running(),
        s.phase is Retry,
    ensures
        ({
            let r = s.step(o, EventModel::Line(line));
            let no = line.len() > 0 && (line[0] == 'n' || line[0] == 'N');
            let yes = line.len() > 0 && (line[0] == 'y' || line[0] == 'Y');
            &&& r.session.files[s.file_index()] == s.file()
            &&& no ==> r.session.phase is Answer && r.request is Line
            &&& yes ==> r.request == RequestModel::Edit(
                edit::edit_buffer(s.file().hunks[s.cursor()]),
            )
            &&& !no && !yes ==> r.session.phase is Retry && r.request is Line
        }),
{
    reveal(SessionModel::step);
    lemma_next(s, s);
    lemma_proceed_keeps(s, s, o, s.file_index());
}

//// Which files are asked about

proof fn lemma_selectable(files: Seq<FileModel>, n: int)
    requires
        0 <= n <= files.len(),
    ensures
        forall|i: int|
            session::selectable_files(files, n).contains(i) <==> 0 <= i < n && !files[i].binary,
        forall|a: int, b: int|
            0 <= a < b < session::selectable_files(files, n).len() ==> session::selectable_files(
                files,
                n,
            )[a] < session::selectable_files(files, n)[b],
    decreases n,
{
    if n > 0 {
        lemma_selectable(files, n - 1);
        let front = session::selectable_files(files, n - 1);
        let all = session::selectable_files(files, n);
        if !files[n - 1].binary {
            assert(all[front.len() as int] == n - 1);
            assert forall|i: int| all.contains(i) <==> 0 <= i < n && !files[i].binary by {
                if front.contains(i) {
                    let a = choose|a: int| 0 <= a < front.len() && front[a] == i;
                    assert(all[a] == i);
                }
                if all.contains(i) && i != n - 1 {
                    let a = choose|a: int| 0 <= a < all.len() && all[a] == i;
                    assert(front[a] == i);
                }
            }
            assert forall|a: int, b: int| 0 <= a < b < all.len() implies all[a] < all[b] by {
                if b == front.len() {
                    assert(front.contains(front[a]));
                }
            }
        }
    } else {
        assert(forall|i: int| !session::selectable_files(files, n).contains(i));
    }
}

/// Every file that is no binary one is asked about, in its order, the first of
/// them first; where there is none the session is over at once.
pub proof fn law_every_text_file_is_asked_about(files: Seq<FileModel>, o: OptionsModel)
    ensures
        ({
            let r = session::opening(files, o);
            &&& forall|i: int|
                r.session.selectable.contains(i) <==> 0 <= i < files.len() && !files[i].binary
            &&& forall|a: int, b: int|
                0 <= a < b < r.session.selectable.len() ==> r.session.selectable[a]
                    < r.session.selectable[b]
            &&& r.session.sel == 0
            &&& r.request is Line <==> exists|i: int| 0 <= i < files.len() && !(
            #[trigger] files[i]).binary
            &&& r.request is Line || r.request == RequestModel::Finish(SessionAction::Quit)
        }),
{
    lemma_selectable(files, files.len() as int);
    let all = session::selectable_files(files, files.len() as int);
    if all.len() > 0 {
        assert(all.contains(all[0]));
        assert(!files[all[0]].binary);
    }
    if exists|i: int| 0 <= i < files.len() && !(#[trigger] files[i]).binary {
        let i = choose|i: int| 0 <= i < files.len() && !(#[trigger] files[i]).binary;
        assert(all.contains(i));
    }
}

/// A file that changed without any hunk gets one to ask about, with no lines
/// and undecided; every other file stays as it is.
pub proof fn law_change_without_hunks_is_asked_about(f: FileModel)
    ensures
        f.hunks.len() == 0 && (f.added || f.deleted || f.mode_change) ==> {
            let g = session::with_slot(f);
            &&& g.hunks.len() == 1
            &&& g.hunks[0].lines.len() == 0
            &&& g.hunks[0].use_decision == HunkUse::Undecided
            &&& g == FileModel { hunks: g.hunks, ..f }
        },
        f.hunks.len() > 0 || !(f.added || f.deleted || f.mode_change) ==> session::with_slot(f)
            == f,
{
}

//// What is offered

proof fn lemma_in_either(a: Seq<char>, b: Seq<char>, c: char)
    ensures
        (a + b).contains(c) <==> a.contains(c) || b.contains(c),
{
    if a.contains(c) {
        let i = choose|i: int| 0 <= i < a.len() && a[i] == c;
        assert((a + b)[i] == c);
    }
    if b.contains(c) {
        let i = choose|i: int| 0 <= i < b.len() && b[i] == c;
        assert((a + b)[a.len() + i] == c);
    }
    if (a + b).contains(c) {
        let i = choose|i: int| 0 <= i < (a + b).len() && (a + b)[i] == c;
        if i < a.len() {
            assert(a[i] == c);
        } else {
            assert(b[i - a.len()] == c);
        }
    }
}

/// One letter behind a comma.
proof fn lemma_one(s: Seq<char>, x: char, c: char)
    requires
        s.len() == 2,
        s[0] == ',',
        s[1] == x,
    ensures
        s.contains(c) <==> c == ',' || c == x,
{
}

/// Two letters behind commas.
proof fn lemma_two(s: Seq<char>, x: char, y: char, c: char)
    requires
        s.len() == 4,
        s[0] == ',',
        s[1] == x,
        s[2] == ',',
        s[3] == y,
    ensures
        s.contains(c) <==> c == ',' || c == x || c == y,
{
}

proof fn lemma_pieces(c: char)
    ensures
        ",k"@.contains(c) <==> c == ',' || c == 'k',
        ",K"@.contains(c) <==> c == ',' || c == 'K',
        ",j"@.contains(c) <==> c == ',' || c == 'j',
        ",J"@.contains(c) <==> c == ',' || c == 'J',
        ",s"@.contains(c) <==> c == ',' || c == 's',
        ",e"@.contains(c) <==> c == ',' || c == 'e',
        ",g,/"@.contains(c) <==> c == ',' || c == 'g' || c == '/',
        ",>,<"@.contains(c) <==> c == ',' || c == '>' || c == '<',
        ",p,P,?"@.contains(c) <==> c == ',' || c == 'p' || c == 'P' || c == '?',
        "y,n,q,a,d"@.contains(c) <==> c == ',' || c == 'y' || c == 'n' || c == 'q' || c == 'a' || c
            == 'd',
{
    reveal_strlit(",k");
    reveal_strlit(",K");
    reveal_strlit(",j");
    reveal_strlit(",J");
    reveal_strlit(",s");
    reveal_strlit(",e");
    reveal_strlit(",g,/");
    reveal_strlit(",>,<");
    reveal_strlit(",p,P,?");
    reveal_strlit("y,n,q,a,d");
    lemma_one(",k"@, 'k', c);
    lemma_one(",K"@, 'K', c);
    lemma_one(",j"@, 'j', c);
    lemma_one(",J"@, 'J', c);
    lemma_one(",s"@, 's', c);
    lemma_one(",e"@, 'e', c);
    lemma_two(",g,/"@, 'g', '/', c);
    lemma_two(",>,<"@, '>', '<', c);
    let t = ",p,P,?"@;
    assert(t.len() == 6 && t[0] == ',' && t[1] == 'p' && t[2] == ',' && t[3] == 'P' && t[4] == ','
        && t[5] == '?');
    let u = "y,n,q,a,d"@;
    assert(u.len() == 9 && u[0] == 'y' && u[1] == ',' && u[2] == 'n' && u[3] == ',' && u[4] == 'q'
        && u[5] == ',' && u[6] == 'a' && u[7] == ',' && u[8] == 'd');
}

/// Whether a prompt offers a letter: those that decide and print always, the
/// others where there is something for them to do.
pub open spec fn is_offered(
    c: char,
    hunk_index: int,
    hunk_count: int,
    later: bool,
    earlier: bool,
    auto_advance: bool,
    file_count: int,
    splittable: bool,
    editable: bool,
) -> bool {
    ||| c == 'y' || c == 'n' || c == 'q' || c == 'a' || c == 'd'
    ||| c == 'p' || c == 'P' || c == '?'
    ||| c == 'k' && hunk_index > 0 && earlier
    ||| c == 'K' && hunk_index > 0
    ||| c == 'j' && later
    ||| c == 'J' && hunk_index + 1 < hunk_count
    ||| (c == 'g' || c == '/') && hunk_count > 1
    ||| c == 's' && splittable
    ||| c == 'e' && editable
    ||| (c == '>' || c == '<') && !auto_advance && file_count > 1
}

/// A prompt offers the letters that can do something, and no others.
pub proof fn law_letters_that_work_are_offered(
    c: char,
    hunk_index: int,
    hunk_count: int,
    later: bool,
    earlier: bool,
    auto_advance: bool,
    file_count: int,
    splittable: bool,
    editable: bool,
)
    requires
        c != ',',
    ensures
        session::letters_text(
            hunk_index,
            hunk_count,
            later,
            earlier,
            auto_advance,
            file_count,
            splittable,
            editable,
        ).contains(c) <==> is_offered(
            c,
            hunk_index,
            hunk_count,
            later,
            earlier,
            auto_advance,
            file_count,
            splittable,
            editable,
        ),
{
    lemma_pieces(c);
    let a0 = "y,n,q,a,d"@;
    let b1 = session::only_if(hunk_index > 0 && earlier, ",k"@);
    let b2 = session::only_if(hunk_index > 0, ",K"@);
    let b3 = session::only_if(later, ",j"@);
    let b4 = session::only_if(hunk_index + 1 < hunk_count, ",J"@);
    let b5 = session::only_if(hunk_count > 1, ",g,/"@);
    let b6 = session::only_if(splittable, ",s"@);
    let b7 = session::only_if(editable, ",e"@);
    let b8 = session::only_if(!auto_advance && file_count > 1, ",>,<"@);
    let b9 = ",p,P,?"@;
    lemma_in_either(a0, b1, c);
    lemma_in_either(a0 + b1, b2, c);
    lemma_in_either(a0 + b1 + b2, b3, c);
    lemma_in_either(a0 + b1 + b2 + b3, b4, c);
    lemma_in_either(a0 + b1 + b2 + b3 + b4, b5, c);
    lemma_in_either(a0 + b1 + b2 + b3 + b4 + b5, b6, c);
    lemma_in_either(a0 + b1 + b2 + b3 + b4 + b5 + b6, b7, c);
    lemma_in_either(a0 + b1 + b2 + b3 + b4 + b5 + b6 + b7, b8, c);
    lemma_in_either(a0 + b1 + b2 + b3 + b4 + b5 + b6 + b7 + b8, b9, c);
    assert(!Seq::<char>::empty().contains(c));
}

/// What a file is asked as goes by what the patch does to it.
pub proof fn law_files_are_asked_as_what_they_are(f: FileModel)
    ensures
        session::prompt_of(f) is Deletion <==> f.deleted,
        !f.deleted && !f.mode_change && f.added ==> session::prompt_of(f) is Addition,
        !f.deleted && f.mode_change && f.hunks.len() == 0 ==> session::prompt_of(f) is ModeChange,
        !f.deleted && !f.mode_change && !f.added ==> session::prompt_of(f) is Hunk,
        !f.deleted && !f.added && (exists|i: int|
            0 <= i < f.hunks.len() && (#[trigger] f.hunks[i]).lines.len() > 0)
            ==> session::prompt_of(f) is Hunk,
{
    if exists|i: int| 0 <= i < f.hunks.len() && (#[trigger] f.hunks[i]).lines.len() > 0 {
        let i = choose|i: int| 0 <= i < f.hunks.len() && (#[trigger] f.hunks[i]).lines.len() > 0;
        assert(!session::is_synthetic(f.hunks[i]));
    }
}

/// The summary counts the hunks by what was decided on them.
pub proof fn law_summary_counts_decisions(hunks: Seq<HunkModel>, d: HunkUse)
    ensures
        session::decided_count(hunks, d) == hunks.filter(
            |h: HunkModel| h.use_decision == d,
        ).len(),
    decreases hunks.len(),
{
    reveal(Seq::filter);
    if hunks.len() > 0 {
        law_summary_counts_decisions(hunks.drop_last(), d);
    }
}

} // verus!
