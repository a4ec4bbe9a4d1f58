//! What an edited hunk says, and how a word is quoted for a shell.

use vstd::prelude::*;

use super::apply;
use super::apply_laws::{new_side, old_side};
use super::edit;
use super::edit::EditedModel;
use super::model;
use super::model::HunkModel;
use crate::text;

verus! {

//// Quoting

/// What a shell makes of a word: nothing has a meaning inside single quotes but
/// the quote that ends them, and outside them a backslash takes the meaning
/// from what follows it.
pub open spec fn shell_word(s: Seq<char>, quoted: bool) -> Option<Seq<char>>
    decreases s.len(),
{
    if s.len() == 0 {
        if quoted {
            None
        } else {
            Some(Seq::empty())
        }
    } else if s[0] == '\'' {
        shell_word(s.drop_first(), !quoted)
    } else if quoted {
        behind(s[0], shell_word(s.drop_first(), quoted))
    } else if s[0] == '\\' && s.len() > 1 {
        behind(s[1], shell_word(s.skip(2), quoted))
    } else {
        None
    }
}

/// A character before what was read.
pub open spec fn behind(c: char, rest: Option<Seq<char>>) -> Option<Seq<char>> {
    match rest {
        Some(t) => Some(seq![c] + t),
        None => None,
    }
}

proof fn lemma_replaced_front(v: Seq<char>, by: Seq<char>)
    requires
        v.len() > 0,
    ensures
        text::replace_char(v, '\'', by) == (if v[0] == '\'' {
            by
        } else {
            seq![v[0]]
        }) + text::replace_char(v.drop_first(), '\'', by),
    decreases v.len(),
{
    if v.len() == 1 {
        assert(v.drop_last() =~= Seq::<char>::empty());
        assert(v.drop_first() =~= Seq::<char>::empty());
        assert(text::replace_char(v, '\'', by) =~= (if v[0] == '\'' {
            by
        } else {
            seq![v[0]]
        }) + text::replace_char(v.drop_first(), '\'', by));
    } else {
        let front = v.drop_last();
        lemma_replaced_front(front, by);
        assert(v.drop_first().drop_last() =~= front.drop_first());
        assert(v.drop_first().last() == v.last());
        assert(text::replace_char(v, '\'', by) =~= (if v[0] == '\'' {
            by
        } else {
            seq![v[0]]
        }) + text::replace_char(v.drop_first(), '\'', by));
    }
}

proof fn lemma_quoted(v: Seq<char>)
    ensures
        shell_word(text::replace_char(v, '\'', "'\\''"@) + seq!['\''], true) == Some(v),
    decreases v.len(),
{
    reveal_strlit("'\\''");
    let by = "'\\''"@;
    assert(by =~= seq!['\'', '\\', '\'', '\'']);
    let s = text::replace_char(v, '\'', by) + seq!['\''];
    if v.len() == 0 {
        assert(s =~= seq!['\'']);
        assert(s.drop_first() =~= Seq::<char>::empty());
        assert(shell_word(Seq::<char>::empty(), false) == Some(Seq::<char>::empty()));
        assert(v =~= Seq::<char>::empty());
    } else {
        let rest = v.drop_first();
        lemma_quoted(rest);
        lemma_replaced_front(v, by);
        let t = text::replace_char(rest, '\'', by) + seq!['\''];
        assert(seq![v[0]] + rest =~= v);
        if v[0] == '\'' {
            assert(s =~= by + t);
            let s1 = s.drop_first();
            assert(s1 =~= seq!['\\', '\'', '\''] + t);
            let s2 = s1.skip(2);
            assert(s2 =~= seq!['\''] + t);
            assert(s2.drop_first() =~= t);
            assert(shell_word(s2, false) == Some(rest));
            assert(shell_word(s1, false) == behind('\'', Some(rest)));
            assert(shell_word(s, true) == shell_word(s1, false));
        } else {
            assert(s =~= seq![v[0]] + t);
            assert(s.drop_first() =~= t);
        }
    }
}

/// A quoted word is read by a shell as the word itself, whatever it holds.
pub proof fn law_quoted_word_is_read_back(value: &str, r: String)
    requires
        call_ensures(edit::shell_single_quote, (value,), r),
    ensures
        shell_word(r@, false) == Some(value@),
{
    lemma_quoted(value@);
    let t = text::replace_char(value@, '\'', "'\\''"@) + seq!['\''];
    assert(r@ =~= seq!['\''] + t);
    assert(r@.drop_first() =~= t);
}

//// Edited hunks

/// The counts of an edited hunk are those of the lines that the edit left, and
/// its header says so.
pub proof fn law_edited_hunk_counts_its_lines(t: Seq<char>, original: HunkModel)
    ensures
        edit::edited(t, original) matches Ok(EditedModel::Hunk(h)) ==> {
            &&& h.old_lines == old_side(h.lines).len()
            &&& h.new_lines == new_side(h.lines).len()
            &&& ("@@ -"@ + text::decimal(h.old_start as nat) + ","@ + text::decimal(
                old_side(h.lines).len(),
            ) + " +"@ + text::decimal(h.new_start as nat) + ","@ + text::decimal(
                new_side(h.lines).len(),
            ) + " @@"@).is_prefix_of(h.header)
        },
{
    if let Ok(EditedModel::Hunk(h)) = edit::edited(t, original) {
        apply::lemma_image_counts(h.lines);
        super::apply_laws::lemma_sides(h.lines);
        let plain = model::plain_header(h.old_start, h.old_lines, h.new_start, h.new_lines);
        let suffix = edit::header_suffix(original.header);
        assert(h.header == plain + suffix);
        assert(h.header.subrange(0, plain.len() as int) =~= plain);
    }
}

/// A comment in the buffer says nothing: the edit is what it is without it.
pub proof fn law_comments_say_nothing(
    a: Seq<char>,
    comment: Seq<char>,
    b: Seq<char>,
    original: HunkModel,
)
    requires
        super::laws::is_whole(a),
        !comment.contains('\n'),
    ensures
        edit::edited(a + (seq!['#'] + comment).push('\n') + b, original) == edit::edited(
            a + b,
            original,
        ),
{
    let row = seq!['#'] + comment;
    assert(!row.contains('\n')) by {
        if row.contains('\n') {
            let i = choose|i: int| 0 <= i < row.len() && row[i] == '\n';
            assert(comment[i - 1] == '\n');
        }
    }
    assert(a + row.push('\n') + b =~= a + (row.push('\n') + b));
    super::laws::lemma_split_whole(a, row.push('\n') + b);
    super::laws::lemma_split_whole(a, b);
    text::lemma_split_keep_line(row, b);
    let la = text::lines(a);
    let lb = text::lines(b);
    let c = text::chomp(row.push('\n'));
    assert(text::lines(a + (row.push('\n') + b)) =~= la + (seq![c] + lb));
    assert(text::lines(a + b) =~= la + lb);
    lemma_kept_add(la, seq![c] + lb);
    lemma_kept_add(la, lb);
    lemma_kept_add(seq![c], lb);
    assert(row.push('\n').drop_last() =~= row);
    assert(c.len() > 0 && c[0] == '#') by {
        if row.last() == '\r' {
            assert(row.len() > 1);
        }
    }
    lemma_trim_first(c);
    assert(seq![c].drop_last() =~= Seq::<Seq<char>>::empty());
    assert(seq![c].last() == c);
    reveal_with_fuel(edit::kept_rows, 2);
    assert(edit::kept_rows(seq![c]) =~= Seq::<Seq<char>>::empty());
    assert(Seq::<Seq<char>>::empty() + edit::kept_rows(lb) =~= edit::kept_rows(lb));
}

proof fn lemma_trim_first(s: Seq<char>)
    requires
        s.len() > 0,
        s[0] == '#',
    ensures
        text::trim_end_char(s, '\r').len() > 0,
        text::trim_end_char(s, '\r')[0] == '#',
    decreases s.len(),
{
    if s.last() == '\r' {
        lemma_trim_first(s.drop_last());
    }
}

proof fn lemma_kept_add(a: Seq<Seq<char>>, b: Seq<Seq<char>>)
    ensures
        edit::kept_rows(a + b) == edit::kept_rows(a) + edit::kept_rows(b),
    decreases b.len(),
{
    if b.len() == 0 {
        assert(a + b =~= a);
        assert(edit::kept_rows(a) + edit::kept_rows(b) =~= edit::kept_rows(a));
    } else {
        assert((a + b).drop_last() =~= a + b.drop_last());
        lemma_kept_add(a, b.drop_last());
        assert(edit::kept_rows(a + b) =~= edit::kept_rows(a) + edit::kept_rows(b));
    }
}

} // verus!
