//! Primer pairs written as text: one pair per line, fields separated by
//! commas.

use vstd::prelude::*;
use vstd::string::*;
use crate::catalog::views;

verus! {

/// The pieces of `s` between occurrences of `sep`, in order; there is always
/// at least one, and an empty piece stands wherever two separators meet or
/// a separator begins or ends `s`.
pub open spec fn split_on(s: Seq<char>, sep: char) -> Seq<Seq<char>>
    decreases s.len(),
{
    if s.len() == 0 {
        seq![Seq::empty()]
    } else {
        let rest = split_on(s.drop_first(), sep);
        if s[0] == sep {
            seq![Seq::<char>::empty()] + rest
        } else {
            rest.update(0, seq![s[0]] + rest[0])
        }
    }
}

/// A line without the carriage return that ended it, if one did.
pub open spec fn strip_cr(l: Seq<char>) -> Seq<char> {
    if l.len() > 0 && l.last() == '\r' {
        l.drop_last()
    } else {
        l
    }
}

/// The lines of a text: split at each newline, a carriage return before the
/// newline dropped, and no empty line after a final newline.
pub open spec fn text_lines(s: Seq<char>) -> Seq<Seq<char>> {
    let p = split_on(s, '\n');
    let body = p.drop_last().map_values(|l: Seq<char>| strip_cr(l));
    if p.last().len() == 0 {
        body
    } else {
        body.push(p.last())
    }
}

/// The primer table a text holds: the comma-separated fields of each line,
/// or nothing when some line holds no comma.
pub open spec fn primer_table(s: Seq<char>) -> Option<Seq<Seq<Seq<char>>>> {
    let ls = text_lines(s);
    if forall|i: int| 0 <= i < ls.len() ==> (#[trigger] ls[i]).contains(',') {
        Some(ls.map_values(|l: Seq<char>| split_on(l, ',')))
    } else {
        None
    }
}

proof fn lemma_split_on_nonempty(s: Seq<char>, sep: char)
    ensures
        split_on(s, sep).len() >= 1,
    decreases s.len(),
{
    if s.len() > 0 {
        lemma_split_on_nonempty(s.drop_first(), sep);
    }
}

proof fn lemma_split_on_push(s: Seq<char>, sep: char, c: char)
    ensures
        split_on(s, sep).len() >= 1,
        split_on(s.push(c), sep) == if c == sep {
            split_on(s, sep).push(Seq::empty())
        } else {
            split_on(s, sep).update(
                split_on(s, sep).len() - 1,
                split_on(s, sep).last().push(c),
            )
        },
    decreases s.len(),
{
    let t = s.push(c);
    if s.len() == 0 {
        assert(t.drop_first() =~= Seq::<char>::empty());
        assert(split_on(t.drop_first(), sep) == seq![Seq::<char>::empty()]);
        assert(t[0] == c);
        if c == sep {
            assert(split_on(t, sep) =~= split_on(s, sep).push(Seq::empty()));
        } else {
            assert(split_on(t, sep) =~= split_on(s, sep).update(0, seq![c]));
            assert(seq![c] =~= Seq::<char>::empty().push(c));
        }
    } else {
        lemma_split_on_push(s.drop_first(), sep, c);
        assert(t.drop_first() =~= s.drop_first().push(c));
        let rest_s = split_on(s.drop_first(), sep);
        let rest_t = split_on(t.drop_first(), sep);
        assert(t[0] == s[0]);
        if s[0] == sep {
            if c == sep {
                assert(split_on(t, sep) =~= split_on(s, sep).push(Seq::empty()));
            } else {
                assert(split_on(t, sep) =~= split_on(s, sep).update(
                    split_on(s, sep).len() - 1,
                    split_on(s, sep).last().push(c),
                ));
            }
        } else {
            if c == sep {
                assert(split_on(t, sep) =~= split_on(s, sep).push(Seq::empty()));
            } else {
                if rest_s.len() == 1 {
                    assert(seq![s[0]] + rest_s[0].push(c) =~= (seq![s[0]] + rest_s[0]).push(c));
                }
                assert(split_on(t, sep) =~= split_on(s, sep).update(
                    split_on(s, sep).len() - 1,
                    split_on(s, sep).last().push(c),
                ));
            }
        }
    }
}

/// The pieces of `s` between occurrences of `sep`.
pub fn split_text(s: &str, sep: char) -> (r: Vec<String>)
    ensures
        views(r@) == split_on(s@, sep),
        r.len() >= 1,
{
    let n = s.unicode_len();
    let mut done: Vec<String> = Vec::new();
    let mut current = String::new();
    let mut i: usize = 0;
    proof {
        assert(s@.subrange(0, 0) =~= Seq::<char>::empty());
    }
    while i < n
        invariant
            n == s@.len(),
            i <= n,
            views(done@).push(current@) == split_on(s@.subrange(0, i as int), sep),
        decreases n - i,
    {
        let c = s.get_char(i);
        proof {
            lemma_split_on_push(s@.subrange(0, i as int), sep, c);
            assert(s@.subrange(0, i + 1) =~= s@.subrange(0, i as int).push(c));
        }
        let ghost before = views(done@).push(current@);
        if c == sep {
            done.push(current);
            current = String::new();
            assert(views(done@).push(current@) =~= before.push(Seq::empty()));
        } else {
            crate::nucleotide::push_char(&mut current, c);
            assert(views(done@).push(current@) =~= before.update(
                before.len() - 1,
                before.last().push(c),
            ));
        }
        i = i + 1;
    }
    assert(s@.subrange(0, n as int) =~= s@);
    proof {
        lemma_split_on_nonempty(s@, sep);
    }
    done.push(current);
    assert(views(done@) =~= split_on(s@, sep));
    done
}

/// Whether `s` holds the character `c`.
pub fn has_char(s: &str, c: char) -> (r: bool)
    ensures
        r == s@.contains(c),
{
    let n = s.unicode_len();
    let mut i: usize = 0;
    while i < n
        invariant
            n == s@.len(),
            i <= n,
            forall|j: int| 0 <= j < i ==> s@[j] != c,
        decreases n - i,
    {
        if s.get_char(i) == c {
            return true;
        }
        i = i + 1;
    }
    false
}

/// The primer pairs a text holds, one per line with comma-separated fields;
/// `None` when a line holds no comma.
pub fn primer_pairs_from_text(content: &str) -> (r: Option<Vec<Vec<String>>>)
    ensures
        r is Some <==> primer_table(content@) is Some,
        r matches Some(v) ==> v.len() == primer_table(content@)->0.len() && forall|i: int|
            0 <= i < v.len() ==> views(#[trigger] v[i]@) == primer_table(content@)->0[i],
{
    let pieces = split_text(content, '\n');
    let ghost p = split_on(content@, '\n');
    let ghost ls = text_lines(content@);
    let np = pieces.len();
    let last_empty = pieces[np - 1].unicode_len() == 0;
    let count = if last_empty { np - 1 } else { np };
    assert(ls.len() == count);
    let mut out: Vec<Vec<String>> = Vec::new();
    let mut i: usize = 0;
    while i < count
        invariant
            views(pieces@) == p,
            p == split_on(content@, '\n'),
            ls == text_lines(content@),
            np == pieces.len(),
            np >= 1,
            count <= np,
            count == ls.len(),
            last_empty == (p.last().len() == 0),
            count == if last_empty { np - 1 } else { np as int },
            i <= count,
            out.len() == i,
            forall|j: int| 0 <= j < i ==> (#[trigger] ls[j]).contains(','),
            forall|j: int| 0 <= j < i ==> views(#[trigger] out[j]@) == split_on(ls[j], ','),
        decreases count - i,
    {
        let piece = pieces[i].as_str();
        let m = piece.unicode_len();
        let line: &str = if i + 1 < np && m > 0 && piece.get_char(m - 1) == '\r' {
            piece.substring_char(0, m - 1)
        } else {
            piece
        };
        assert(line@ == ls[i as int]) by {
            assert(p[i as int] == pieces@[i as int]@);
            if i + 1 < np {
                assert(ls[i as int] == strip_cr(p[i as int]));
                assert(p[i as int].drop_last() =~= p[i as int].subrange(0, m - 1));
            } else {
                assert(p.last() == p[i as int]);
            }
        }
        if !has_char(line, ',') {
            return None;
        }
        out.push(split_text(line, ','));
        i = i + 1;
    }
    let ghost table = ls.map_values(|l: Seq<char>| split_on(l, ','));
    assert(primer_table(content@) == Some(table));
    Some(out)
}

} // verus!
