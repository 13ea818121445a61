//! Ambiguity-aware approximate matching of a primer in a sequence.
//!
//! The search itself is bio's bit-parallel Myers scanner. Its results are
//! stated over the edit distance defined here: a pattern symbol matches a
//! text symbol when they are equal or when the text symbol is in the pattern
//! symbol's ambiguity class, and the alignment may start anywhere in the text.

use vstd::prelude::*;
use bio::pattern_matching::myers::MyersBuilder;
use crate::catalog::PrimerError;

verus! {

#[verifier::external_type_specification]
#[verifier::external_body]
pub struct ExMyersBuilder(MyersBuilder);

/// The ambiguity classes a builder holds: for each pattern symbol, the text
/// symbols it matches.
pub uninterp spec fn builder_ambiguities(b: MyersBuilder) -> Map<u8, Seq<u8>>;

/// The text symbols a builder treats as matching every pattern symbol.
pub uninterp spec fn builder_wildcards(b: MyersBuilder) -> Seq<u8>;

/// Start of the alignment that bio's traceback recovers for a hit ending at
/// `end`.
pub uninterp spec fn traceback_start(
    ambiguities: Map<u8, Seq<u8>>,
    pattern: Seq<u8>,
    text: Seq<u8>,
    end: int,
) -> int;

/// Relies on MyersBuilder::new: a builder with no ambiguity and no wildcard.
pub assume_specification[ MyersBuilder::new ]() -> (r: MyersBuilder)
    ensures
        builder_ambiguities(r).dom() == Set::<u8>::empty(),
        builder_wildcards(r).len() == 0,
;

/// Relies on MyersBuilder::ambig: `base` in a pattern matches each of
/// `equivalents` and `base` itself in the text; a class given again for the
/// same base replaces the earlier one.
#[verifier::external_body]
fn add_ambiguity(b: &mut MyersBuilder, base: u8, equivalents: &Vec<u8>)
    ensures
        builder_ambiguities(*final(b)) == builder_ambiguities(*old(b)).insert(
            base,
            equivalents@.push(base),
        ),
        builder_wildcards(*final(b)) == builder_wildcards(*old(b)),
{
    b.ambig(base, equivalents);
}

/// Relies on MyersBuilder::build_64 and Myers::find_all_lazy: every end
/// position, in increasing order, whose distance is at most `k`, with that
/// distance. build_64 panics on an empty pattern or one over 64 symbols.
#[verifier::external_body]
fn myers_hits(b: &MyersBuilder, pattern: &[u8], text: &[u8], k: u8) -> (r: Vec<(usize, u8)>)
    requires
        1 <= pattern.len() <= 64,
        builder_wildcards(*b).len() == 0,
    ensures
        hit_view(r@) == end_hits(builder_ambiguities(*b), pattern@, text@, k as nat, text@.len()),
{
    let mut myers = b.build_64(pattern);
    let hits = myers.find_all_lazy(text, k).collect();
    hits
}

/// Relies on Myers::find_all_lazy and LazyMatches::hit_at: once the whole
/// text has been scanned, the traceback from any end position inside it
/// follows an optimal alignment, so it yields a start no greater than one
/// past that end, and the text it spans differs in length from the pattern
/// by at most the distance at that end.
#[verifier::external_body]
fn myers_start(b: &MyersBuilder, pattern: &[u8], text: &[u8], k: u8, end: usize) -> (r: Option<usize>)
    requires
        1 <= pattern.len() <= 64,
        builder_wildcards(*b).len() == 0,
        end < text.len(),
    ensures
        r is Some,
        r->0 as int == traceback_start(builder_ambiguities(*b), pattern@, text@, end as int),
        r->0 <= end + 1,
        r->0 + pattern.len() + end_distance(builder_ambiguities(*b), pattern@, text@, end as int) >= end + 1,
        r->0 + pattern.len() <= end + 1 + end_distance(builder_ambiguities(*b), pattern@, text@, end as int),
{
    let mut myers = b.build_64(pattern);
    let mut hits = myers.find_all_lazy(text, k);
    hits.by_ref().for_each(drop);
    hits.hit_at(end).map(|(start, _)| start)
}

/// The IUPAC ambiguity classes, used both ways: each code matches the
/// literal bases it stands for (U wherever T stands), each literal matches
/// the codes that stand for it, and every symbol matches itself. Two
/// different codes never match.
pub open spec fn iupac_ambiguities() -> Map<u8, Seq<u8>> {
    Map::<u8, Seq<u8>>::empty()
        .insert('M' as u8, seq!['A' as u8, 'C' as u8].push('M' as u8))
        .insert('R' as u8, seq!['A' as u8, 'G' as u8].push('R' as u8))
        .insert('W' as u8, seq!['A' as u8, 'T' as u8, 'U' as u8].push('W' as u8))
        .insert('S' as u8, seq!['C' as u8, 'G' as u8].push('S' as u8))
        .insert('Y' as u8, seq!['C' as u8, 'T' as u8, 'U' as u8].push('Y' as u8))
        .insert('K' as u8, seq!['G' as u8, 'T' as u8, 'U' as u8].push('K' as u8))
        .insert('V' as u8, seq!['A' as u8, 'C' as u8, 'G' as u8].push('V' as u8))
        .insert('H' as u8, seq!['A' as u8, 'C' as u8, 'T' as u8, 'U' as u8].push('H' as u8))
        .insert('D' as u8, seq!['A' as u8, 'G' as u8, 'T' as u8, 'U' as u8].push('D' as u8))
        .insert('B' as u8, seq!['C' as u8, 'G' as u8, 'T' as u8, 'U' as u8].push('B' as u8))
        .insert('N' as u8, seq!['A' as u8, 'C' as u8, 'G' as u8, 'T' as u8, 'U' as u8].push('N' as u8))
        .insert('A' as u8, seq!['M' as u8, 'R' as u8, 'W' as u8, 'V' as u8, 'H' as u8, 'D' as u8, 'N' as u8].push('A' as u8))
        .insert('C' as u8, seq!['M' as u8, 'S' as u8, 'Y' as u8, 'V' as u8, 'H' as u8, 'B' as u8, 'N' as u8].push('C' as u8))
        .insert('G' as u8, seq!['R' as u8, 'S' as u8, 'K' as u8, 'V' as u8, 'D' as u8, 'B' as u8, 'N' as u8].push('G' as u8))
        .insert('T' as u8, seq!['W' as u8, 'Y' as u8, 'K' as u8, 'H' as u8, 'D' as u8, 'B' as u8, 'N' as u8].push('T' as u8))
        .insert('U' as u8, seq!['W' as u8, 'Y' as u8, 'K' as u8, 'H' as u8, 'D' as u8, 'B' as u8, 'N' as u8].push('U' as u8))
}

/// Whether pattern symbol `p` matches text symbol `t`.
pub open spec fn symbols_match(amb: Map<u8, Seq<u8>>, p: u8, t: u8) -> bool {
    t == p || (amb.contains_key(p) && amb[p].contains(t))
}

pub open spec fn min3(a: nat, b: nat, c: nat) -> nat {
    if a <= b && a <= c {
        a
    } else if b <= c {
        b
    } else {
        c
    }
}

/// Least number of substitutions, insertions and deletions that align the
/// first `i` pattern symbols with some stretch of text ending just before
/// text position `j`.
pub open spec fn prefix_cost(amb: Map<u8, Seq<u8>>, p: Seq<u8>, t: Seq<u8>, i: nat, j: nat) -> nat
    decreases i + j,
{
    if i == 0 {
        0
    } else if j == 0 {
        i
    } else {
        min3(
            prefix_cost(amb, p, t, (i - 1) as nat, (j - 1) as nat) + if symbols_match(
                amb,
                p[i - 1],
                t[j - 1],
            ) {
                0nat
            } else {
                1nat
            },
            prefix_cost(amb, p, t, (i - 1) as nat, j) + 1,
            prefix_cost(amb, p, t, i, (j - 1) as nat) + 1,
        )
    }
}

/// Edit distance of the whole pattern to the best stretch of text ending at
/// position `e` (inclusive).
pub open spec fn end_distance(amb: Map<u8, Seq<u8>>, p: Seq<u8>, t: Seq<u8>, e: int) -> nat {
    prefix_cost(amb, p, t, p.len(), (e + 1) as nat)
}

/// The end positions below `n` whose distance is at most `k`, in increasing
/// order, each with its distance.
pub open spec fn end_hits(amb: Map<u8, Seq<u8>>, p: Seq<u8>, t: Seq<u8>, k: nat, n: nat) -> Seq<
    (int, nat),
>
    decreases n,
{
    if n == 0 {
        Seq::empty()
    } else {
        let prev = end_hits(amb, p, t, k, (n - 1) as nat);
        let d = end_distance(amb, p, t, n - 1);
        if d <= k {
            prev.push(((n - 1) as int, d))
        } else {
            prev
        }
    }
}

pub open spec fn hit_view(s: Seq<(usize, u8)>) -> Seq<(int, nat)> {
    s.map_values(|h: (usize, u8)| (h.0 as int, h.1 as nat))
}

/// The hit of least distance; among equals, the first.
pub open spec fn best_of(hits: Seq<(int, nat)>) -> Option<(int, nat)>
    decreases hits.len(),
{
    if hits.len() == 0 {
        None
    } else {
        let last = hits.last();
        match best_of(hits.drop_last()) {
            Some(b) => if last.1 < b.1 {
                Some(last)
            } else {
                Some(b)
            },
            None => Some(last),
        }
    }
}

/// The best end position of `p` in `t` within distance `k`, with its distance.
pub open spec fn best_end(amb: Map<u8, Seq<u8>>, p: Seq<u8>, t: Seq<u8>, k: nat) -> Option<
    (int, nat),
> {
    best_of(end_hits(amb, p, t, k, t.len()))
}

/// A located primer: where its best alignment starts and ends (inclusive) in
/// the text, and its edit distance.
#[derive(Debug, Clone, Copy, PartialEq, Eq, Structural)]
pub struct Hit {
    pub start: usize,
    pub end: usize,
    pub distance: u8,
}

/// The best hit of `p` in `t` within distance `k`: the best end position,
/// its distance, and the start that the traceback recovers for it.
pub open spec fn expected_hit(amb: Map<u8, Seq<u8>>, p: Seq<u8>, t: Seq<u8>, k: nat) -> Option<Hit> {
    match best_end(amb, p, t, k) {
        None => None,
        Some(b) => Some(
            Hit {
                start: traceback_start(amb, p, t, b.0) as usize,
                end: b.0 as usize,
                distance: b.1 as u8,
            },
        ),
    }
}

/// The traceback start for a hit ending at `e` lies where an alignment of
/// the pattern with at most the hit's distance in insertions and deletions
/// would start.
pub open spec fn start_fits(amb: Map<u8, Seq<u8>>, p: Seq<u8>, t: Seq<u8>, e: int) -> bool {
    let st = traceback_start(amb, p, t, e);
    let d = end_distance(amb, p, t, e);
    e + 1 - p.len() - d <= st <= e + 1 - p.len() + d
}

/// The start recovered for the best hit, if there is one, fits it.
pub open spec fn best_start_fits(amb: Map<u8, Seq<u8>>, p: Seq<u8>, t: Seq<u8>, k: nat) -> bool {
    match best_end(amb, p, t, k) {
        Some(b) => start_fits(amb, p, t, b.0),
        None => true,
    }
}

/// The ambiguity classes the matcher compares symbols by, built once and
/// shared by every search.
pub struct AmbiguityTable {
    builder: MyersBuilder,
}

impl AmbiguityTable {
    /// The classes held.
    pub closed spec fn classes(&self) -> Map<u8, Seq<u8>> {
        builder_ambiguities(self.builder)
    }

    /// The table treats no text symbol as a wildcard.
    pub closed spec fn wf(&self) -> bool {
        builder_wildcards(self.builder).len() == 0
    }

    /// The IUPAC ambiguity classes.
    pub fn new() -> (r: AmbiguityTable)
        ensures
            r.wf(),
            r.classes() == iupac_ambiguities(),
    {
        let mut b = MyersBuilder::new();
        assert(builder_ambiguities(b) =~= Map::<u8, Seq<u8>>::empty());
        add_ambiguity(&mut b, 'M' as u8, &vec!['A' as u8, 'C' as u8]);
        add_ambiguity(&mut b, 'R' as u8, &vec!['A' as u8, 'G' as u8]);
        add_ambiguity(&mut b, 'W' as u8, &vec!['A' as u8, 'T' as u8, 'U' as u8]);
        add_ambiguity(&mut b, 'S' as u8, &vec!['C' as u8, 'G' as u8]);
        add_ambiguity(&mut b, 'Y' as u8, &vec!['C' as u8, 'T' as u8, 'U' as u8]);
        add_ambiguity(&mut b, 'K' as u8, &vec!['G' as u8, 'T' as u8, 'U' as u8]);
        add_ambiguity(&mut b, 'V' as u8, &vec!['A' as u8, 'C' as u8, 'G' as u8]);
        add_ambiguity(&mut b, 'H' as u8, &vec!['A' as u8, 'C' as u8, 'T' as u8, 'U' as u8]);
        add_ambiguity(&mut b, 'D' as u8, &vec!['A' as u8, 'G' as u8, 'T' as u8, 'U' as u8]);
        add_ambiguity(&mut b, 'B' as u8, &vec!['C' as u8, 'G' as u8, 'T' as u8, 'U' as u8]);
        add_ambiguity(&mut b, 'N' as u8, &vec!['A' as u8, 'C' as u8, 'G' as u8, 'T' as u8, 'U' as u8]);
        add_ambiguity(&mut b, 'A' as u8, &vec!['M' as u8, 'R' as u8, 'W' as u8, 'V' as u8, 'H' as u8, 'D' as u8, 'N' as u8]);
        add_ambiguity(&mut b, 'C' as u8, &vec!['M' as u8, 'S' as u8, 'Y' as u8, 'V' as u8, 'H' as u8, 'B' as u8, 'N' as u8]);
        add_ambiguity(&mut b, 'G' as u8, &vec!['R' as u8, 'S' as u8, 'K' as u8, 'V' as u8, 'D' as u8, 'B' as u8, 'N' as u8]);
        add_ambiguity(&mut b, 'T' as u8, &vec!['W' as u8, 'Y' as u8, 'K' as u8, 'H' as u8, 'D' as u8, 'B' as u8, 'N' as u8]);
        add_ambiguity(&mut b, 'U' as u8, &vec!['W' as u8, 'Y' as u8, 'K' as u8, 'H' as u8, 'D' as u8, 'B' as u8, 'N' as u8]);
        let r = AmbiguityTable { builder: b };
        assert(r.classes() =~= iupac_ambiguities());
        r
    }
}

/// The first hit of least distance.
pub fn best_hit(hits: &Vec<(usize, u8)>) -> (r: Option<(usize, u8)>)
    ensures
        r is Some <==> best_of(hit_view(hits@)) is Some,
        r matches Some(h) ==> best_of(hit_view(hits@)) == Some((h.0 as int, h.1 as nat)),
{
    let mut best: Option<(usize, u8)> = None;
    let mut i: usize = 0;
    while i < hits.len()
        invariant
            i <= hits.len(),
            best is Some <==> best_of(hit_view(hits@.subrange(0, i as int))) is Some,
            best matches Some(h) ==> best_of(hit_view(hits@.subrange(0, i as int))) == Some(
                (h.0 as int, h.1 as nat),
            ),
        decreases hits.len() - i,
    {
        let h = hits[i];
        let ghost pre = hit_view(hits@.subrange(0, i as int));
        assert(hit_view(hits@.subrange(0, i + 1)).drop_last() =~= pre);
        assert(hit_view(hits@.subrange(0, i + 1)).last() == (h.0 as int, h.1 as nat));
        best = match best {
            Some(b) => if h.1 < b.1 {
                Some(h)
            } else {
                Some(b)
            },
            None => Some(h),
        };
        i = i + 1;
    }
    assert(hits@.subrange(0, hits.len() as int) =~= hits@);
    best
}

/// Checks that a primer can be searched for: not empty, at most 64 symbols.
pub fn check_primer(pattern: &[u8]) -> (r: Result<(), PrimerError>)
    ensures
        pattern.len() == 0 ==> r == Err::<(), PrimerError>(PrimerError::EmptyPrimer),
        pattern.len() > 64 ==> r == Err::<(), PrimerError>(PrimerError::PrimerTooLong),
        1 <= pattern.len() <= 64 ==> r is Ok,
{
    if pattern.len() == 0 {
        Err(PrimerError::EmptyPrimer)
    } else if pattern.len() > 64 {
        Err(PrimerError::PrimerTooLong)
    } else {
        Ok(())
    }
}

/// Every end position in `text` at which `pattern` aligns with edit distance
/// at most `k`, in increasing order, each with its distance.
pub fn find_all_ends(table: &AmbiguityTable, pattern: &[u8], text: &[u8], k: u8) -> (r: Vec<
    (usize, u8),
>)
    requires
        table.wf(),
        1 <= pattern.len() <= 64,
    ensures
        hit_view(r@) == end_hits(table.classes(), pattern@, text@, k as nat, text@.len()),
{
    myers_hits(&table.builder, pattern, text, k)
}

/// The best hit of `pattern` in `text` within edit distance `k`: the end
/// position of least distance (the first among equals) and the start of its
/// alignment. An empty pattern, or one over 64 symbols, is refused.
pub fn best_match(table: &AmbiguityTable, pattern: &[u8], text: &[u8], k: u8) -> (r: Result<
    Option<Hit>,
    PrimerError,
>)
    requires
        table.wf(),
    ensures
        pattern.len() == 0 ==> r == Err::<Option<Hit>, PrimerError>(PrimerError::EmptyPrimer),
        pattern.len() > 64 ==> r == Err::<Option<Hit>, PrimerError>(PrimerError::PrimerTooLong),
        1 <= pattern.len() <= 64 ==> r == Ok::<Option<Hit>, PrimerError>(
            expected_hit(table.classes(), pattern@, text@, k as nat),
        ),
        1 <= pattern.len() <= 64 ==> best_start_fits(table.classes(), pattern@, text@, k as nat),
{
    match check_primer(pattern) {
        Err(e) => Err(e),
        Ok(()) => {
            let hits = find_all_ends(table, pattern, text, k);
            match best_hit(&hits) {
                None => Ok(None),
                Some((end, distance)) => {
                    proof {
                        lemma_end_hits_bounded(table.classes(), pattern@, text@, k as nat, text@.len());
                        lemma_best_of_member(hit_view(hits@));
                    }
                    let start = myers_start(&table.builder, pattern, text, k, end).unwrap();
                    Ok(Some(Hit { start, end, distance }))
                },
            }
        },
    }
}

/// Every hit ends inside the scanned part of the text.
pub proof fn lemma_end_hits_bounded(amb: Map<u8, Seq<u8>>, p: Seq<u8>, t: Seq<u8>, k: nat, n: nat)
    ensures
        forall|q: int|
            0 <= q < end_hits(amb, p, t, k, n).len() ==> 0 <= #[trigger] end_hits(
                amb,
                p,
                t,
                k,
                n,
            )[q].0 < n,
    decreases n,
{
    if n > 0 {
        lemma_end_hits_bounded(amb, p, t, k, (n - 1) as nat);
        let prev = end_hits(amb, p, t, k, (n - 1) as nat);
        let cur = end_hits(amb, p, t, k, n);
        assert forall|q: int| 0 <= q < cur.len() implies 0 <= #[trigger] cur[q].0 < n by {
            if q < prev.len() {
                assert(cur[q] == prev[q]);
            }
        }
    }
}

/// The best hit is one of the hits.
pub proof fn lemma_best_of_member(hits: Seq<(int, nat)>)
    ensures
        best_of(hits) matches Some(b) ==> hits.contains(b),
    decreases hits.len(),
{
    if hits.len() > 0 {
        lemma_best_of_member(hits.drop_last());
        if let Some(b) = best_of(hits.drop_last()) {
            let q = choose|q: int| 0 <= q < hits.drop_last().len() && hits.drop_last()[q] == b;
            assert(hits[q] == b);
        }
        assert(hits[hits.len() - 1] == hits.last());
    }
}

/// Number of positions among the first `i` pattern symbols that do not
/// match the text symbol at the same offset from `j0`.
pub open spec fn window_mismatches(amb: Map<u8, Seq<u8>>, p: Seq<u8>, t: Seq<u8>, j0: int, i: nat) -> nat
    decreases i,
{
    if i == 0 {
        0
    } else {
        window_mismatches(amb, p, t, j0, (i - 1) as nat) + if symbols_match(
            amb,
            p[i - 1],
            t[j0 + i - 1],
        ) {
            0nat
        } else {
            1nat
        }
    }
}

/// The four literal DNA bases.
pub open spec fn is_literal_base(b: u8) -> bool {
    b == 'A' as u8 || b == 'C' as u8 || b == 'G' as u8 || b == 'T' as u8
}

/// Aligning symbol by symbol costs no more than the mismatches on the way.
pub proof fn lemma_cost_at_most_mismatches(amb: Map<u8, Seq<u8>>, p: Seq<u8>, t: Seq<u8>, j0: nat, i: nat)
    requires
        i <= p.len(),
        j0 + i <= t.len(),
    ensures
        prefix_cost(amb, p, t, i, j0 + i) <= window_mismatches(amb, p, t, j0 as int, i),
    decreases i,
{
    if i > 0 {
        lemma_cost_at_most_mismatches(amb, p, t, j0, (i - 1) as nat);
        assert((j0 + i - 1) as nat == (j0 + (i - 1)) as nat);
    }
}

/// A hit within the bound is listed, with its distance.
pub proof fn lemma_end_hits_contains(amb: Map<u8, Seq<u8>>, p: Seq<u8>, t: Seq<u8>, k: nat, n: nat, e: int)
    requires
        0 <= e < n,
        end_distance(amb, p, t, e) <= k,
    ensures
        end_hits(amb, p, t, k, n).contains((e, end_distance(amb, p, t, e))),
    decreases n,
{
    let cur = end_hits(amb, p, t, k, n);
    let prev = end_hits(amb, p, t, k, (n - 1) as nat);
    if e == n - 1 {
        assert(cur.last() == (e, end_distance(amb, p, t, e)));
        assert(cur[cur.len() - 1] == cur.last());
    } else {
        lemma_end_hits_contains(amb, p, t, k, (n - 1) as nat, e);
        let q = choose|q: int| 0 <= q < prev.len() && prev[q] == (e, end_distance(amb, p, t, e));
        assert(cur[q] == prev[q]);
    }
}

/// The best hit is at least as close as any listed hit.
pub proof fn lemma_best_of_at_most(hits: Seq<(int, nat)>, x: (int, nat))
    requires
        hits.contains(x),
    ensures
        best_of(hits) matches Some(b) && b.1 <= x.1,
    decreases hits.len(),
{
    let init = hits.drop_last();
    if hits.last() != x {
        let q = choose|q: int| 0 <= q < hits.len() && hits[q] == x;
        assert(q != hits.len() - 1);
        assert(init[q] == x);
        lemma_best_of_at_most(init, x);
    } else if init.len() > 0 {
        lemma_best_of_at_most(init, init[0]);
    }
}

/// A stretch of text ending at `e` that the pattern matches symbol by symbol
/// with at most `k` mismatches is reported as a hit at `e`, and the best hit
/// is at least as close.
pub proof fn lemma_near_copy_found(amb: Map<u8, Seq<u8>>, p: Seq<u8>, t: Seq<u8>, k: nat, e: int)
    requires
        p.len() >= 1,
        0 <= e < t.len(),
        e + 1 >= p.len(),
        window_mismatches(amb, p, t, e + 1 - p.len(), p.len()) <= k,
    ensures
        end_distance(amb, p, t, e) <= window_mismatches(amb, p, t, e + 1 - p.len(), p.len()),
        end_hits(amb, p, t, k, t.len()).contains((e, end_distance(amb, p, t, e))),
        best_end(amb, p, t, k) matches Some(b) && b.1 <= end_distance(amb, p, t, e),
{
    let j0 = (e + 1 - p.len()) as nat;
    lemma_cost_at_most_mismatches(amb, p, t, j0, p.len());
    assert((j0 + p.len()) as nat == (e + 1) as nat);
    lemma_end_hits_contains(amb, p, t, k, t.len(), e);
    lemma_best_of_at_most(end_hits(amb, p, t, k, t.len()), (e, end_distance(amb, p, t, e)));
}

/// No position of a window mismatches when every pattern symbol either equals
/// its text symbol or is N facing a literal base.
proof fn lemma_no_mismatch(p: Seq<u8>, t: Seq<u8>, j0: int, i: nat)
    requires
        i <= p.len(),
        0 <= j0,
        j0 + i <= t.len(),
        forall|q: int|
            0 <= q < i ==> p[q] == #[trigger] t[j0 + q] || (p[q] == 'N' as u8 && is_literal_base(
                t[j0 + q],
            )),
    ensures
        window_mismatches(iupac_ambiguities(), p, t, j0, i) == 0,
    decreases i,
{
    if i > 0 {
        lemma_no_mismatch(p, t, j0, (i - 1) as nat);
        let q = i - 1;
        assert(p[q] == t[j0 + q] || (p[q] == 'N' as u8 && is_literal_base(t[j0 + q])));
        let n_class = iupac_ambiguities()['N' as u8];
        assert(n_class[0] == 'A' as u8 && n_class[1] == 'C' as u8 && n_class[2] == 'G' as u8
            && n_class[3] == 'T' as u8);
    }
}

/// An exact copy of the pattern ending at `e` is a hit at `e` with distance 0,
/// whatever the bound, and the best hit then has distance 0. So is a copy in
/// which N in the pattern faces any literal base: N adds no cost.
pub proof fn lemma_exact_copy_found(p: Seq<u8>, t: Seq<u8>, k: nat, e: int)
    requires
        p.len() >= 1,
        0 <= e < t.len(),
        e + 1 >= p.len(),
        forall|q: int|
            0 <= q < p.len() ==> p[q] == #[trigger] t[e + 1 - p.len() + q] || (p[q] == 'N' as u8
                && is_literal_base(t[e + 1 - p.len() + q])),
    ensures
        end_distance(iupac_ambiguities(), p, t, e) == 0,
        end_hits(iupac_ambiguities(), p, t, k, t.len()).contains((e, 0nat)),
        best_end(iupac_ambiguities(), p, t, k) matches Some(b) && b.1 == 0,
{
    lemma_no_mismatch(p, t, e + 1 - p.len(), p.len());
    lemma_near_copy_found(iupac_ambiguities(), p, t, k, e);
}

/// Every reported hit carries the distance of its end position, and that
/// distance is within the bound: with bound 0 only exact (up to ambiguity)
/// alignments are reported.
pub proof fn lemma_end_hits_within_bound(amb: Map<u8, Seq<u8>>, p: Seq<u8>, t: Seq<u8>, k: nat, n: nat)
    ensures
        forall|q: int|
            0 <= q < end_hits(amb, p, t, k, n).len() ==> (#[trigger] end_hits(amb, p, t, k, n)[q]).1
                == end_distance(amb, p, t, end_hits(amb, p, t, k, n)[q].0) && end_hits(
                amb,
                p,
                t,
                k,
                n,
            )[q].1 <= k,
    decreases n,
{
    if n > 0 {
        lemma_end_hits_within_bound(amb, p, t, k, (n - 1) as nat);
        let prev = end_hits(amb, p, t, k, (n - 1) as nat);
        let cur = end_hits(amb, p, t, k, n);
        assert forall|q: int| 0 <= q < cur.len() implies (#[trigger] cur[q]).1 == end_distance(
            amb,
            p,
            t,
            cur[q].0,
        ) && cur[q].1 <= k by {
            if q < prev.len() {
                assert(cur[q] == prev[q]);
            }
        }
    }
}

/// The eleven IUPAC ambiguity codes, as bytes.
pub open spec fn is_code_byte(b: u8) -> bool {
    b == 'R' as u8 || b == 'Y' as u8 || b == 'S' as u8 || b == 'W' as u8 || b == 'K' as u8
        || b == 'M' as u8 || b == 'B' as u8 || b == 'D' as u8 || b == 'H' as u8 || b == 'V' as u8
        || b == 'N' as u8
}

/// Whether `x` is in the IUPAC class of `k`, written out.
pub open spec fn iupac_member(k: u8, x: u8) -> bool {
    if k == 'M' as u8 {
        x == 'A' as u8 || x == 'C' as u8 || x == 'M' as u8
    }
    else if k == 'R' as u8 {
        x == 'A' as u8 || x == 'G' as u8 || x == 'R' as u8
    }
    else if k == 'W' as u8 {
        x == 'A' as u8 || x == 'T' as u8 || x == 'U' as u8 || x == 'W' as u8
    }
    else if k == 'S' as u8 {
        x == 'C' as u8 || x == 'G' as u8 || x == 'S' as u8
    }
    else if k == 'Y' as u8 {
        x == 'C' as u8 || x == 'T' as u8 || x == 'U' as u8 || x == 'Y' as u8
    }
    else if k == 'K' as u8 {
        x == 'G' as u8 || x == 'T' as u8 || x == 'U' as u8 || x == 'K' as u8
    }
    else if k == 'V' as u8 {
        x == 'A' as u8 || x == 'C' as u8 || x == 'G' as u8 || x == 'V' as u8
    }
    else if k == 'H' as u8 {
        x == 'A' as u8 || x == 'C' as u8 || x == 'T' as u8 || x == 'U' as u8 || x == 'H' as u8
    }
    else if k == 'D' as u8 {
        x == 'A' as u8 || x == 'G' as u8 || x == 'T' as u8 || x == 'U' as u8 || x == 'D' as u8
    }
    else if k == 'B' as u8 {
        x == 'C' as u8 || x == 'G' as u8 || x == 'T' as u8 || x == 'U' as u8 || x == 'B' as u8
    }
    else if k == 'N' as u8 {
        x == 'A' as u8 || x == 'C' as u8 || x == 'G' as u8 || x == 'T' as u8 || x == 'U' as u8 || x == 'N' as u8
    }
    else if k == 'A' as u8 {
        x == 'M' as u8 || x == 'R' as u8 || x == 'W' as u8 || x == 'V' as u8 || x == 'H' as u8 || x == 'D' as u8 || x == 'N' as u8 || x == 'A' as u8
    }
    else if k == 'C' as u8 {
        x == 'M' as u8 || x == 'S' as u8 || x == 'Y' as u8 || x == 'V' as u8 || x == 'H' as u8 || x == 'B' as u8 || x == 'N' as u8 || x == 'C' as u8
    }
    else if k == 'G' as u8 {
        x == 'R' as u8 || x == 'S' as u8 || x == 'K' as u8 || x == 'V' as u8 || x == 'D' as u8 || x == 'B' as u8 || x == 'N' as u8 || x == 'G' as u8
    }
    else if k == 'T' as u8 {
        x == 'W' as u8 || x == 'Y' as u8 || x == 'K' as u8 || x == 'H' as u8 || x == 'D' as u8 || x == 'B' as u8 || x == 'N' as u8 || x == 'T' as u8
    }
    else if k == 'U' as u8 {
        x == 'W' as u8 || x == 'Y' as u8 || x == 'K' as u8 || x == 'H' as u8 || x == 'D' as u8 || x == 'B' as u8 || x == 'N' as u8 || x == 'U' as u8
    }
    else {
        false
    }
}

proof fn lemma_iupac_member(k: u8, x: u8)
    ensures
        (iupac_ambiguities().contains_key(k) && iupac_ambiguities()[k].contains(x)) == iupac_member(k, x),
{
    let amb = iupac_ambiguities();
    if k == 'M' as u8 {
        let c = amb[k];
        assert(c =~= seq!['A' as u8, 'C' as u8, 'M' as u8]);
        if c.contains(x) {
            let q = choose|q: int| 0 <= q < c.len() && c[q] == x;
        }
        if x == 'A' as u8 {
            assert(c[0] == x);
        }
        if x == 'C' as u8 {
            assert(c[1] == x);
        }
        if x == 'M' as u8 {
            assert(c[2] == x);
        }
    }
    if k == 'R' as u8 {
        let c = amb[k];
        assert(c =~= seq!['A' as u8, 'G' as u8, 'R' as u8]);
        if c.contains(x) {
            let q = choose|q: int| 0 <= q < c.len() && c[q] == x;
        }
        if x == 'A' as u8 {
            assert(c[0] == x);
        }
        if x == 'G' as u8 {
            assert(c[1] == x);
        }
        if x == 'R' as u8 {
            assert(c[2] == x);
        }
    }
    if k == 'W' as u8 {
        let c = amb[k];
        assert(c =~= seq!['A' as u8, 'T' as u8, 'U' as u8, 'W' as u8]);
        if c.contains(x) {
            let q = choose|q: int| 0 <= q < c.len() && c[q] == x;
        }
        if x == 'A' as u8 {
            assert(c[0] == x);
        }
        if x == 'T' as u8 {
            assert(c[1] == x);
        }
        if x == 'U' as u8 {
            assert(c[2] == x);
        }
        if x == 'W' as u8 {
            assert(c[3] == x);
        }
    }
    if k == 'S' as u8 {
        let c = amb[k];
        assert(c =~= seq!['C' as u8, 'G' as u8, 'S' as u8]);
        if c.contains(x) {
            let q = choose|q: int| 0 <= q < c.len() && c[q] == x;
        }
        if x == 'C' as u8 {
            assert(c[0] == x);
        }
        if x == 'G' as u8 {
            assert(c[1] == x);
        }
        if x == 'S' as u8 {
            assert(c[2] == x);
        }
    }
    if k == 'Y' as u8 {
        let c = amb[k];
        assert(c =~= seq!['C' as u8, 'T' as u8, 'U' as u8, 'Y' as u8]);
        if c.contains(x) {
            let q = choose|q: int| 0 <= q < c.len() && c[q] == x;
        }
        if x == 'C' as u8 {
            assert(c[0] == x);
        }
        if x == 'T' as u8 {
            assert(c[1] == x);
        }
        if x == 'U' as u8 {
            assert(c[2] == x);
        }
        if x == 'Y' as u8 {
            assert(c[3] == x);
        }
    }
    if k == 'K' as u8 {
        let c = amb[k];
        assert(c =~= seq!['G' as u8, 'T' as u8, 'U' as u8, 'K' as u8]);
        if c.contains(x) {
            let q = choose|q: int| 0 <= q < c.len() && c[q] == x;
        }
        if x == 'G' as u8 {
            assert(c[0] == x);
        }
        if x == 'T' as u8 {
            assert(c[1] == x);
        }
        if x == 'U' as u8 {
            assert(c[2] == x);
        }
        if x == 'K' as u8 {
            assert(c[3] == x);
        }
    }
    if k == 'V' as u8 {
        let c = amb[k];
        assert(c =~= seq!['A' as u8, 'C' as u8, 'G' as u8, 'V' as u8]);
        if c.contains(x) {
            let q = choose|q: int| 0 <= q < c.len() && c[q] == x;
        }
        if x == 'A' as u8 {
            assert(c[0] == x);
        }
        if x == 'C' as u8 {
            assert(c[1] == x);
        }
        if x == 'G' as u8 {
            assert(c[2] == x);
        }
        if x == 'V' as u8 {
            assert(c[3] == x);
        }
    }
    if k == 'H' as u8 {
        let c = amb[k];
        assert(c =~= seq!['A' as u8, 'C' as u8, 'T' as u8, 'U' as u8, 'H' as u8]);
        if c.contains(x) {
            let q = choose|q: int| 0 <= q < c.len() && c[q] == x;
        }
        if x == 'A' as u8 {
            assert(c[0] == x);
        }
        if x == 'C' as u8 {
            assert(c[1] == x);
        }
        if x == 'T' as u8 {
            assert(c[2] == x);
        }
        if x == 'U' as u8 {
            assert(c[3] == x);
        }
        if x == 'H' as u8 {
            assert(c[4] == x);
        }
    }
    if k == 'D' as u8 {
        let c = amb[k];
        assert(c =~= seq!['A' as u8, 'G' as u8, 'T' as u8, 'U' as u8, 'D' as u8]);
        if c.contains(x) {
            let q = choose|q: int| 0 <= q < c.len() && c[q] == x;
        }
        if x == 'A' as u8 {
            assert(c[0] == x);
        }
        if x == 'G' as u8 {
            assert(c[1] == x);
        }
        if x == 'T' as u8 {
            assert(c[2] == x);
        }
        if x == 'U' as u8 {
            assert(c[3] == x);
        }
        if x == 'D' as u8 {
            assert(c[4] == x);
        }
    }
    if k == 'B' as u8 {
        let c = amb[k];
        assert(c =~= seq!['C' as u8, 'G' as u8, 'T' as u8, 'U' as u8, 'B' as u8]);
        if c.contains(x) {
            let q = choose|q: int| 0 <= q < c.len() && c[q] == x;
        }
        if x == 'C' as u8 {
            assert(c[0] == x);
        }
        if x == 'G' as u8 {
            assert(c[1] == x);
        }
        if x == 'T' as u8 {
            assert(c[2] == x);
        }
        if x == 'U' as u8 {
            assert(c[3] == x);
        }
        if x == 'B' as u8 {
            assert(c[4] == x);
        }
    }
    if k == 'N' as u8 {
        let c = amb[k];
        assert(c =~= seq!['A' as u8, 'C' as u8, 'G' as u8, 'T' as u8, 'U' as u8, 'N' as u8]);
        if c.contains(x) {
            let q = choose|q: int| 0 <= q < c.len() && c[q] == x;
        }
        if x == 'A' as u8 {
            assert(c[0] == x);
        }
        if x == 'C' as u8 {
            assert(c[1] == x);
        }
        if x == 'G' as u8 {
            assert(c[2] == x);
        }
        if x == 'T' as u8 {
            assert(c[3] == x);
        }
        if x == 'U' as u8 {
            assert(c[4] == x);
        }
        if x == 'N' as u8 {
            assert(c[5] == x);
        }
    }
    if k == 'A' as u8 {
        let c = amb[k];
        assert(c =~= seq!['M' as u8, 'R' as u8, 'W' as u8, 'V' as u8, 'H' as u8, 'D' as u8, 'N' as u8, 'A' as u8]);
        if c.contains(x) {
            let q = choose|q: int| 0 <= q < c.len() && c[q] == x;
        }
        if x == 'M' as u8 {
            assert(c[0] == x);
        }
        if x == 'R' as u8 {
            assert(c[1] == x);
        }
        if x == 'W' as u8 {
            assert(c[2] == x);
        }
        if x == 'V' as u8 {
            assert(c[3] == x);
        }
        if x == 'H' as u8 {
            assert(c[4] == x);
        }
        if x == 'D' as u8 {
            assert(c[5] == x);
        }
        if x == 'N' as u8 {
            assert(c[6] == x);
        }
        if x == 'A' as u8 {
            assert(c[7] == x);
        }
    }
    if k == 'C' as u8 {
        let c = amb[k];
        assert(c =~= seq!['M' as u8, 'S' as u8, 'Y' as u8, 'V' as u8, 'H' as u8, 'B' as u8, 'N' as u8, 'C' as u8]);
        if c.contains(x) {
            let q = choose|q: int| 0 <= q < c.len() && c[q] == x;
        }
        if x == 'M' as u8 {
            assert(c[0] == x);
        }
        if x == 'S' as u8 {
            assert(c[1] == x);
        }
        if x == 'Y' as u8 {
            assert(c[2] == x);
        }
        if x == 'V' as u8 {
            assert(c[3] == x);
        }
        if x == 'H' as u8 {
            assert(c[4] == x);
        }
        if x == 'B' as u8 {
            assert(c[5] == x);
        }
        if x == 'N' as u8 {
            assert(c[6] == x);
        }
        if x == 'C' as u8 {
            assert(c[7] == x);
        }
    }
    if k == 'G' as u8 {
        let c = amb[k];
        assert(c =~= seq!['R' as u8, 'S' as u8, 'K' as u8, 'V' as u8, 'D' as u8, 'B' as u8, 'N' as u8, 'G' as u8]);
        if c.contains(x) {
            let q = choose|q: int| 0 <= q < c.len() && c[q] == x;
        }
        if x == 'R' as u8 {
            assert(c[0] == x);
        }
        if x == 'S' as u8 {
            assert(c[1] == x);
        }
        if x == 'K' as u8 {
            assert(c[2] == x);
        }
        if x == 'V' as u8 {
            assert(c[3] == x);
        }
        if x == 'D' as u8 {
            assert(c[4] == x);
        }
        if x == 'B' as u8 {
            assert(c[5] == x);
        }
        if x == 'N' as u8 {
            assert(c[6] == x);
        }
        if x == 'G' as u8 {
            assert(c[7] == x);
        }
    }
    if k == 'T' as u8 {
        let c = amb[k];
        assert(c =~= seq!['W' as u8, 'Y' as u8, 'K' as u8, 'H' as u8, 'D' as u8, 'B' as u8, 'N' as u8, 'T' as u8]);
        if c.contains(x) {
            let q = choose|q: int| 0 <= q < c.len() && c[q] == x;
        }
        if x == 'W' as u8 {
            assert(c[0] == x);
        }
        if x == 'Y' as u8 {
            assert(c[1] == x);
        }
        if x == 'K' as u8 {
            assert(c[2] == x);
        }
        if x == 'H' as u8 {
            assert(c[3] == x);
        }
        if x == 'D' as u8 {
            assert(c[4] == x);
        }
        if x == 'B' as u8 {
            assert(c[5] == x);
        }
        if x == 'N' as u8 {
            assert(c[6] == x);
        }
        if x == 'T' as u8 {
            assert(c[7] == x);
        }
    }
    if k == 'U' as u8 {
        let c = amb[k];
        assert(c =~= seq!['W' as u8, 'Y' as u8, 'K' as u8, 'H' as u8, 'D' as u8, 'B' as u8, 'N' as u8, 'U' as u8]);
        if c.contains(x) {
            let q = choose|q: int| 0 <= q < c.len() && c[q] == x;
        }
        if x == 'W' as u8 {
            assert(c[0] == x);
        }
        if x == 'Y' as u8 {
            assert(c[1] == x);
        }
        if x == 'K' as u8 {
            assert(c[2] == x);
        }
        if x == 'H' as u8 {
            assert(c[3] == x);
        }
        if x == 'D' as u8 {
            assert(c[4] == x);
        }
        if x == 'B' as u8 {
            assert(c[5] == x);
        }
        if x == 'N' as u8 {
            assert(c[6] == x);
        }
        if x == 'U' as u8 {
            assert(c[7] == x);
        }
    }
}

/// Matching under the IUPAC classes works both ways: a pattern symbol matches
/// a text symbol exactly when the text symbol, in the pattern, would match
/// the pattern symbol in the text. Two different ambiguity codes never match.
pub proof fn lemma_iupac_matching_symmetric(p: u8, t: u8)
    ensures
        symbols_match(iupac_ambiguities(), p, t) == symbols_match(iupac_ambiguities(), t, p),
        is_code_byte(p) && is_code_byte(t) && p != t ==> !symbols_match(iupac_ambiguities(), p, t),
{
    lemma_iupac_member(p, t);
    lemma_iupac_member(t, p);
}

/// With bound 0, a copy of the pattern ending at `e` (N in the pattern
/// facing any literal base) that is the only end position at distance 0 is
/// the best hit, and its alignment starts where the copy starts.
pub proof fn lemma_unique_copy_is_best_hit(p: Seq<u8>, t: Seq<u8>, e: int)
    requires
        p.len() >= 1,
        0 <= e < t.len(),
        e + 1 >= p.len(),
        forall|q: int|
            0 <= q < p.len() ==> p[q] == #[trigger] t[e + 1 - p.len() + q] || (p[q] == 'N' as u8
                && is_literal_base(t[e + 1 - p.len() + q])),
        forall|e2: int|
            0 <= e2 < t.len() && e2 != e ==> end_distance(iupac_ambiguities(), p, t, e2) > 0,
        best_start_fits(iupac_ambiguities(), p, t, 0),
    ensures
        best_end(iupac_ambiguities(), p, t, 0) == Some((e, 0nat)),
        expected_hit(iupac_ambiguities(), p, t, 0) == Some(
            Hit { start: (e + 1 - p.len()) as usize, end: e as usize, distance: 0 },
        ),
{
    let amb = iupac_ambiguities();
    lemma_exact_copy_found(p, t, 0, e);
    let hits = end_hits(amb, p, t, 0, t.len());
    lemma_best_of_member(hits);
    lemma_end_hits_within_bound(amb, p, t, 0, t.len());
    lemma_end_hits_bounded(amb, p, t, 0, t.len());
    let b = best_of(hits)->0;
    let q = choose|q: int| 0 <= q < hits.len() && hits[q] == b;
    assert(hits[q].1 == end_distance(amb, p, t, hits[q].0));
    assert(b.0 == e);
}

/// With bound `k`, a pattern whose distance exceeds `k` at every end
/// position (with bound 0: one that has no copy, up to ambiguity, in the
/// text) has no best hit.
pub proof fn lemma_no_close_end_no_hit(amb: Map<u8, Seq<u8>>, p: Seq<u8>, t: Seq<u8>, k: nat)
    requires
        forall|e: int| 0 <= e < t.len() ==> end_distance(amb, p, t, e) > k,
    ensures
        best_end(amb, p, t, k) is None,
        expected_hit(amb, p, t, k) is None,
{
    let hits = end_hits(amb, p, t, k, t.len());
    lemma_best_of_member(hits);
    lemma_end_hits_within_bound(amb, p, t, k, t.len());
    lemma_end_hits_bounded(amb, p, t, k, t.len());
    if best_of(hits) is Some {
        let b = best_of(hits)->0;
        let q = choose|q: int| 0 <= q < hits.len() && hits[q] == b;
        assert(hits[q].1 == end_distance(amb, p, t, hits[q].0));
    }
}

} // verus!
