//! Locating primer pairs in sequence records and describing the regions
//! they delimit.

use vstd::prelude::*;
use vstd::string::*;
use vstd::utf8::encode_utf8;
use crate::catalog::PrimerError;
use crate::matcher::{
    best_match, best_start_fits, end_distance, expected_hit, iupac_ambiguities, lemma_no_close_end_no_hit,
    lemma_unique_copy_is_best_hit,
    AmbiguityTable, Hit,
};
use crate::nucleotide::{alphabet_of_bytes, byte_alphabet_of, reverse_complement_in, reverse_complement_seq};

verus! {

/// What became of one primer pair on one sequence.
#[derive(Debug, Clone, Copy, PartialEq, Eq, Structural)]
pub enum PairOutcome {
    /// Both primers were found; the region runs from `start` up to, not
    /// including, `end`, which lies just past the reverse primer.
    Region { start: usize, end: usize },
    /// The forward primer was found, the reverse primer was not.
    ReverseMissing,
    /// The reverse primer was found, the forward primer was not.
    ForwardMissing,
    /// Neither primer was found.
    BothMissing,
    /// Both primers were found, but the reverse primer does not end after
    /// the forward primer starts, or ends past the sequence; the two
    /// alignment starts are given.
    Misplaced { forward_start: usize, reverse_start: usize },
}

/// Why a primer pair could not be searched for in a sequence.
#[derive(Debug, Clone, Copy, PartialEq, Eq, Structural)]
pub enum ExtractError {
    /// The sequence is neither DNA nor RNA, so the reverse primer cannot be
    /// complemented.
    UnknownAlphabet,
    /// The forward primer cannot be searched for.
    Forward(PrimerError),
    /// The reverse-complemented reverse primer cannot be searched for.
    Reverse(PrimerError),
}

pub open spec fn primer_problem(p: Seq<u8>) -> Option<PrimerError> {
    if p.len() == 0 {
        Some(PrimerError::EmptyPrimer)
    } else if p.len() > 64 {
        Some(PrimerError::PrimerTooLong)
    } else {
        None
    }
}

/// The outcome given the best hits of both primers and the byte length of the
/// reverse primer.
pub open spec fn outcome_of(f: Option<Hit>, r: Option<Hit>, reverse_len: int, seq_len: int) -> PairOutcome {
    match (f, r) {
        (Some(fh), Some(rh)) => {
            let end = rh.start + reverse_len;
            if fh.start <= end <= seq_len {
                PairOutcome::Region { start: fh.start, end: end as usize }
            } else {
                PairOutcome::Misplaced { forward_start: fh.start, reverse_start: rh.start }
            }
        },
        (Some(_), None) => PairOutcome::ReverseMissing,
        (None, Some(_)) => PairOutcome::ForwardMissing,
        (None, None) => PairOutcome::BothMissing,
    }
}

/// What searching the pair (`forward`, `reverse`) in `seq` with at most
/// `k` edits per primer yields: the forward primer is searched as it is,
/// the reverse primer as its reverse complement in the sequence's alphabet.
pub open spec fn pair_outcome(
    amb: Map<u8, Seq<u8>>,
    seq: Seq<u8>,
    forward: Seq<char>,
    reverse: Seq<char>,
    k: nat,
) -> Result<PairOutcome, ExtractError> {
    match byte_alphabet_of(seq) {
        None => Err(ExtractError::UnknownAlphabet),
        Some(a) => {
            let fp = encode_utf8(forward);
            let rp = encode_utf8(reverse_complement_seq(reverse, a));
            match (primer_problem(fp), primer_problem(rp)) {
                (Some(e), _) => Err(ExtractError::Forward(e)),
                (None, Some(e)) => Err(ExtractError::Reverse(e)),
                (None, None) => Ok(
                    outcome_of(
                        expected_hit(amb, fp, seq, k),
                        expected_hit(amb, rp, seq, k),
                        encode_utf8(reverse).len() as int,
                        seq.len() as int,
                    ),
                ),
            }
        },
    }
}

/// The bytes searched for the forward primer.
pub open spec fn forward_pattern(forward: Seq<char>) -> Seq<u8> {
    encode_utf8(forward)
}

/// The bytes searched for the reverse primer: its reverse complement in the
/// alphabet of `seq`.
pub open spec fn reverse_pattern(seq: Seq<u8>, reverse: Seq<char>) -> Seq<u8> {
    encode_utf8(reverse_complement_seq(reverse, byte_alphabet_of(seq)->0))
}

/// When both primers can be searched for in `seq`, the starts recovered for
/// their best hits fit those hits.
pub open spec fn pair_starts_fit(
    amb: Map<u8, Seq<u8>>,
    seq: Seq<u8>,
    forward: Seq<char>,
    reverse: Seq<char>,
    k: nat,
) -> bool {
    byte_alphabet_of(seq) is Some && primer_problem(forward_pattern(forward)) is None
        && primer_problem(reverse_pattern(seq, reverse)) is None ==> best_start_fits(
        amb,
        forward_pattern(forward),
        seq,
        k,
    ) && best_start_fits(amb, reverse_pattern(seq, reverse), seq, k)
}

/// Searches one primer pair in a sequence and says whether, and where, it
/// delimits a region.
pub fn locate_region(table: &AmbiguityTable, seq: &[u8], forward: &str, reverse: &str, mismatch: u8) -> (r: Result<PairOutcome, ExtractError>)
    requires
        table.wf(),
    ensures
        r == pair_outcome(table.classes(), seq@, forward@, reverse@, mismatch as nat),
        pair_starts_fit(table.classes(), seq@, forward@, reverse@, mismatch as nat),
{
    let alphabet = match alphabet_of_bytes(seq) {
        None => return Err(ExtractError::UnknownAlphabet),
        Some(a) => a,
    };
    let reverse_rc = reverse_complement_in(reverse, alphabet);
    let fp = forward.as_bytes();
    let rp = reverse_rc.as_str().as_bytes();
    let forward_hit = match best_match(table, fp, seq, mismatch) {
        Err(e) => return Err(ExtractError::Forward(e)),
        Ok(h) => h,
    };
    let reverse_hit = match best_match(table, rp, seq, mismatch) {
        Err(e) => return Err(ExtractError::Reverse(e)),
        Ok(h) => h,
    };
    let reverse_len = reverse.as_bytes().len();
    match (forward_hit, reverse_hit) {
        (Some(fh), Some(rh)) => {
            if rh.start <= seq.len() && reverse_len <= seq.len() - rh.start {
                let end = rh.start + reverse_len;
                if fh.start <= end {
                    Ok(PairOutcome::Region { start: fh.start, end })
                } else {
                    Ok(PairOutcome::Misplaced { forward_start: fh.start, reverse_start: rh.start })
                }
            } else {
                Ok(PairOutcome::Misplaced { forward_start: fh.start, reverse_start: rh.start })
            }
        },
        (Some(_), None) => Ok(PairOutcome::ReverseMissing),
        (None, Some(_)) => Ok(PairOutcome::ForwardMissing),
        (None, None) => Ok(PairOutcome::BothMissing),
    }
}

/// Searches every primer pair of a list in one sequence, in order.
pub fn record_regions(table: &AmbiguityTable, seq: &[u8], primers: &Vec<Vec<String>>, mismatch: u8) -> (r: Vec<Result<PairOutcome, ExtractError>>)
    requires
        table.wf(),
        forall|i: int| 0 <= i < primers.len() ==> #[trigger] primers[i].len() >= 2,
    ensures
        r.len() == primers.len(),
        forall|i: int|
            0 <= i < primers.len() ==> #[trigger] r[i] == pair_outcome(
                table.classes(),
                seq@,
                primers[i][0]@,
                primers[i][1]@,
                mismatch as nat,
            ),
{
    let mut r: Vec<Result<PairOutcome, ExtractError>> = Vec::new();
    let mut i: usize = 0;
    while i < primers.len()
        invariant
            table.wf(),
            forall|j: int| 0 <= j < primers.len() ==> #[trigger] primers[j].len() >= 2,
            i <= primers.len(),
            r.len() == i,
            forall|j: int|
                0 <= j < i ==> #[trigger] r[j] == pair_outcome(
                    table.classes(),
                    seq@,
                    primers[j][0]@,
                    primers[j][1]@,
                    mismatch as nat,
                ),
        decreases primers.len() - i,
    {
        let pair = &primers[i];
        assert(pair.len() >= 2);
        r.push(locate_region(table, seq, pair[0].as_str(), pair[1].as_str(), mismatch));
        i = i + 1;
    }
    r
}

/// The attribute text of an extracted region's record:
/// "region=<label> forward=<primer> reverse=<primer>", without the region
/// part when the label is empty.
pub open spec fn description_text(label: Seq<char>, forward: Seq<char>, reverse: Seq<char>) -> Seq<char> {
    let primers = "forward="@ + forward + " reverse="@ + reverse;
    if label.len() == 0 {
        primers
    } else {
        "region="@ + label + " "@ + primers
    }
}

/// The attribute text of an extracted region's record.
pub fn describe_region(label: &str, forward: &str, reverse: &str) -> (r: String)
    ensures
        r@ == description_text(label@, forward@, reverse@),
{
    let mut primers = "forward=".to_owned();
    primers.append(forward);
    primers.append(" reverse=");
    primers.append(reverse);
    if label.unicode_len() == 0 {
        primers
    } else {
        let mut r = "region=".to_owned();
        r.append(label);
        r.append(" ");
        r.append(primers.as_str());
        assert(r@ =~= description_text(label@, forward@, reverse@));
        r
    }
}

pub open spec fn digit_char(d: nat) -> char {
    if d == 0 { '0' }
    else if d == 1 { '1' }
    else if d == 2 { '2' }
    else if d == 3 { '3' }
    else if d == 4 { '4' }
    else if d == 5 { '5' }
    else if d == 6 { '6' }
    else if d == 7 { '7' }
    else if d == 8 { '8' }
    else { '9' }
}

/// The decimal digits of `n`, most significant first, without leading zeros.
pub open spec fn decimal(n: nat) -> Seq<char>
    decreases n,
{
    if n < 10 {
        seq![digit_char(n)]
    } else {
        decimal(n / 10).push(digit_char(n % 10))
    }
}

fn digit(d: usize) -> (c: char)
    requires
        d < 10,
    ensures
        c == digit_char(d as nat),
{
    if d == 0 { '0' }
    else if d == 1 { '1' }
    else if d == 2 { '2' }
    else if d == 3 { '3' }
    else if d == 4 { '4' }
    else if d == 5 { '5' }
    else if d == 6 { '6' }
    else if d == 7 { '7' }
    else if d == 8 { '8' }
    else { '9' }
}

/// Appends the decimal digits of `n`.
pub fn push_decimal(out: &mut String, n: usize)
    ensures
        final(out)@ == old(out)@ + decimal(n as nat),
    decreases n,
{
    if n >= 10 {
        push_decimal(out, n / 10);
    }
    crate::nucleotide::push_char(out, digit(n % 10));
    assert(final(out)@ =~= old(out)@ + decimal(n as nat));
}

/// The annotation line of a region: nine tab-separated columns (sequence
/// id, source, feature type, start, end, three placeholders, and a note
/// naming the region), ended by a newline.
pub open spec fn annotation_text(id: Seq<char>, start: nat, end: nat, label: Seq<char>) -> Seq<char> {
    id + "\thyperex\tregion\t"@ + decimal(start) + "\t"@ + decimal(end)
        + "\t.\t.\t.\tNote Hypervariable region "@ + label + "\n"@
}

/// The annotation line of a region.
pub fn annotation_line(id: &str, start: usize, end: usize, label: &str) -> (r: String)
    ensures
        r@ == annotation_text(id@, start as nat, end as nat, label@),
{
    let mut r = id.to_owned();
    r.append("\thyperex\tregion\t");
    push_decimal(&mut r, start);
    r.append("\t");
    push_decimal(&mut r, end);
    r.append("\t.\t.\t.\tNote Hypervariable region ");
    r.append(label);
    r.append("\n");
    assert(r@ =~= annotation_text(id@, start as nat, end as nat, label@));
    r
}

/// Extraction is reproducible: two runs of the same primer pairs over the
/// same sequence with the same bound decide the same outcome for every pair,
/// and so cut the same regions.
pub proof fn lemma_extraction_reproducible(
    amb: Map<u8, Seq<u8>>,
    seq: Seq<u8>,
    primers: Seq<(Seq<char>, Seq<char>)>,
    k: nat,
    first: Seq<Result<PairOutcome, ExtractError>>,
    second: Seq<Result<PairOutcome, ExtractError>>,
)
    requires
        first.len() == primers.len(),
        second.len() == primers.len(),
        forall|i: int|
            0 <= i < primers.len() ==> #[trigger] first[i] == pair_outcome(
                amb,
                seq,
                primers[i].0,
                primers[i].1,
                k,
            ),
        forall|i: int|
            0 <= i < primers.len() ==> #[trigger] second[i] == pair_outcome(
                amb,
                seq,
                primers[i].0,
                primers[i].1,
                k,
            ),
    ensures
        first == second,
{
    assert(first =~= second);
}

/// With bound 0, when the forward primer occurs at `a` and the reverse
/// complement of the reverse primer at `b`, each the only end position at
/// distance 0 for its primer, and the reverse site ends after `a`, the pair
/// delimits the region from `a` to the end of the reverse site. `r` is what
/// `locate_region` returns for the pair.
pub proof fn lemma_region_between_unique_copies(
    seq: Seq<u8>,
    forward: Seq<char>,
    reverse: Seq<char>,
    a: int,
    b: int,
    r: Result<PairOutcome, ExtractError>,
)
    requires
        r == pair_outcome(iupac_ambiguities(), seq, forward, reverse, 0),
        pair_starts_fit(iupac_ambiguities(), seq, forward, reverse, 0),
        byte_alphabet_of(seq) is Some,
        seq.len() <= usize::MAX,
        1 <= forward_pattern(forward).len() <= 64,
        1 <= reverse_pattern(seq, reverse).len() <= 64,
        encode_utf8(reverse).len() == reverse_pattern(seq, reverse).len(),
        0 <= a,
        a + forward_pattern(forward).len() <= seq.len(),
        seq.subrange(a, a + forward_pattern(forward).len()) == forward_pattern(forward),
        0 <= b,
        b + reverse_pattern(seq, reverse).len() <= seq.len(),
        seq.subrange(b, b + reverse_pattern(seq, reverse).len()) == reverse_pattern(seq, reverse),
        a <= b + reverse_pattern(seq, reverse).len(),
        forall|e: int|
            0 <= e < seq.len() && e != a + forward_pattern(forward).len() - 1 ==> end_distance(
                iupac_ambiguities(),
                forward_pattern(forward),
                seq,
                e,
            ) > 0,
        forall|e: int|
            0 <= e < seq.len() && e != b + reverse_pattern(seq, reverse).len() - 1 ==> end_distance(
                iupac_ambiguities(),
                reverse_pattern(seq, reverse),
                seq,
                e,
            ) > 0,
    ensures
        r == Ok::<PairOutcome, ExtractError>(
            PairOutcome::Region {
                start: a as usize,
                end: (b + reverse_pattern(seq, reverse).len()) as usize,
            },
        ),
{
    let fp = forward_pattern(forward);
    let rp = reverse_pattern(seq, reverse);
    let fe = a + fp.len() - 1;
    let re = b + rp.len() - 1;
    assert forall|q: int| 0 <= q < fp.len() implies fp[q] == #[trigger] seq[fe + 1 - fp.len() + q]
        || (fp[q] == 'N' as u8 && crate::matcher::is_literal_base(seq[fe + 1 - fp.len() + q])) by {
        assert(seq.subrange(a, a + fp.len())[q] == seq[a + q]);
    }
    assert forall|q: int| 0 <= q < rp.len() implies rp[q] == #[trigger] seq[re + 1 - rp.len() + q]
        || (rp[q] == 'N' as u8 && crate::matcher::is_literal_base(seq[re + 1 - rp.len() + q])) by {
        assert(seq.subrange(b, b + rp.len())[q] == seq[b + q]);
    }
    lemma_unique_copy_is_best_hit(fp, seq, fe);
    lemma_unique_copy_is_best_hit(rp, seq, re);
    assert(primer_problem(fp) is None && primer_problem(rp) is None);
}

/// A pair whose forward primer is at distance above the bound at every end
/// position of the sequence delimits no region: the forward primer is
/// reported absent (alone, or with the reverse primer).
pub proof fn lemma_forward_absent(amb: Map<u8, Seq<u8>>, seq: Seq<u8>, forward: Seq<char>, reverse: Seq<char>, k: nat)
    requires
        byte_alphabet_of(seq) is Some,
        1 <= forward_pattern(forward).len() <= 64,
        1 <= reverse_pattern(seq, reverse).len() <= 64,
        forall|e: int| 0 <= e < seq.len() ==> end_distance(amb, forward_pattern(forward), seq, e) > k,
    ensures
        pair_outcome(amb, seq, forward, reverse, k) == Ok::<PairOutcome, ExtractError>(PairOutcome::ForwardMissing)
            || pair_outcome(amb, seq, forward, reverse, k) == Ok::<PairOutcome, ExtractError>(PairOutcome::BothMissing),
{
    lemma_no_close_end_no_hit(amb, forward_pattern(forward), seq, k);
    assert(primer_problem(forward_pattern(forward)) is None && primer_problem(reverse_pattern(seq, reverse)) is None);
}

} // verus!
