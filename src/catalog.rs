//! The catalog of known primers: the sub-region each primer binds next to,
//! the primer pair of each named region, and the label of a primer pair.

use vstd::prelude::*;
use vstd::string::*;

verus! {

/// What can be wrong with a primer given to the matcher.
#[derive(Debug, Clone, Copy, PartialEq, Eq, Structural)]
pub enum PrimerError {
    /// The primer holds no symbol.
    EmptyPrimer,
    /// The primer is longer than the 64 symbols the matcher supports.
    PrimerTooLong,
}

/// The sub-region label of a known primer; the empty label for any other.
pub open spec fn primer_label(p: Seq<char>) -> Seq<char> {
    if p == "AGAGTTTGATCMTGGCTCAG"@ { "v1"@ }
    else if p == "CCTACGGGNGGCWGCAG"@ { "v3"@ }
    else if p == "GTGCCAGCMGCCGCGGTAA"@ { "v4"@ }
    else if p == "GTGYCAGCMGCCGCGGTAA"@ { "v4"@ }
    else if p == "AACMGGATTAGATACCCKG"@ { "v5"@ }
    else if p == "TAAAACTYAAAKGAATTGACGGGG"@ { "v6"@ }
    else if p == "YAACGAGCGCAACCC"@ { "v7"@ }
    else if p == "ACTGCTGCSYCCCGTAGGAGTCT"@ { "v2"@ }
    else if p == "ATTACCGCGGCTGCTGG"@ { "v3"@ }
    else if p == "GACTACHVGGGTATCTAATCC"@ { "v4"@ }
    else if p == "CCGTCAATTYMTTTRAGT"@ { "v5"@ }
    else if p == "GGACTACHVGGGTWTCTAAT"@ { "v4"@ }
    else if p == "CCCCGYCAATTCMTTTRAGT"@ { "v5"@ }
    else if p == "ACGTCATCCCCACCTTCC"@ { "v7"@ }
    else if p == "TACGGYTACCTTGTTAYGACTT"@ { "v9"@ }
    else { Seq::empty() }
}

/// The label of a primer pair: the forward primer's label followed by the
/// reverse primer's, or that label once when both are the same non-empty
/// label.
pub open spec fn pair_label(forward: Seq<char>, reverse: Seq<char>) -> Seq<char> {
    let f = primer_label(forward);
    let r = primer_label(reverse);
    if f == r && f.len() > 0 {
        f
    } else {
        f + r
    }
}

/// The forward and reverse primer of each named region; a single empty
/// string for any other name.
pub open spec fn region_primers(region: Seq<char>) -> Seq<Seq<char>> {
    if region == "v1v2"@ { seq!["AGAGTTTGATCMTGGCTCAG"@, "ACTGCTGCSYCCCGTAGGAGTCT"@] }
    else if region == "v1v3"@ { seq!["AGAGTTTGATCMTGGCTCAG"@, "ATTACCGCGGCTGCTGG"@] }
    else if region == "v1v9"@ { seq!["AGAGTTTGATCMTGGCTCAG"@, "TACGGYTACCTTGTTAYGACTT"@] }
    else if region == "v3v4"@ { seq!["CCTACGGGNGGCWGCAG"@, "GACTACHVGGGTATCTAATCC"@] }
    else if region == "v3v5"@ { seq!["CCTACGGGNGGCWGCAG"@, "CCGTCAATTYMTTTRAGT"@] }
    else if region == "v4"@ { seq!["GTGCCAGCMGCCGCGGTAA"@, "GGACTACHVGGGTWTCTAAT"@] }
    else if region == "v4v5"@ { seq!["GTGYCAGCMGCCGCGGTAA"@, "CCCCGYCAATTCMTTTRAGT"@] }
    else if region == "v5v7"@ { seq!["AACMGGATTAGATACCCKG"@, "ACGTCATCCCCACCTTCC"@] }
    else if region == "v6v9"@ { seq!["TAAAACTYAAAKGAATTGACGGGG"@, "TACGGYTACCTTGTTAYGACTT"@] }
    else if region == "v7v9"@ { seq!["YAACGAGCGCAACCC"@, "TACGGYTACCTTGTTAYGACTT"@] }
    else { seq![Seq::empty()] }
}

/// The views of a vector of strings.
pub open spec fn views(v: Seq<String>) -> Seq<Seq<char>> {
    v.map_values(|s: String| s@)
}

/// Whether two strings hold the same characters.
pub fn same_text(a: &str, b: &str) -> (r: bool)
    ensures
        r == (a@ == b@),
{
    let n = a.unicode_len();
    if n != b.unicode_len() {
        return false;
    }
    let mut i: usize = 0;
    while i < n
        invariant
            n == a@.len(),
            n == b@.len(),
            i <= n,
            a@.subrange(0, i as int) == b@.subrange(0, i as int),
        decreases n - i,
    {
        let ca = a.get_char(i);
        let cb = b.get_char(i);
        if ca != cb {
            return false;
        }
        assert(a@.subrange(0, i + 1) =~= a@.subrange(0, i as int).push(ca));
        assert(b@.subrange(0, i + 1) =~= b@.subrange(0, i as int).push(cb));
        i = i + 1;
    }
    assert(a@.subrange(0, n as int) =~= a@);
    assert(b@.subrange(0, n as int) =~= b@);
    true
}

/// The sub-region label of a primer, empty when the catalog does not know it.
pub fn primer_label_of(p: &str) -> (r: &'static str)
    ensures
        r@ == primer_label(p@),
{
    if same_text(p, "AGAGTTTGATCMTGGCTCAG") { "v1" }
    else if same_text(p, "CCTACGGGNGGCWGCAG") { "v3" }
    else if same_text(p, "GTGCCAGCMGCCGCGGTAA") { "v4" }
    else if same_text(p, "GTGYCAGCMGCCGCGGTAA") { "v4" }
    else if same_text(p, "AACMGGATTAGATACCCKG") { "v5" }
    else if same_text(p, "TAAAACTYAAAKGAATTGACGGGG") { "v6" }
    else if same_text(p, "YAACGAGCGCAACCC") { "v7" }
    else if same_text(p, "ACTGCTGCSYCCCGTAGGAGTCT") { "v2" }
    else if same_text(p, "ATTACCGCGGCTGCTGG") { "v3" }
    else if same_text(p, "GACTACHVGGGTATCTAATCC") { "v4" }
    else if same_text(p, "CCGTCAATTYMTTTRAGT") { "v5" }
    else if same_text(p, "GGACTACHVGGGTWTCTAAT") { "v4" }
    else if same_text(p, "CCCCGYCAATTCMTTTRAGT") { "v5" }
    else if same_text(p, "ACGTCATCCCCACCTTCC") { "v7" }
    else if same_text(p, "TACGGYTACCTTGTTAYGACTT") { "v9" }
    else {
        proof {
            reveal_strlit("");
        }
        ""
    }
}

/// The label of a primer pair given as `[forward, reverse]`.
pub fn primers_to_region(primers: Vec<String>) -> (r: String)
    requires
        primers.len() >= 2,
    ensures
        r@ == pair_label(primers[0]@, primers[1]@),
{
    let first = primer_label_of(primers[0].as_str());
    let second = primer_label_of(primers[1].as_str());
    if same_text(first, second) && first.unicode_len() > 0 {
        first.to_owned()
    } else {
        first.to_owned().concat(second)
    }
}

fn pair_of(forward: &str, reverse: &str) -> (r: Vec<String>)
    ensures
        views(r@) == seq![forward@, reverse@],
{
    let r = vec![forward.to_owned(), reverse.to_owned()];
    assert(views(r@) =~= seq![forward@, reverse@]);
    r
}

/// The forward and reverse primer of a named region. A name the catalog
/// does not hold gives a single empty string.
pub fn region_to_primer(region: &str) -> (r: Result<Vec<String>, PrimerError>)
    ensures
        r matches Ok(v) && views(v@) == region_primers(region@),
{
    if same_text(region, "v1v2") {
        Ok(pair_of("AGAGTTTGATCMTGGCTCAG", "ACTGCTGCSYCCCGTAGGAGTCT"))
    } else if same_text(region, "v1v3") {
        Ok(pair_of("AGAGTTTGATCMTGGCTCAG", "ATTACCGCGGCTGCTGG"))
    } else if same_text(region, "v1v9") {
        Ok(pair_of("AGAGTTTGATCMTGGCTCAG", "TACGGYTACCTTGTTAYGACTT"))
    } else if same_text(region, "v3v4") {
        Ok(pair_of("CCTACGGGNGGCWGCAG", "GACTACHVGGGTATCTAATCC"))
    } else if same_text(region, "v3v5") {
        Ok(pair_of("CCTACGGGNGGCWGCAG", "CCGTCAATTYMTTTRAGT"))
    } else if same_text(region, "v4") {
        Ok(pair_of("GTGCCAGCMGCCGCGGTAA", "GGACTACHVGGGTWTCTAAT"))
    } else if same_text(region, "v4v5") {
        Ok(pair_of("GTGYCAGCMGCCGCGGTAA", "CCCCGYCAATTCMTTTRAGT"))
    } else if same_text(region, "v5v7") {
        Ok(pair_of("AACMGGATTAGATACCCKG", "ACGTCATCCCCACCTTCC"))
    } else if same_text(region, "v6v9") {
        Ok(pair_of("TAAAACTYAAAKGAATTGACGGGG", "TACGGYTACCTTGTTAYGACTT"))
    } else if same_text(region, "v7v9") {
        Ok(pair_of("YAACGAGCGCAACCC", "TACGGYTACCTTGTTAYGACTT"))
    } else {
        proof {
            reveal_strlit("");
        }
        let e = "".to_owned();
        assert(e@ =~= Seq::<char>::empty());
        let v = vec![e];
        assert(views(v@) =~= seq![Seq::<char>::empty()]);
        Ok(v)
    }
}

/// Pairs the forward primers with the reverse primers, position by position,
/// as far as the shorter list goes.
pub fn combine_vec(first: Vec<&str>, second: Vec<&str>) -> (r: Vec<Vec<String>>)
    ensures
        r.len() == if first.len() <= second.len() { first.len() } else { second.len() },
        forall|i: int|
            0 <= i < r.len() ==> views(#[trigger] r[i]@) == seq![first[i]@, second[i]@],
{
    let n = if first.len() <= second.len() { first.len() } else { second.len() };
    let mut r: Vec<Vec<String>> = Vec::new();
    let mut i: usize = 0;
    while i < n
        invariant
            n <= first.len(),
            n <= second.len(),
            i <= n,
            r.len() == i,
            forall|j: int| 0 <= j < i ==> views(#[trigger] r[j]@) == seq![first[j]@, second[j]@],
        decreases n - i,
    {
        r.push(pair_of(first[i], second[i]));
        i = i + 1;
    }
    r
}

} // verus!
