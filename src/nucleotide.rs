//! Nucleotide alphabets, alphabet classification and complementing.

use vstd::prelude::*;
use vstd::string::*;

verus! {

/// The two nucleotide alphabets a sequence can be written in.
#[derive(Debug, Clone, Copy, PartialEq, Eq, Structural)]
pub enum Alphabet {
    Dna,
    Rna,
}

/// The IUPAC ambiguity codes, which both alphabets share.
pub open spec fn is_ambiguity_code(c: char) -> bool {
    c == 'R' || c == 'Y' || c == 'S' || c == 'W' || c == 'K' || c == 'M' || c == 'B'
        || c == 'D' || c == 'H' || c == 'V' || c == 'N'
}

/// Members of the DNA IUPAC set: A, C, G, T and the ambiguity codes.
pub open spec fn is_dna_symbol(c: char) -> bool {
    c == 'A' || c == 'C' || c == 'G' || c == 'T' || is_ambiguity_code(c)
}

/// Members of the RNA IUPAC set: A, C, G, U and the ambiguity codes.
pub open spec fn is_rna_symbol(c: char) -> bool {
    c == 'A' || c == 'C' || c == 'G' || c == 'U' || is_ambiguity_code(c)
}

pub open spec fn all_dna(s: Seq<char>) -> bool {
    forall|i: int| 0 <= i < s.len() ==> is_dna_symbol(#[trigger] s[i])
}

pub open spec fn all_rna(s: Seq<char>) -> bool {
    forall|i: int| 0 <= i < s.len() ==> is_rna_symbol(#[trigger] s[i])
}

/// DNA when every symbol is in the DNA set, else RNA when every symbol is in
/// the RNA set, else no alphabet.
pub open spec fn alphabet_of(s: Seq<char>) -> Option<Alphabet> {
    if all_dna(s) {
        Some(Alphabet::Dna)
    } else if all_rna(s) {
        Some(Alphabet::Rna)
    } else {
        None
    }
}

/// The same classification over the bytes of a sequence.
pub open spec fn byte_alphabet_of(s: Seq<u8>) -> Option<Alphabet> {
    alphabet_of(s.map_values(|b: u8| b as char))
}

/// The complement of one symbol: A pairs with T in DNA and with U in RNA,
/// C with G, R with Y, K with M, B with V, D with H; every other symbol
/// (S, W, N and anything unrecognised) stays as it is.
pub open spec fn complement_symbol(c: char, a: Alphabet) -> char {
    if c == 'A' {
        if a == Alphabet::Dna { 'T' } else { 'U' }
    } else if c == 'T' && a == Alphabet::Dna {
        'A'
    } else if c == 'U' && a == Alphabet::Rna {
        'A'
    } else if c == 'C' { 'G' }
    else if c == 'G' { 'C' }
    else if c == 'R' { 'Y' }
    else if c == 'Y' { 'R' }
    else if c == 'K' { 'M' }
    else if c == 'M' { 'K' }
    else if c == 'B' { 'V' }
    else if c == 'V' { 'B' }
    else if c == 'D' { 'H' }
    else if c == 'H' { 'D' }
    else { c }
}

pub open spec fn complement_seq(s: Seq<char>, a: Alphabet) -> Seq<char> {
    Seq::new(s.len(), |i: int| complement_symbol(s[i], a))
}

pub open spec fn reverse_complement_seq(s: Seq<char>, a: Alphabet) -> Seq<char> {
    Seq::new(s.len(), |i: int| complement_symbol(s[s.len() - 1 - i], a))
}

/// The alphabet named by a tag: "dna" or "rna".
pub open spec fn tag_alphabet(tag: Seq<char>) -> Option<Alphabet> {
    if tag == seq!['d', 'n', 'a'] {
        Some(Alphabet::Dna)
    } else if tag == seq!['r', 'n', 'a'] {
        Some(Alphabet::Rna)
    } else {
        None
    }
}

proof fn lemma_all_push(s: Seq<char>, c: char)
    ensures
        all_dna(s.push(c)) == (all_dna(s) && is_dna_symbol(c)),
        all_rna(s.push(c)) == (all_rna(s) && is_rna_symbol(c)),
{
    let t = s.push(c);
    assert(t[s.len() as int] == c);
    assert forall|i: int| 0 <= i < s.len() implies t[i] == s[i] by {}
}

/// Relies on String::push: the character is appended at the end.
#[verifier::external_body]
pub(crate) fn push_char(s: &mut String, c: char)
    ensures
        final(s)@ == old(s)@.push(c),
{
    s.push(c);
}

fn is_dna_char(c: char) -> (r: bool)
    ensures
        r == is_dna_symbol(c),
{
    c == 'A' || c == 'C' || c == 'G' || c == 'T' || c == 'R' || c == 'Y' || c == 'S' || c == 'W'
        || c == 'K' || c == 'M' || c == 'B' || c == 'D' || c == 'H' || c == 'V' || c == 'N'
}

fn is_rna_char(c: char) -> (r: bool)
    ensures
        r == is_rna_symbol(c),
{
    c == 'A' || c == 'C' || c == 'G' || c == 'U' || c == 'R' || c == 'Y' || c == 'S' || c == 'W'
        || c == 'K' || c == 'M' || c == 'B' || c == 'D' || c == 'H' || c == 'V' || c == 'N'
}

/// Complement of one symbol in the given alphabet.
pub fn complement(c: char, a: Alphabet) -> (r: char)
    ensures
        r == complement_symbol(c, a),
{
    if c == 'A' {
        match a {
            Alphabet::Dna => 'T',
            Alphabet::Rna => 'U',
        }
    } else if c == 'T' && a == Alphabet::Dna {
        'A'
    } else if c == 'U' && a == Alphabet::Rna {
        'A'
    } else if c == 'C' {
        'G'
    } else if c == 'G' {
        'C'
    } else if c == 'R' {
        'Y'
    } else if c == 'Y' {
        'R'
    } else if c == 'K' {
        'M'
    } else if c == 'M' {
        'K'
    } else if c == 'B' {
        'V'
    } else if c == 'V' {
        'B'
    } else if c == 'D' {
        'H'
    } else if c == 'H' {
        'D'
    } else {
        c
    }
}

/// Reads an alphabet tag ("dna" or "rna").
pub fn alphabet_from_tag(tag: &str) -> (r: Option<Alphabet>)
    ensures
        r == tag_alphabet(tag@),
{
    let n = tag.unicode_len();
    if n != 3 {
        return None;
    }
    let c0 = tag.get_char(0);
    let c1 = tag.get_char(1);
    let c2 = tag.get_char(2);
    if c1 != 'n' || c2 != 'a' {
        assert(tag@ != seq!['d', 'n', 'a'] && tag@ != seq!['r', 'n', 'a']) by {
            assert(tag@[1] == c1 && tag@[2] == c2);
        }
        None
    } else if c0 == 'd' {
        assert(tag@ =~= seq!['d', 'n', 'a']);
        Some(Alphabet::Dna)
    } else if c0 == 'r' {
        assert(tag@ =~= seq!['r', 'n', 'a']);
        Some(Alphabet::Rna)
    } else {
        assert(tag@ != seq!['d', 'n', 'a'] && tag@ != seq!['r', 'n', 'a']) by {
            assert(tag@[0] == c0);
        }
        None
    }
}

/// Complement of every symbol of a primer, in order.
pub fn complement_in(primer: &str, a: Alphabet) -> (r: String)
    ensures
        r@ == complement_seq(primer@, a),
{
    let n = primer.unicode_len();
    let mut out = String::new();
    let mut i: usize = 0;
    while i < n
        invariant
            n == primer@.len(),
            i <= n,
            out@ == complement_seq(primer@.subrange(0, i as int), a),
        decreases n - i,
    {
        let c = primer.get_char(i);
        push_char(&mut out, complement(c, a));
        i = i + 1;
        assert(out@ =~= complement_seq(primer@.subrange(0, i as int), a));
    }
    assert(primer@.subrange(0, n as int) =~= primer@);
    out
}

/// Complement of a primer read backwards: the sequence of the opposite strand.
pub fn reverse_complement_in(primer: &str, a: Alphabet) -> (r: String)
    ensures
        r@ == reverse_complement_seq(primer@, a),
{
    let n = primer.unicode_len();
    let mut out = String::new();
    let mut i: usize = 0;
    while i < n
        invariant
            n == primer@.len(),
            i <= n,
            out@ =~= Seq::new(i as nat, |j: int| complement_symbol(primer@[n - 1 - j], a)),
        decreases n - i,
    {
        let c = primer.get_char(n - 1 - i);
        push_char(&mut out, complement(c, a));
        i = i + 1;
        assert(out@ =~= Seq::new(i as nat, |j: int| complement_symbol(primer@[n - 1 - j], a)));
    }
    out
}

/// Complement of a primer in the alphabet named by `alphabet` ("dna" or
/// "rna"). Any other tag is refused with `None`.
pub fn to_complement(primer: &str, alphabet: &str) -> (r: Option<String>)
    ensures
        r is None <==> tag_alphabet(alphabet@) is None,
        r matches Some(c) ==> c@ == complement_seq(primer@, tag_alphabet(alphabet@)->0),
{
    match alphabet_from_tag(alphabet) {
        Some(a) => Some(complement_in(primer, a)),
        None => None,
    }
}

/// Reverse complement of a primer in the alphabet named by `alphabet`
/// ("dna" or "rna"). Any other tag is refused with `None`.
pub fn to_reverse_complement(primer: &str, alphabet: &str) -> (r: Option<String>)
    ensures
        r is None <==> tag_alphabet(alphabet@) is None,
        r matches Some(c) ==> c@ == reverse_complement_seq(primer@, tag_alphabet(alphabet@)->0),
{
    match alphabet_from_tag(alphabet) {
        Some(a) => Some(reverse_complement_in(primer, a)),
        None => None,
    }
}

/// Classifies a sequence as DNA, RNA, or neither.
pub fn sequence_type(sequence: &str) -> (r: Option<Alphabet>)
    ensures
        r == alphabet_of(sequence@),
{
    let n = sequence.unicode_len();
    let mut dna = true;
    let mut rna = true;
    let mut i: usize = 0;
    while i < n
        invariant
            n == sequence@.len(),
            i <= n,
            dna == all_dna(sequence@.subrange(0, i as int)),
            rna == all_rna(sequence@.subrange(0, i as int)),
        decreases n - i,
    {
        let c = sequence.get_char(i);
        assert(sequence@.subrange(0, i + 1) =~= sequence@.subrange(0, i as int).push(c));
        proof {
            lemma_all_push(sequence@.subrange(0, i as int), c);
        }
        dna = dna && is_dna_char(c);
        rna = rna && is_rna_char(c);
        i = i + 1;
    }
    assert(sequence@.subrange(0, n as int) =~= sequence@);
    if dna {
        Some(Alphabet::Dna)
    } else if rna {
        Some(Alphabet::Rna)
    } else {
        None
    }
}

/// Classifies the bytes of a sequence as DNA, RNA, or neither.
pub fn alphabet_of_bytes(sequence: &[u8]) -> (r: Option<Alphabet>)
    ensures
        r == byte_alphabet_of(sequence@),
{
    let n = sequence.len();
    let mut dna = true;
    let mut rna = true;
    let mut i: usize = 0;
    let ghost chars = sequence@.map_values(|b: u8| b as char);
    while i < n
        invariant
            n == sequence@.len(),
            chars == sequence@.map_values(|b: u8| b as char),
            i <= n,
            dna == all_dna(chars.subrange(0, i as int)),
            rna == all_rna(chars.subrange(0, i as int)),
        decreases n - i,
    {
        let c = sequence[i] as char;
        assert(chars.subrange(0, i + 1) =~= chars.subrange(0, i as int).push(c));
        proof {
            lemma_all_push(chars.subrange(0, i as int), c);
        }
        dna = dna && is_dna_char(c);
        rna = rna && is_rna_char(c);
        i = i + 1;
    }
    assert(chars.subrange(0, n as int) =~= chars);
    if dna {
        Some(Alphabet::Dna)
    } else if rna {
        Some(Alphabet::Rna)
    } else {
        None
    }
}

/// Complementing a symbol twice in one alphabet gives the symbol back.
pub proof fn lemma_complement_symbol_involution(c: char, a: Alphabet)
    ensures
        complement_symbol(complement_symbol(c, a), a) == c,
{
}

/// Complementing twice in one alphabet gives the original primer back.
pub proof fn lemma_complement_involution(p: Seq<char>, a: Alphabet)
    ensures
        complement_seq(complement_seq(p, a), a) == p,
{
    assert forall|i: int| 0 <= i < p.len() implies complement_seq(complement_seq(p, a), a)[i]
        == p[i] by {
        lemma_complement_symbol_involution(p[i], a);
    }
    assert(complement_seq(complement_seq(p, a), a) =~= p);
}

/// Reverse-complementing twice in one alphabet gives the original primer back.
pub proof fn lemma_reverse_complement_involution(p: Seq<char>, a: Alphabet)
    ensures
        reverse_complement_seq(reverse_complement_seq(p, a), a) == p,
{
    let q = reverse_complement_seq(p, a);
    assert forall|i: int| 0 <= i < p.len() implies reverse_complement_seq(q, a)[i] == p[i] by {
        lemma_complement_symbol_involution(p[i], a);
    }
    assert(reverse_complement_seq(q, a) =~= p);
}

/// The complement tables agree with their alphabets: A pairs with T in DNA
/// and with U in RNA, and complementing a DNA symbol twice returns it.
pub proof fn lemma_complement_tables(x: char)
    requires
        is_dna_symbol(x),
    ensures
        complement_symbol('A', Alphabet::Dna) == 'T',
        complement_symbol('A', Alphabet::Rna) == 'U',
        complement_symbol(complement_symbol(x, Alphabet::Dna), Alphabet::Dna) == x,
        is_dna_symbol(complement_symbol(x, Alphabet::Dna)),
{
}

} // verus!
