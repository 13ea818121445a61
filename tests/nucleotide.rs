use hyperex::{alphabet_of_bytes, sequence_type, to_complement, to_reverse_complement, Alphabet};

#[test]
fn test_complement_dna() {
    assert_eq!(
        to_complement("ATCGATCGATCGATCGRYKBVDHX", "dna"),
        Some(String::from("TAGCTAGCTAGCTAGCYRMVBHDX"))
    );
}

#[test]
fn test_complement_rna() {
    assert_eq!(
        to_complement("AUCGAUCGAUCGAUCGRYKBVDHMXN", "rna"),
        Some(String::from("UAGCUAGCUAGCUAGCYRMVBHDKXN"))
    );
}

#[test]
fn test_reverse_complement() {
    assert_eq!(
        to_reverse_complement("GTGCCAGCMGCCGCGGTAAN", "dna"),
        Some("NTTACCGCGGCKGCTGGCAC".to_string())
    );
}

#[test]
fn test_sequence_type_dna_ok() {
    assert_eq!(sequence_type("ATCGATCGATCG"), Some(Alphabet::Dna));
}

#[test]
fn test_sequence_type_dna_iupac_ok() {
    assert_eq!(sequence_type("ATCGMTGCAATCG"), Some(Alphabet::Dna));
}

#[test]
fn test_sequence_type_rna_ok() {
    assert_eq!(sequence_type("AGCUUUGCA"), Some(Alphabet::Rna));
}

#[test]
fn test_sequence_type_rna_iupac_ok() {
    assert_eq!(sequence_type("GUUUUAACCCAAM"), Some(Alphabet::Rna));
}

#[test]
fn test_sequence_type_err() {
    assert_eq!(sequence_type("ATCXXXRMGU"), None);
}

fn rc(p: &str, tag: &str) -> String {
    to_reverse_complement(p, tag).unwrap()
}

fn comp(p: &str, tag: &str) -> String {
    to_complement(p, tag).unwrap()
}

#[test]
fn reverse_complement_twice_gives_primer_back() {
    for p in ["GTGCCAGCMGCCGCGGTAAN", "ACGTRYSWKMBDHVN", ""] {
        assert_eq!(rc(&rc(p, "dna"), "dna"), p);
    }
    let r = "ACGURYSWKMBDHVN";
    assert_eq!(rc(&rc(r, "rna"), "rna"), r);
}

#[test]
fn complement_tables_follow_alphabet() {
    assert_eq!(comp("A", "dna"), "T");
    assert_eq!(comp("A", "rna"), "U");
    let dna = "ACGTRYSWKMBDHVN";
    assert_eq!(comp(&comp(dna, "dna"), "dna"), dna);
    assert_eq!(comp(dna, "dna"), "TGCAYRSWMKVHDBN");
}

#[test]
fn unknown_alphabet_tag_is_refused() {
    assert_eq!(to_complement("ACGT", "protein"), None);
    assert_eq!(to_complement("ACGT", ""), None);
    assert_eq!(to_reverse_complement("ACGT", ""), None);
    assert_eq!(to_reverse_complement("", "DNA"), None);
}

#[test]
fn empty_sequence_is_dna() {
    assert_eq!(sequence_type(""), Some(Alphabet::Dna));
}

#[test]
fn byte_classification_matches_text_classification() {
    assert_eq!(alphabet_of_bytes(b"ATCGMTGCAATCG"), Some(Alphabet::Dna));
    assert_eq!(alphabet_of_bytes(b"GUUUUAACCCAAM"), Some(Alphabet::Rna));
    assert_eq!(alphabet_of_bytes(b"ATCXXXRMGU"), None);
    assert_eq!(alphabet_of_bytes(b"acgt"), None);
}
