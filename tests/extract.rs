use hyperex::{
    annotation_line, best_match, check_primer, describe_region, find_all_ends, locate_region,
    record_regions, AmbiguityTable, ExtractError, Hit, PairOutcome, PrimerError,
};

fn v1v9_sequence() -> Vec<u8> {
    let mut s = b"AGAGTTTGATCATGGCTCAG".to_vec();
    s.extend_from_slice(b"ACGTACGTAC");
    s.extend_from_slice(b"AAGTCATAACAAGGTAACCGTA");
    s
}

#[test]
fn exact_copy_found_at_its_end() {
    let table = AmbiguityTable::new();
    assert_eq!(find_all_ends(&table, b"ACGT", b"CCCCACGTTTTT", 0), vec![(7, 0)]);
    assert_eq!(
        best_match(&table, b"ACGT", b"CCCCACGTTTTT", 0),
        Ok(Some(Hit { start: 4, end: 7, distance: 0 }))
    );
}

#[test]
fn substituted_copy_needs_one_mismatch() {
    let table = AmbiguityTable::new();
    assert_eq!(best_match(&table, b"ACGT", b"GGGGACCTGGGG", 0), Ok(None));
    assert_eq!(find_all_ends(&table, b"ACGT", b"GGGGACCTGGGG", 1), vec![(7, 1)]);
    assert_eq!(
        best_match(&table, b"ACGT", b"GGGGACCTGGGG", 1),
        Ok(Some(Hit { start: 4, end: 7, distance: 1 }))
    );
}

#[test]
fn n_in_pattern_matches_any_base() {
    let table = AmbiguityTable::new();
    for base in [b'A', b'C', b'G', b'T'] {
        let text = [b'G', b'G', b'A', b'C', base, b'T', b'G', b'G'];
        assert_eq!(find_all_ends(&table, b"ACNT", &text, 0), vec![(5, 0)]);
    }
}

#[test]
fn ties_go_to_the_first_end() {
    let table = AmbiguityTable::new();
    assert_eq!(
        best_match(&table, b"ACGT", b"ACGTTTACGT", 0),
        Ok(Some(Hit { start: 0, end: 3, distance: 0 }))
    );
}

#[test]
fn primers_outside_the_matcher_width_are_refused() {
    let table = AmbiguityTable::new();
    assert_eq!(check_primer(b""), Err(PrimerError::EmptyPrimer));
    assert_eq!(check_primer(&[b'A'; 65]), Err(PrimerError::PrimerTooLong));
    assert_eq!(check_primer(&[b'A'; 64]), Ok(()));
    assert_eq!(best_match(&table, b"", b"ACGT", 0), Err(PrimerError::EmptyPrimer));
    assert_eq!(best_match(&table, &[b'A'; 65], b"ACGT", 0), Err(PrimerError::PrimerTooLong));
}

#[test]
fn v1v9_region_found_end_to_end() {
    let table = AmbiguityTable::new();
    let seq = v1v9_sequence();
    assert_eq!(
        locate_region(&table, &seq, "AGAGTTTGATCMTGGCTCAG", "TACGGYTACCTTGTTAYGACTT", 0),
        Ok(PairOutcome::Region { start: 0, end: 52 })
    );
    let label = hyperex::primers_to_region(vec![
        "AGAGTTTGATCMTGGCTCAG".to_string(),
        "TACGGYTACCTTGTTAYGACTT".to_string(),
    ]);
    assert_eq!(label, "v1v9");
}

#[test]
fn missing_primers_are_reported() {
    let table = AmbiguityTable::new();
    let seq = v1v9_sequence();
    assert_eq!(
        locate_region(&table, &seq, "AGAGTTTGATCMTGGCTCAG", "CCCCCCCCCCCC", 0),
        Ok(PairOutcome::ReverseMissing)
    );
    assert_eq!(
        locate_region(&table, &seq, "CCCCCCCCCCCC", "TACGGYTACCTTGTTAYGACTT", 0),
        Ok(PairOutcome::ForwardMissing)
    );
    assert_eq!(
        locate_region(&table, &seq, "CCCCCCCCCCCC", "GGGGGGGGGGGG", 0),
        Ok(PairOutcome::BothMissing)
    );
}

#[test]
fn reverse_before_forward_is_misplaced() {
    let table = AmbiguityTable::new();
    // reverse complement of "AAAA" is "TTTT"; it stands before "GGGG"
    assert_eq!(
        locate_region(&table, b"CCTTTTCCGGGGCC", "GGGG", "AAAA", 0),
        Ok(PairOutcome::Misplaced { forward_start: 8, reverse_start: 2 })
    );
}

#[test]
fn unknown_alphabet_skips_matching() {
    let table = AmbiguityTable::new();
    assert_eq!(
        locate_region(&table, b"ACGTXXACGT", "ACGT", "ACGT", 0),
        Err(ExtractError::UnknownAlphabet)
    );
}

#[test]
fn unusable_primers_are_errors() {
    let table = AmbiguityTable::new();
    let long = "A".repeat(65);
    assert_eq!(
        locate_region(&table, b"ACGT", "", "ACGT", 0),
        Err(ExtractError::Forward(PrimerError::EmptyPrimer))
    );
    assert_eq!(
        locate_region(&table, b"ACGT", "ACGT", &long, 0),
        Err(ExtractError::Reverse(PrimerError::PrimerTooLong))
    );
}

#[test]
fn rna_sequence_uses_rna_complement() {
    let table = AmbiguityTable::new();
    // reverse complement of "AAGG" in RNA is "CCUU"
    assert_eq!(
        locate_region(&table, b"GGACGGCCUUAA", "ACGG", "AAGG", 0),
        Ok(PairOutcome::Region { start: 2, end: 10 })
    );
}

#[test]
fn every_pair_of_a_record_is_searched() {
    let table = AmbiguityTable::new();
    let seq = v1v9_sequence();
    let pairs = vec![
        vec!["AGAGTTTGATCMTGGCTCAG".to_string(), "TACGGYTACCTTGTTAYGACTT".to_string()],
        vec!["CCCCCCCCCCCC".to_string(), "GGGGGGGGGGGG".to_string()],
    ];
    let first = record_regions(&table, &seq, &pairs, 0);
    assert_eq!(
        first,
        vec![Ok(PairOutcome::Region { start: 0, end: 52 }), Ok(PairOutcome::BothMissing)]
    );
    assert_eq!(record_regions(&table, &seq, &pairs, 0), first);
}

#[test]
fn region_description_text() {
    assert_eq!(
        describe_region("v1v9", "AGAG", "TACG"),
        "region=v1v9 forward=AGAG reverse=TACG"
    );
    assert_eq!(describe_region("", "AGAG", "TACG"), "forward=AGAG reverse=TACG");
}

#[test]
fn annotation_line_text() {
    assert_eq!(
        annotation_line("seq1", 0, 1052, "v1v9"),
        "seq1\thyperex\tregion\t0\t1052\t.\t.\t.\tNote Hypervariable region v1v9\n"
    );
    assert_eq!(
        annotation_line("s", 10, 9, ""),
        "s\thyperex\tregion\t10\t9\t.\t.\t.\tNote Hypervariable region \n"
    );
}

#[test]
fn codes_in_the_text_match_literals_in_the_pattern() {
    let table = AmbiguityTable::new();
    assert_eq!(find_all_ends(&table, b"ACGT", b"NNNN", 0), vec![(3, 0)]);
    assert_eq!(find_all_ends(&table, b"AG", b"RR", 0), vec![(1, 0)]);
    assert_eq!(find_all_ends(&table, b"C", b"R", 0), vec![]);
    assert_eq!(
        locate_region(&table, b"NCAA", "AC", "TT", 0),
        Ok(PairOutcome::Region { start: 0, end: 4 })
    );
}

#[test]
fn different_codes_do_not_match() {
    let table = AmbiguityTable::new();
    assert_eq!(find_all_ends(&table, b"N", b"M", 0), vec![]);
    assert_eq!(find_all_ends(&table, b"V", b"M", 0), vec![]);
    assert_eq!(find_all_ends(&table, b"N", b"N", 0), vec![(0, 0)]);
}

#[test]
fn codes_cover_uracil() {
    let table = AmbiguityTable::new();
    for code in [b'N', b'W', b'Y', b'K', b'H', b'D', b'B'] {
        assert_eq!(find_all_ends(&table, &[code], b"U", 0), vec![(0, 0)]);
    }
    assert_eq!(find_all_ends(&table, b"AUG", b"CCAYG", 0), vec![(4, 0)]);
    assert_eq!(find_all_ends(&table, b"T", b"U", 0), vec![]);
}
