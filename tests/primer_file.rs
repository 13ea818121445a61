use hyperex::primer_pairs_from_text;

fn owned(rows: &[&[&str]]) -> Vec<Vec<String>> {
    rows.iter().map(|r| r.iter().map(|s| s.to_string()).collect()).collect()
}

#[test]
fn pairs_one_per_line() {
    assert_eq!(
        primer_pairs_from_text("CCTACGGGNGGCWGCAG,ATTACCGCGGCTGCTGG\nGTGCCAGCMGCCGCGGTAA,GACTACHVGGGTATCTAATCC\n"),
        Some(owned(&[
            &["CCTACGGGNGGCWGCAG", "ATTACCGCGGCTGCTGG"],
            &["GTGCCAGCMGCCGCGGTAA", "GACTACHVGGGTATCTAATCC"],
        ]))
    );
}

#[test]
fn carriage_returns_and_missing_final_newline() {
    assert_eq!(
        primer_pairs_from_text("AC,GT\r\nTT,GG"),
        Some(owned(&[&["AC", "GT"], &["TT", "GG"]]))
    );
}

#[test]
fn every_field_is_kept() {
    assert_eq!(primer_pairs_from_text("a,,b,\n"), Some(owned(&[&["a", "", "b", ""]])));
}

#[test]
fn line_without_comma_is_refused() {
    assert_eq!(primer_pairs_from_text("AC,GT\nACGT\n"), None);
    assert_eq!(primer_pairs_from_text("AC,GT\n\nTT,GG\n"), None);
}

#[test]
fn empty_text_holds_no_pair() {
    assert_eq!(primer_pairs_from_text(""), Some(Vec::new()));
}
