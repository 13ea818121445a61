use hyperex::{combine_vec, primer_label_of, primers_to_region, region_to_primer};

#[test]
fn test_primers_to_region_ok() {
    assert_eq!(
        primers_to_region(vec![
            "CCTACGGGNGGCWGCAG".to_string(),
            "GTGCCAGCMGCCGCGGTAA".to_string()
        ]),
        "v3v4".to_string()
    );
}

#[test]
fn test_primers_to_region_ok2() {
    assert_eq!(
        primers_to_region(vec![
            "GTGCCAGCMGCCGCGGTAA".to_string(),
            "GTGCCAGCMGCCGCGGTAA".to_string()
        ]),
        "v4".to_string()
    );
}

#[test]
fn test_primers_to_region_empty() {
    assert_eq!(
        primers_to_region(vec!["ZZZZZ".to_string(), "AAAAAA".to_string()]),
        "".to_string()
    );
}

#[test]
fn test_region_to_primer_ok() {
    assert_eq!(
        region_to_primer("v1v2").unwrap(),
        vec!["AGAGTTTGATCMTGGCTCAG", "ACTGCTGCSYCCCGTAGGAGTCT"]
    );
    assert_eq!(
        region_to_primer("v1v3").unwrap(),
        vec!["AGAGTTTGATCMTGGCTCAG", "ATTACCGCGGCTGCTGG"]
    );
    assert_eq!(
        region_to_primer("v1v9").unwrap(),
        vec!["AGAGTTTGATCMTGGCTCAG", "TACGGYTACCTTGTTAYGACTT"]
    );
    assert_eq!(
        region_to_primer("v3v4").unwrap(),
        vec!["CCTACGGGNGGCWGCAG", "GACTACHVGGGTATCTAATCC"]
    );
    assert_eq!(
        region_to_primer("v3v5").unwrap(),
        vec!["CCTACGGGNGGCWGCAG", "CCGTCAATTYMTTTRAGT"]
    );
    assert_eq!(
        region_to_primer("v4").unwrap(),
        vec!["GTGCCAGCMGCCGCGGTAA", "GGACTACHVGGGTWTCTAAT"]
    );
    assert_eq!(
        region_to_primer("v4v5").unwrap(),
        vec!["GTGYCAGCMGCCGCGGTAA", "CCCCGYCAATTCMTTTRAGT"]
    );
    assert_eq!(
        region_to_primer("v5v7").unwrap(),
        vec!["AACMGGATTAGATACCCKG", "ACGTCATCCCCACCTTCC"]
    );
    assert_eq!(
        region_to_primer("v6v9").unwrap(),
        vec!["TAAAACTYAAAKGAATTGACGGGG", "TACGGYTACCTTGTTAYGACTT"]
    );
    assert_eq!(
        region_to_primer("v7v9").unwrap(),
        vec!["YAACGAGCGCAACCC", "TACGGYTACCTTGTTAYGACTT"]
    );
    assert_eq!(region_to_primer("").unwrap(), vec![""]);
}

#[test]
fn test_combine_vec() {
    let first = vec!["ab", "cd", "ef"];
    let second = vec!["cd", "ef", "gh"];
    assert_eq!(
        combine_vec(first, second),
        vec![
            vec!["ab".to_string(), "cd".to_string()],
            vec!["cd".to_string(), "ef".to_string()],
            vec!["ef".to_string(), "gh".to_string()]
        ]
    );
}

#[test]
fn test_combine_vec_not_ok() {
    let first = vec!["ab", "cd", "ef"];
    let second = vec!["ab"];
    assert_ne!(
        combine_vec(first, second),
        vec![
            vec!["ab".to_string(), "cd".to_string()],
            vec!["cd".to_string(), "ef".to_string()],
            vec!["ef".to_string(), "gh".to_string()]
        ]
    );
}

#[test]
fn combine_vec_stops_at_shorter_list() {
    assert_eq!(
        combine_vec(vec!["ab", "cd", "ef"], vec!["ab"]),
        vec![vec!["ab".to_string(), "ab".to_string()]]
    );
    assert!(combine_vec(vec![], vec!["ab"]).is_empty());
}

#[test]
fn same_label_on_both_sides_is_given_once() {
    assert_eq!(
        primers_to_region(vec![
            "CCTACGGGNGGCWGCAG".to_string(),
            "ATTACCGCGGCTGCTGG".to_string()
        ]),
        "v3"
    );
}

#[test]
fn label_of_one_known_primer() {
    assert_eq!(
        primers_to_region(vec![
            "ZZZZZ".to_string(),
            "TACGGYTACCTTGTTAYGACTT".to_string()
        ]),
        "v9"
    );
    assert_eq!(
        primers_to_region(vec![
            "AGAGTTTGATCMTGGCTCAG".to_string(),
            "TACGGYTACCTTGTTAYGACTT".to_string()
        ]),
        "v1v9"
    );
}

#[test]
fn primer_labels() {
    assert_eq!(primer_label_of("YAACGAGCGCAACCC"), "v7");
    assert_eq!(primer_label_of("GTGYCAGCMGCCGCGGTAA"), "v4");
    assert_eq!(primer_label_of("GTGYCAGCMGCCGCGGTA"), "");
}

#[test]
fn unknown_region_gives_one_empty_primer() {
    assert_eq!(region_to_primer("v2v3").unwrap(), vec![""]);
}
