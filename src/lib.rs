//! Primer-based extraction of hypervariable regions from nucleotide sequences.
//!
//! The library classifies sequences as DNA or RNA, complements primers over the
//! IUPAC ambiguity alphabet, names primer pairs after the regions they delimit,
//! and locates each primer pair in a sequence with an ambiguity-aware bounded
//! edit-distance search.

pub mod catalog;
pub mod extract;
pub mod matcher;
pub mod nucleotide;
pub mod primer_file;

pub use catalog::{combine_vec, primer_label_of, primers_to_region, region_to_primer, PrimerError};
pub use extract::{
    annotation_line, describe_region, locate_region, record_regions, ExtractError, PairOutcome,
};
pub use matcher::{best_match, check_primer, find_all_ends, AmbiguityTable, Hit};
pub use nucleotide::{
    alphabet_of_bytes, sequence_type, to_complement, to_reverse_complement, Alphabet,
};
pub use primer_file::primer_pairs_from_text;
