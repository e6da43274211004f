use ldhat::error::ErrorKind;
use ldhat::locs::{parse_locs, Model};
use ldhat::seqs::parse_sites;
use ldhat::symbols::Ploidy;
use std::str::FromStr;

#[test]
fn test_parse_model() {
    assert_eq!(Model::from_str("L").unwrap(), Model::CrossingOver);
    assert_eq!("L".parse::<Model>().unwrap(), Model::CrossingOver);
    assert_eq!(Model::from_str("C").unwrap(), Model::GeneConversion);
    assert_eq!("C".parse::<Model>().unwrap(), Model::GeneConversion);
}

#[test]
fn test_parse_model_rejects_other_tags() {
    assert!(Model::from_str("X").is_err());
    assert!(Model::from_str("LC").is_err());
    assert!(Model::from_str("").is_err());
}

#[test]
fn test_parse_locs() {
    let locs_content = "10  1200 L\n1 57 180 187 223 250 438 509 878 1034";
    let locs = parse_locs(locs_content.as_bytes()).unwrap();
    let got: Vec<f64> = locs.data.iter().map(|&p| p as f64 / 1000.0).collect();
    let expected = vec![1., 57., 180., 187., 223., 250., 438., 509., 878., 1034.];
    assert_eq!(got, expected);
    assert_eq!(locs.length as f64 / 1000.0, 1200.);
    assert_eq!(locs.model, Model::CrossingOver);
}

#[test]
fn test_parse_locs_fractions() {
    let locs = parse_locs("3 99.5 C\n0.5 1.25 70.2".as_bytes()).unwrap();
    assert_eq!(locs.data, vec![500u64, 1250, 70200]);
    assert_eq!(locs.length, 99500);
    assert_eq!(locs.model, Model::GeneConversion);
}

#[test]
fn test_parse_locs_rejects_nonmonotonic() {
    let e = parse_locs("3 100 L\n5 4 10".as_bytes()).unwrap_err();
    assert_eq!(e.kind, ErrorKind::Parse);
    // equal neighbours are rejected too: strictly increasing is required
    let e = parse_locs("3 100 L\n4 4 10".as_bytes()).unwrap_err();
    assert_eq!(e.kind, ErrorKind::Parse);
    // a leading zero position is rejected: positions must be positive
    let e = parse_locs("2 100 L\n0 4".as_bytes()).unwrap_err();
    assert_eq!(e.kind, ErrorKind::Parse);
}

#[test]
fn test_parse_locs_rejects_count_mismatch() {
    let e = parse_locs("3 100 L\n1 2".as_bytes()).unwrap_err();
    assert_eq!(e.kind, ErrorKind::Parse);
    let e = parse_locs("1 100 L\n1 2".as_bytes()).unwrap_err();
    assert_eq!(e.kind, ErrorKind::Parse);
}

#[test]
fn test_parse_locs_rejects_malformed_header() {
    assert!(parse_locs("x 100 L\n1 2".as_bytes()).is_err());
    assert!(parse_locs("2 100 Q\n1 2".as_bytes()).is_err());
    assert!(parse_locs("2 100 L 1 2".as_bytes()).is_err());
    assert!(parse_locs("".as_bytes()).is_err());
}

#[test]
fn test_parse_sites() {
    let content = "4 10 1\n>SampleA\nTCCGC??RTT\n>SampleB\nTACGC??GTA\n>SampleC\nTC?-CTTGTA\n>SampleD\nTCC-CTTGTT";
    let seqs = parse_sites(content.as_bytes()).unwrap();
    assert_eq!(seqs.ploidy, Ploidy::Haploid);
    let sample_a = seqs.index(b"SampleA".as_slice()).unwrap();
    let codes: Vec<u8> = sample_a.iter().map(|b| b.code()).collect();
    assert_eq!(codes, vec![2u8, 3, 3, 5, 3, 1, 1, 1, 2, 2]);
    let nall = seqs.allele_count();
    let n: Vec<u32> = nall.iter().map(|t| t.n).collect();
    let t: Vec<u32> = nall.iter().map(|t| t.t).collect();
    let c: Vec<u32> = nall.iter().map(|t| t.c).collect();
    let a: Vec<u32> = nall.iter().map(|t| t.a).collect();
    let g: Vec<u32> = nall.iter().map(|t| t.g).collect();
    assert_eq!(n, vec![0u32, 0, 1, 2, 0, 2, 2, 1, 0, 0]);
    assert_eq!(t, vec![4u32, 0, 0, 0, 0, 2, 2, 0, 4, 2]);
    assert_eq!(c, vec![0u32, 3, 3, 0, 4, 0, 0, 0, 0, 0]);
    assert_eq!(a, vec![0u32, 1, 0, 0, 0, 0, 0, 0, 0, 2]);
    assert_eq!(g, vec![0u32, 0, 0, 2, 0, 0, 0, 3, 0, 0]);
}

#[test]
fn test_parse_sites_dimension_mismatch() {
    // declared three sequences, two given
    let e = parse_sites("3 2 1\n>a\nTC\n>b\nTC".as_bytes()).unwrap_err();
    assert_eq!(e.kind, ErrorKind::Parse);
    // declared length three, record of length two
    let e = parse_sites("2 3 1\n>a\nTCT\n>b\nTC".as_bytes()).unwrap_err();
    assert_eq!(e.kind, ErrorKind::Parse);
}

#[test]
fn test_parse_sites_rejects_bad_ploidy() {
    let e = parse_sites("1 2 3\n>a\nTC".as_bytes()).unwrap_err();
    assert_eq!(e.kind, ErrorKind::Parse);
}

#[test]
fn test_parse_sites_record_layout() {
    // multi-line records are concatenated; the name stops at the first blank
    let seqs = parse_sites("1 6 2\n>name extra words\nTCA\nGTC".as_bytes()).unwrap();
    assert_eq!(seqs.ploidy, Ploidy::Diploid);
    assert_eq!(seqs.names()[0], b"name".to_vec());
    assert_eq!(seqs.len(), 6);
    assert_eq!(seqs.shape(), (6, 1));
    // a stray line before the first record marker is rejected
    assert!(parse_sites("1 3 1\nTCA\n>a\nTCA".as_bytes()).is_err());
}
