use ldhat::convert::{convert, ConvertParams};
use ldhat::error::ErrorKind;
use ldhat::filter::decide_sites;
use ldhat::locs::parse_locs;
use ldhat::seqs::parse_sites;
use ldhat::symbols::Ploidy;
use ldhat::tools::{unix_timestamp, Random, RandomSeed};

fn default_params(seed: u64) -> ConvertParams {
    ConvertParams {
        only2: false,
        freqcut_ppm: 0,
        missfreqcut_ppm: 1_000_000,
        sites_range: None,
        nout: None,
        seed,
    }
}

fn lines(bytes: &[u8]) -> Vec<String> {
    String::from_utf8(bytes.to_vec())
        .unwrap()
        .split('\n')
        .map(|s| s.to_string())
        .collect()
}

const EXAMPLE: &str =
    "4 10 1\n>SampleA\nTCCGC??RTT\n>SampleB\nTACGC??GTA\n>SampleC\nTC?-CTTGTA\n>SampleD\nTCC-CTTGTT";

#[test]
fn test_example_scenario_retention() {
    let seqs = parse_sites(EXAMPLE.as_bytes()).unwrap();
    let tallies = seqs.allele_count();
    assert_eq!((tallies[0].n, tallies[0].t, tallies[0].c, tallies[0].a, tallies[0].g), (0, 4, 0, 0, 0));
    assert_eq!((tallies[1].n, tallies[1].t, tallies[1].c, tallies[1].a, tallies[1].g), (0, 0, 3, 1, 0));
    assert_eq!((tallies[3].n, tallies[3].t, tallies[3].c, tallies[3].a, tallies[3].g), (2, 0, 0, 0, 2));
    let ds = decide_sites(&tallies, 4, Ploidy::Haploid, false, 0, 1_000_000, 0, 10);
    let retained: Vec<usize> = (0..ds.len()).filter(|&i| ds[i].retained).collect();
    // polymorphism counts the four real nucleotide categories only, so
    // sites showing one real allele beside unknowns are dropped
    assert_eq!(retained, vec![1, 9]);
}

#[test]
fn test_locs_round_trip() {
    // polymorphism-only filtering over the full range: the locs file lists
    // exactly the input positions of the polymorphic sites
    let seqs = parse_sites(EXAMPLE.as_bytes()).unwrap();
    let locs =
        parse_locs("10  1200 L\n1 57 180 187 223 250 438 509 878 1034".as_bytes()).unwrap();
    let out = convert(seqs, Some(locs), default_params(7)).unwrap();
    let expected = "2 1034 L\n57.000\n1034.000";
    assert_eq!(String::from_utf8(out.locs).unwrap(), expected);
}

#[test]
fn test_locs_short_and_padded_forms() {
    // the header writes the last position in shortest form, the body with
    // exactly three decimals
    let seqs = parse_sites("2 3 1\n>a\nTCT\n>b\nCTC".as_bytes()).unwrap();
    let locs = parse_locs("3 99.5 L\n0.5 1.25 70.2".as_bytes()).unwrap();
    let out = convert(seqs, Some(locs), default_params(1)).unwrap();
    assert_eq!(
        String::from_utf8(out.locs).unwrap(),
        "3 70.2 L\n0.500\n1.250\n70.200"
    );
}

#[test]
fn test_sites_file_example() {
    let seqs = parse_sites(EXAMPLE.as_bytes()).unwrap();
    let out = convert(seqs, None, default_params(3)).unwrap();
    let ls = lines(&out.sites);
    // header: all four sequences, two retained sites, haploid
    assert_eq!(ls[0], "4 2 1");
    // four blocks in input order; both retained sites are biallelic, so
    // each symbol is written as its small-integer code
    assert_eq!(ls[1], ">SampleA");
    assert_eq!(ls[2], "32");
    assert_eq!(ls[3], ">SampleB");
    assert_eq!(ls[4], "44");
    assert_eq!(ls[5], ">SampleC");
    assert_eq!(ls[6], "34");
    assert_eq!(ls[7], ">SampleD");
    assert_eq!(ls[8], "32");
}

#[test]
fn test_freqs_table_example() {
    let seqs = parse_sites(EXAMPLE.as_bytes()).unwrap();
    let out = convert(seqs, None, default_params(3)).unwrap();
    let expected = "N T C A G\n0 4 0 0 0\n0 0 3 1 0\n1 0 3 0 0\n2 0 0 0 2\n0 0 4 0 0\n2 2 0 0 0\n2 2 0 0 0\n1 0 0 0 3\n0 4 0 0 0\n0 2 0 2 0\n";
    assert_eq!(String::from_utf8(out.freqs).unwrap(), expected);
}

#[test]
fn test_diploid_total_weight() {
    // ploidy weighting: where only unknown, C and T are observed, every
    // site's total weighted count is twice the sequence count
    let seqs = parse_sites("2 4 2\n>x\nTC?T\n>y\nCCTT".as_bytes()).unwrap();
    let tallies = seqs.allele_count();
    for t in &tallies {
        assert_eq!(t.n + t.t + t.c + t.a + t.g, 4);
    }
}

#[test]
fn test_diploid_a_and_g_add_one() {
    // an observed A adds one to the T bucket, an observed G one to the C
    // bucket, so such sites fall short of twice the sequence count
    let seqs = parse_sites("2 2 2\n>x\nAG\n>y\nAG".as_bytes()).unwrap();
    let tallies = seqs.allele_count();
    assert_eq!(tallies[0].t, 2);
    assert_eq!(tallies[0].n + tallies[0].t + tallies[0].c + tallies[0].a + tallies[0].g, 2);
    assert_eq!(tallies[1].c, 2);
}

#[test]
fn test_no_data_error() {
    // an input with no polymorphic site fails with the distinct no-data kind
    let seqs = parse_sites("2 3 1\n>a\nTTT\n>b\nTTT".as_bytes()).unwrap();
    let e = convert(seqs, None, default_params(1)).unwrap_err();
    assert_eq!(e.kind, ErrorKind::NoData);
}

#[test]
fn test_config_errors() {
    let seqs = parse_sites("2 2 1\n>a\nTC\n>b\nCT".as_bytes()).unwrap();
    let mut p = default_params(1);
    p.freqcut_ppm = 2_000_000;
    let e = convert(seqs, None, p).unwrap_err();
    assert_eq!(e.kind, ErrorKind::Config);
    let seqs = parse_sites("2 2 1\n>a\nTC\n>b\nCT".as_bytes()).unwrap();
    let mut p = default_params(1);
    p.sites_range = Some((1, 5));
    let e = convert(seqs, None, p).unwrap_err();
    assert_eq!(e.kind, ErrorKind::Config);
}

#[test]
fn test_locs_dimension_error() {
    let seqs = parse_sites("2 3 1\n>a\nTCT\n>b\nCTC".as_bytes()).unwrap();
    let locs = parse_locs("2 100 L\n1 2".as_bytes()).unwrap();
    let e = convert(seqs, Some(locs), default_params(1)).unwrap_err();
    assert_eq!(e.kind, ErrorKind::Parse);
}

#[test]
fn test_wrap_50_columns() {
    // 120 retained sites give three lines of 50, 50 and 20 characters per
    // sequence block
    let content = format!("2 120 1\n>s1\n{}\n>s2\n{}", "T".repeat(120), "C".repeat(120));
    let seqs = parse_sites(content.as_bytes()).unwrap();
    let out = convert(seqs, None, default_params(9)).unwrap();
    let ls = lines(&out.sites);
    assert_eq!(ls[0], "2 120 1");
    assert_eq!(ls[1], ">s1");
    assert_eq!(ls[2].len(), 50);
    assert_eq!(ls[3].len(), 50);
    assert_eq!(ls[4].len(), 20);
    assert_eq!(ls[5], ">s2");
    assert_eq!(ls[6].len(), 50);
    assert_eq!(ls[7].len(), 50);
    assert_eq!(ls[8].len(), 20);
    assert_eq!(ls[2], "2".repeat(50));
    assert_eq!(ls[6], "3".repeat(50));
}

#[test]
fn test_seed_determinism() {
    let p = default_params(42);
    let mut outs = Vec::new();
    for _ in 0..2 {
        let seqs = parse_sites(EXAMPLE.as_bytes()).unwrap();
        let mut q = p;
        q.nout = Some(2);
        let out = convert(seqs, None, q).unwrap();
        outs.push((out.sites, out.locs, out.freqs));
    }
    assert_eq!(outs[0], outs[1]);
}

#[test]
fn test_seed_variation_and_order() {
    // with two of five sequences drawn, different seeds vary the subset,
    // and the drawn sequences always keep their input order
    let content = "5 2 1\n>a\nTC\n>b\nTC\n>c\nCT\n>d\nCT\n>e\nTC";
    let names = ["a", "b", "c", "d", "e"];
    let mut seen = std::collections::HashSet::new();
    for seed in 0..20u64 {
        let seqs = parse_sites(content.as_bytes()).unwrap();
        let mut p = default_params(seed);
        p.nout = Some(2);
        let out = convert(seqs, None, p).unwrap();
        let ls = lines(&out.sites);
        let picked: Vec<String> = ls
            .iter()
            .filter(|l| l.starts_with('>'))
            .map(|l| l[1..].to_string())
            .collect();
        assert_eq!(picked.len(), 2);
        let i0 = names.iter().position(|&n| n == picked[0]).unwrap();
        let i1 = names.iter().position(|&n| n == picked[1]).unwrap();
        assert!(i0 < i1);
        seen.insert(picked);
    }
    assert!(seen.len() >= 2);
}

#[test]
fn test_sequence_cap() {
    // past the cap of one thousand sequences, only the first thousand are
    // used
    let mut content = String::from("1001 1 1\n");
    for i in 0..1001 {
        content.push_str(&format!(">s{}\n{}\n", i, if i % 2 == 0 { "T" } else { "C" }));
    }
    let seqs = parse_sites(content.as_bytes()).unwrap();
    let out = convert(seqs, None, default_params(5)).unwrap();
    let ls = lines(&out.sites);
    assert_eq!(ls[0], "1000 1 1");
    let blocks = ls.iter().filter(|l| l.starts_with('>')).count();
    assert_eq!(blocks, 1000);
}

#[test]
fn test_two_allele_mode_cutoffs() {
    // freqcut demands the minor fraction strictly above the cutoff, and
    // missfreqcut bounds the unknown fraction
    let content = "4 2 1\n>a\nTC\n>b\nTC\n>c\nTC\n>d\nC?";
    // site 0: T3 C1, minor 1/4; site 1: C3 N1, single allele
    let seqs = parse_sites(content.as_bytes()).unwrap();
    let mut p = default_params(1);
    p.freqcut_ppm = 250_000;  // minor fraction must exceed 0.25: site 0 fails
    let e = convert(seqs, None, p).unwrap_err();
    assert_eq!(e.kind, ErrorKind::NoData);
    let seqs = parse_sites(content.as_bytes()).unwrap();
    let mut p = default_params(1);
    p.freqcut_ppm = 240_000;  // 0.25 > 0.24: site 0 passes
    let out = convert(seqs, None, p).unwrap();
    assert_eq!(lines(&out.sites)[0], "4 1 1");
    // a missing-data bound below 1/4 drops the site again under two-allele
    // mode with missing data present
    let content2 = "4 1 1\n>a\nT\n>b\nT\n>c\nC\n>d\n?";
    let seqs = parse_sites(content2.as_bytes()).unwrap();
    let mut p = default_params(1);
    p.only2 = true;
    p.missfreqcut_ppm = 200_000;
    let e = convert(seqs, None, p).unwrap_err();
    assert_eq!(e.kind, ErrorKind::NoData);
    let seqs = parse_sites(content2.as_bytes()).unwrap();
    let mut p = default_params(1);
    p.only2 = true;
    p.missfreqcut_ppm = 250_000;
    assert!(convert(seqs, None, p).is_ok());
}

#[test]
fn test_site_range_restriction() {
    let seqs = parse_sites(EXAMPLE.as_bytes()).unwrap();
    let mut p = default_params(1);
    p.sites_range = Some((0, 5));
    let out = convert(seqs, None, p).unwrap();
    // of the two polymorphic sites only site 1 falls in [0, 5)
    assert_eq!(lines(&out.sites)[0], "4 1 1");
    // a range holding no polymorphic site is the no-data failure
    let seqs = parse_sites(EXAMPLE.as_bytes()).unwrap();
    let mut p = default_params(1);
    p.sites_range = Some((4, 8));
    let e = convert(seqs, None, p).unwrap_err();
    assert_eq!(e.kind, ErrorKind::NoData);
}

#[test]
fn test_tools_seed_types() {
    assert!(unix_timestamp() > 0);
    let seed = RandomSeed([1, 2, 3, 4, 5, 6, 7, 8]);
    let r = Random::from_seed(seed);
    assert_eq!(r.0 .0, [1, 2, 3, 4, 5, 6, 7, 8]);
    let d = RandomSeed::default();
    assert_eq!(d.0.len(), 8);
}
