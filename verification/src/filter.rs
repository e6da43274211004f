use crate::seqs::SiteTally;
use crate::symbols::Ploidy;
use vstd::prelude::*;

verus! {

/// Per-site outcome of filtering: whether the site is retained, and whether
/// it counts as fully biallelic for encoding (false only for retained sites
/// that show more than two real alleles).
#[derive(Clone, Copy, Debug, PartialEq, Eq, Structural)]
pub struct SiteDecision {
    pub retained: bool,
    pub biallelic: bool,
}

/// How many of the four real-nucleotide categories have a non-zero count.
pub open spec fn real_distinct(t: SiteTally) -> int {
    (if t.t > 0 {
        1int
    } else {
        0int
    }) + (if t.c > 0 {
        1int
    } else {
        0int
    }) + (if t.a > 0 {
        1int
    } else {
        0int
    }) + (if t.g > 0 {
        1int
    } else {
        0int
    })
}

/// The smaller of two counts, treating zero as absent.
pub open spec fn spec_nz_min(x: int, y: int) -> int {
    if x == 0 {
        y
    } else if y == 0 {
        x
    } else if x <= y {
        x
    } else {
        y
    }
}

/// The smallest non-zero count among the four real-nucleotide categories;
/// zero when all four are zero. When exactly two categories are non-zero
/// this is the minor allele's weighted count.
pub open spec fn minor_count(t: SiteTally) -> int {
    spec_nz_min(spec_nz_min(t.t as int, t.c as int), spec_nz_min(t.a as int, t.g as int))
}

/// The total weight available at a site: the number of sequences times the
/// ploidy factor.
pub open spec fn total_weight(nseq: int, p: Ploidy) -> int {
    nseq * (p.spec_factor() as int)
}

/// Whether filtering demands exactly two alleles: requested outright, or
/// implied by a positive minor-allele-frequency cutoff.
pub open spec fn two_allele_mode(only2: bool, freqcut_ppm: u32) -> bool {
    only2 || freqcut_ppm > 0
}

/// The admission rule for site `i`. A site outside `[lower, upper)` is never
/// retained. In merely-polymorphic mode a site needs more than one real
/// allele. In exactly-two-allele mode a site needs exactly two real alleles,
/// a minor count different from the total weight (guarding a degenerate
/// tally), a minor-allele fraction strictly above `freqcut_ppm` (in parts
/// per million), and a missing-data fraction at or below `missfreqcut_ppm`.
pub open spec fn site_retained(
    t: SiteTally,
    nseq: int,
    p: Ploidy,
    only2: bool,
    freqcut_ppm: u32,
    missfreqcut_ppm: u32,
    lower: int,
    upper: int,
    i: int,
) -> bool {
    &&& lower <= i < upper
    &&& if !two_allele_mode(only2, freqcut_ppm) {
        real_distinct(t) > 1
    } else {
        &&& real_distinct(t) == 2
        &&& minor_count(t) != total_weight(nseq, p)
        &&& minor_count(t) * 1000000 > total_weight(nseq, p) * (freqcut_ppm as int)
        &&& (t.n as int) * 1000000 <= total_weight(nseq, p) * (missfreqcut_ppm as int)
    }
}

/// Whether site `i` is fully biallelic for encoding: false exactly for
/// retained sites showing more than two real alleles.
pub open spec fn site_biallelic(
    t: SiteTally,
    nseq: int,
    p: Ploidy,
    only2: bool,
    freqcut_ppm: u32,
    missfreqcut_ppm: u32,
    lower: int,
    upper: int,
    i: int,
) -> bool {
    !(site_retained(t, nseq, p, only2, freqcut_ppm, missfreqcut_ppm, lower, upper, i)
        && real_distinct(t) > 2)
}

/// The smaller of two counts, treating zero as absent.
fn nz_min(x: u32, y: u32) -> (r: u32)
    ensures
        r as int == spec_nz_min(x as int, y as int),
{
    if x == 0 {
        y
    } else if y == 0 {
        x
    } else if x <= y {
        x
    } else {
        y
    }
}

/// Apply the admission rules to every site: entry `i` of the result records
/// whether site `i` is retained and whether it is fully biallelic for
/// encoding, exactly as `site_retained` and `site_biallelic` state.
pub fn decide_sites(
    tallies: &Vec<SiteTally>,
    nseq: usize,
    p: Ploidy,
    only2: bool,
    freqcut_ppm: u32,
    missfreqcut_ppm: u32,
    lower: usize,
    upper: usize,
) -> (r: Vec<SiteDecision>)
    requires
        nseq <= 0x3FFFFFFF,
        freqcut_ppm <= 1000000,
        missfreqcut_ppm <= 1000000,
    ensures
        r@.len() == tallies@.len(),
        forall|i: int|
            0 <= i < tallies@.len() ==> {
                &&& (#[trigger] r@[i]).retained == site_retained(
                    tallies@[i],
                    nseq as int,
                    p,
                    only2,
                    freqcut_ppm,
                    missfreqcut_ppm,
                    lower as int,
                    upper as int,
                    i,
                )
                &&& r@[i].biallelic == site_biallelic(
                    tallies@[i],
                    nseq as int,
                    p,
                    only2,
                    freqcut_ppm,
                    missfreqcut_ppm,
                    lower as int,
                    upper as int,
                    i,
                )
            },
{
    let tw: u64 = match p {
        Ploidy::Haploid => nseq as u64,
        Ploidy::Diploid => (nseq as u64) * 2,
    };
    let mode2: bool = only2 || freqcut_ppm > 0;
    let mut out: Vec<SiteDecision> = Vec::new();
    let mut i: usize = 0;
    while i < tallies.len()
        invariant
            nseq <= 0x3FFFFFFF,
            freqcut_ppm <= 1000000,
            missfreqcut_ppm <= 1000000,
            tw == total_weight(nseq as int, p),
            tw <= 0x7FFFFFFE,
            mode2 == two_allele_mode(only2, freqcut_ppm),
            i <= tallies@.len(),
            out@.len() == i,
            forall|x: int|
                0 <= x < i ==> {
                    &&& (#[trigger] out@[x]).retained == site_retained(
                        tallies@[x],
                        nseq as int,
                        p,
                        only2,
                        freqcut_ppm,
                        missfreqcut_ppm,
                        lower as int,
                        upper as int,
                        x,
                    )
                    &&& out@[x].biallelic == site_biallelic(
                        tallies@[x],
                        nseq as int,
                        p,
                        only2,
                        freqcut_ppm,
                        missfreqcut_ppm,
                        lower as int,
                        upper as int,
                        x,
                    )
                },
        decreases tallies@.len() - i,
    {
        let t = tallies[i];
        let na: u32 = (if t.t > 0 {
            1u32
        } else {
            0u32
        }) + (if t.c > 0 {
            1u32
        } else {
            0u32
        }) + (if t.a > 0 {
            1u32
        } else {
            0u32
        }) + (if t.g > 0 {
            1u32
        } else {
            0u32
        });
        let nmin: u32 = nz_min(nz_min(t.t, t.c), nz_min(t.a, t.g));
        let in_range: bool = lower <= i && i < upper;
        proof {
            assert(tw * (freqcut_ppm as u64) <= 0x7FFFFFFEu64 * 1000000) by (nonlinear_arith)
                requires
                    tw <= 0x7FFFFFFE,
                    freqcut_ppm <= 1000000,
            ;
            assert(tw * (missfreqcut_ppm as u64) <= 0x7FFFFFFEu64 * 1000000) by (nonlinear_arith)
                requires
                    tw <= 0x7FFFFFFE,
                    missfreqcut_ppm <= 1000000,
            ;
        }
        let admitted: bool = if !mode2 {
            na > 1
        } else {
            na == 2 && (nmin as u64) != tw && (nmin as u64) * 1000000 > tw * (freqcut_ppm as u64)
                && (t.n as u64) * 1000000 <= tw * (missfreqcut_ppm as u64)
        };
        let retained = in_range && admitted;
        let biallelic = !(retained && na > 2);
        out.push(SiteDecision { retained, biallelic });
        i = i + 1;
    }
    out
}

} // verus!
