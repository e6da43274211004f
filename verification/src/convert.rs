use crate::encode::{
    count_retained, freqs_text, locs_text, retained_upto, sites_text, spec_freqs_text,
    spec_loc_lines, spec_locs_text, spec_sites_text,
};
use crate::error::{Error, ErrorKind};
use crate::filter::{
    decide_sites, real_distinct, site_biallelic, site_retained, SiteDecision,
};
use crate::locs::{Locs, Model};
use crate::sample::{sample_sorted, sorted_sample};
use crate::seqs::{col_count, lemma_col_count_prefix, tally_of, Seqs, SiteTally};
use crate::symbols::Ploidy;
use crate::text::NUM_CAP;
use crate::SEQ_MAX;
use vstd::prelude::*;

verus! {

/// The externally supplied settings of one conversion run. The two
/// frequency cutoffs are fractions given in parts per million, the site
/// range is a half-open column interval, and the seed fixes the sequence
/// sampler.
#[derive(Clone, Copy, Debug)]
pub struct ConvertParams {
    pub only2: bool,
    pub freqcut_ppm: u32,
    pub missfreqcut_ppm: u32,
    pub sites_range: Option<(usize, usize)>,
    pub nout: Option<usize>,
    pub seed: u64,
}

/// The complete contents of the three output files.
#[derive(Debug)]
pub struct ConvertOutput {
    pub sites: Vec<u8>,
    pub locs: Vec<u8>,
    pub freqs: Vec<u8>,
}

/// The number of sequences actually used: the input count capped at
/// `SEQ_MAX`.
pub open spec fn spec_n_used(n: int) -> int {
    if n <= SEQ_MAX as int {
        n
    } else {
        SEQ_MAX as int
    }
}

pub open spec fn spec_lower(params: ConvertParams, l: int) -> int {
    match params.sites_range {
        Some(r) => r.0 as int,
        None => 0,
    }
}

pub open spec fn spec_upper(params: ConvertParams, l: int) -> int {
    match params.sites_range {
        Some(r) => r.1 as int,
        None => l,
    }
}

/// Valid settings: both cutoffs are fractions (at most one million parts
/// per million) and the site range lies within the matrix.
pub open spec fn params_ok(params: ConvertParams, l: int) -> bool {
    &&& params.freqcut_ppm <= 1000000
    &&& params.missfreqcut_ppm <= 1000000
    &&& spec_lower(params, l) <= spec_upper(params, l) <= l
}

/// A supplied locus list must cover every site.
pub open spec fn dims_ok(locs: Option<Locs>, l: int) -> bool {
    match locs {
        Some(lc) => lc.data@.len() == l,
        None => true,
    }
}

/// The number of sequences written out: the request capped at the number
/// available, all of them by default.
pub open spec fn spec_nout(params: ConvertParams, n_used: int) -> int {
    match params.nout {
        Some(x) => if x as int <= n_used {
            x as int
        } else {
            n_used
        },
        None => n_used,
    }
}

/// Site tallies over the first `n` sequences, one per site.
pub open spec fn spec_tallies(m: Seq<Seq<crate::symbols::Base>>, p: Ploidy, l: int, n: int) -> Seq<
    SiteTally,
> {
    Seq::new(l as nat, |j: int| tally_of(m, p, j, n))
}

/// The tallies a conversion of `sq` computes.
pub open spec fn spec_tallies_of(sq: Seqs) -> Seq<SiteTally> {
    spec_tallies(sq.mat(), sq.ploidy, sq.spec_len(), spec_n_used(sq.data@.len() as int))
}

/// Per-site decisions under the given settings.
pub open spec fn spec_ds(tl: Seq<SiteTally>, nu: int, p: Ploidy, params: ConvertParams, l: int) -> Seq<
    SiteDecision,
> {
    Seq::new(
        l as nat,
        |i: int|
            SiteDecision {
                retained: site_retained(
                    tl[i],
                    nu,
                    p,
                    params.only2,
                    params.freqcut_ppm,
                    params.missfreqcut_ppm,
                    spec_lower(params, l),
                    spec_upper(params, l),
                    i,
                ),
                biallelic: site_biallelic(
                    tl[i],
                    nu,
                    p,
                    params.only2,
                    params.freqcut_ppm,
                    params.missfreqcut_ppm,
                    spec_lower(params, l),
                    spec_upper(params, l),
                    i,
                ),
            },
    )
}

/// The decisions a conversion of `sq` makes.
pub open spec fn spec_ds_of(sq: Seqs, params: ConvertParams) -> Seq<SiteDecision> {
    spec_ds(
        spec_tallies_of(sq),
        spec_n_used(sq.data@.len() as int),
        sq.ploidy,
        params,
        sq.spec_len(),
    )
}

/// The number of retained sites of a conversion of `sq`.
pub open spec fn spec_psite_of(sq: Seqs, params: ConvertParams) -> int {
    retained_upto(spec_ds_of(sq, params), sq.spec_len())
}

/// The effective positions: the supplied ones, or one through the number
/// of sites (scaled to thousandths) when no locus list is given.
pub open spec fn spec_positions(locs: Option<Locs>, l: int) -> Seq<u64> {
    match locs {
        Some(lc) => lc.data@,
        None => Seq::new(l as nat, |k: int| (1000 * (k + 1)) as u64),
    }
}

/// The effective model tag: crossing-over when no locus list is given.
pub open spec fn spec_model(locs: Option<Locs>) -> Model {
    match locs {
        Some(lc) => lc.model,
        None => Model::CrossingOver,
    }
}

/// Whether a conversion of these inputs succeeds: valid settings, a locus
/// list that covers the matrix, and at least one retained site.
pub open spec fn convert_accepts(sq: Seqs, locs: Option<Locs>, params: ConvertParams) -> bool {
    &&& params_ok(params, sq.spec_len())
    &&& dims_ok(locs, sq.spec_len())
    &&& spec_psite_of(sq, params) > 0
}

/// What a successful conversion returns: all three output files are the
/// serializations that the derived tallies, decisions, sample and
/// positions dictate.
pub open spec fn convert_ok_post(
    sq: Seqs,
    locs: Option<Locs>,
    params: ConvertParams,
    out: ConvertOutput,
) -> bool {
    let l = sq.spec_len();
    let nu = spec_n_used(sq.data@.len() as int);
    let tl = spec_tallies_of(sq);
    let dsp = spec_ds_of(sq, params);
    let ps = spec_psite_of(sq, params);
    let nout = spec_nout(params, nu);
    let positions = spec_positions(locs, l);
    &&& out.sites@ == spec_sites_text(
        sq.names_view().take(nu),
        sq.mat().take(nu),
        sorted_sample(params.seed, nu, nout),
        dsp,
        sq.ploidy,
        nout,
        ps,
    )
    &&& out.locs@ == spec_locs_text(ps, positions[l - 1] as int, spec_model(locs), positions, dsp)
    &&& out.freqs@ == spec_freqs_text(tl)
}

/// Determinism law: the contract of `convert` pins every output byte as a
/// function of the alignment, the locus list and the settings (seed
/// included), so two successful runs on identical inputs produce
/// byte-identical files.
pub proof fn lemma_convert_deterministic(
    sq: Seqs,
    locs: Option<Locs>,
    params: ConvertParams,
    o1: ConvertOutput,
    o2: ConvertOutput,
)
    requires
        convert_ok_post(sq, locs, params, o1),
        convert_ok_post(sq, locs, params, o2),
    ensures
        o1.sites@ == o2.sites@,
        o1.locs@ == o2.locs@,
        o1.freqs@ == o2.freqs@,
{
}

/// Round-trip law, sites: with polymorphism-only filtering over the full
/// range (two-allele mode off, zero frequency cutoff), a site is retained
/// exactly when its tally shows more than one real allele.
pub proof fn lemma_round_trip_retention(
    tl: Seq<SiteTally>,
    nu: int,
    p: Ploidy,
    params: ConvertParams,
    l: int,
    i: int,
)
    requires
        !params.only2,
        params.freqcut_ppm == 0,
        params.sites_range is None,
        0 <= i < l,
    ensures
        spec_ds(tl, nu, p, params, l)[i].retained <==> real_distinct(tl[i]) > 1,
{
}

/// The decisions of a pure polymorphism test, used to state the
/// round-trip law over whole files.
pub open spec fn poly_ds(tl: Seq<SiteTally>, l: int) -> Seq<SiteDecision> {
    Seq::new(
        l as nat,
        |i: int|
            SiteDecision {
                retained: real_distinct(tl[i]) > 1,
                biallelic: !(real_distinct(tl[i]) > 1 && real_distinct(tl[i]) > 2),
            },
    )
}

/// Two decision sequences that retain the same sites produce the same
/// locs body.
pub proof fn lemma_loc_lines_same_retention(
    positions: Seq<u64>,
    ds1: Seq<SiteDecision>,
    ds2: Seq<SiteDecision>,
    j: int,
)
    requires
        forall|k: int| 0 <= k < j ==> (#[trigger] ds1[k]).retained == ds2[k].retained,
    ensures
        spec_loc_lines(positions, ds1, j) == spec_loc_lines(positions, ds2, j),
    decreases j,
{
    if j > 0 {
        lemma_loc_lines_same_retention(positions, ds1, ds2, j - 1);
    }
}

/// Round-trip law, files: with polymorphism-only filtering over the full
/// range, the body of the locs file is exactly the input positions of the
/// sites that pass the polymorphism test.
pub proof fn lemma_locs_round_trip(
    positions: Seq<u64>,
    tl: Seq<SiteTally>,
    nu: int,
    p: Ploidy,
    params: ConvertParams,
    l: int,
)
    requires
        !params.only2,
        params.freqcut_ppm == 0,
        params.sites_range is None,
        0 <= l,
    ensures
        spec_loc_lines(positions, spec_ds(tl, nu, p, params, l), l) == spec_loc_lines(
            positions,
            poly_ds(tl, l),
            l,
        ),
{
    assert forall|k: int| 0 <= k < l implies (#[trigger] spec_ds(tl, nu, p, params, l)[k]).retained
        == poly_ds(tl, l)[k].retained by {
        lemma_round_trip_retention(tl, nu, p, params, l, k);
    }
    lemma_loc_lines_same_retention(positions, spec_ds(tl, nu, p, params, l), poly_ds(tl, l), l);
}

/// Convert one alignment: cap the sequence count, tally every site,
/// filter, sample, and serialize the three output files. Succeeds exactly
/// on the inputs `convert_accepts` admits; an invalid setting is a config
/// error, a locus list of the wrong length a parse error, and zero
/// retained sites the distinct no-data error.
pub fn convert(sq: Seqs, locs: Option<Locs>, params: ConvertParams) -> (r: Result<
    ConvertOutput,
    Error,
>)
    requires
        sq.wf(),
        sq.spec_len() <= NUM_CAP as int,
    ensures
        match r {
            Ok(out) => convert_accepts(sq, locs, params) && convert_ok_post(
                sq,
                locs,
                params,
                out,
            ),
            Err(e) => {
                &&& !convert_accepts(sq, locs, params)
                &&& (e.kind == ErrorKind::Config <==> !params_ok(params, sq.spec_len()))
                &&& (e.kind == ErrorKind::Parse <==> params_ok(params, sq.spec_len()) && !dims_ok(
                    locs,
                    sq.spec_len(),
                ))
                &&& (e.kind == ErrorKind::NoData <==> params_ok(params, sq.spec_len()) && dims_ok(
                    locs,
                    sq.spec_len(),
                ) && spec_psite_of(sq, params) == 0)
            },
        },
{
    let l = sq.len();
    if params.freqcut_ppm > 1000000 || params.missfreqcut_ppm > 1000000 {
        return Err(Error::config("frequency cutoffs must lie between 0 and 1"));
    }
    let (lower, upper) = match params.sites_range {
        Some(r) => r,
        None => (0usize, l),
    };
    if !(lower <= upper && upper <= l) {
        return Err(Error::config("site range outside matrix bounds"));
    }
    let ghost sq0 = sq;
    let Seqs { ploidy, mut names, mut data } = sq;
    let n_used = if data.len() > SEQ_MAX {
        SEQ_MAX
    } else {
        data.len()
    };
    names.truncate(n_used);
    data.truncate(n_used);
    let sqt = Seqs { ploidy, names, data };
    proof {
        assert forall|i: int| 0 <= i < sqt.data@.len() implies (#[trigger] sqt.data@[i]@).len()
            == sqt.spec_len() by {
            assert(sqt.data@[i] == sq0.data@[i]);
        }
        assert(sqt.wf());
        assert(sqt.spec_len() == sq0.spec_len());
    }
    let locs_eff = match locs {
        Some(lc) => {
            if lc.data.len() != l {
                return Err(Error::new("locus list does not cover the sequence length"));
            }
            lc
        },
        None => Locs::new_from_length(l),
    };
    proof {
        assert(locs_eff.data@ =~= spec_positions(locs, sq0.spec_len()));
        assert(locs_eff.model == spec_model(locs));
    }
    let tallies = sqt.allele_count();
    proof {
        assert forall|j: int| 0 <= j < tallies@.len() implies (#[trigger] tallies@[j])
            == spec_tallies_of(sq0)[j] by {
            assert forall|r: int| 0 <= r < n_used as int implies (#[trigger] sqt.mat()[r])
                == sq0.mat()[r] by {
                assert(sqt.data@[r] == sq0.data@[r]);
            }
            lemma_col_count_prefix(
                sqt.mat(),
                sq0.mat(),
                ploidy,
                j,
                n_used as int,
                crate::symbols::Base::N,
            );
            lemma_col_count_prefix(
                sqt.mat(),
                sq0.mat(),
                ploidy,
                j,
                n_used as int,
                crate::symbols::Base::T,
            );
            lemma_col_count_prefix(
                sqt.mat(),
                sq0.mat(),
                ploidy,
                j,
                n_used as int,
                crate::symbols::Base::C,
            );
            lemma_col_count_prefix(
                sqt.mat(),
                sq0.mat(),
                ploidy,
                j,
                n_used as int,
                crate::symbols::Base::A,
            );
            lemma_col_count_prefix(
                sqt.mat(),
                sq0.mat(),
                ploidy,
                j,
                n_used as int,
                crate::symbols::Base::G,
            );
        }
        assert(tallies@ =~= spec_tallies_of(sq0));
    }
    let ds = decide_sites(
        &tallies,
        n_used,
        ploidy,
        params.only2,
        params.freqcut_ppm,
        params.missfreqcut_ppm,
        lower,
        upper,
    );
    proof {
        assert(ds@ =~= spec_ds_of(sq0, params));
    }
    let psite = count_retained(&ds);
    if psite == 0 {
        return Err(Error::no_data("No data to output"));
    }
    let nout = match params.nout {
        Some(x) => if x <= n_used {
            x
        } else {
            n_used
        },
        None => n_used,
    };
    let sel = sample_sorted(params.seed, n_used, nout);
    let sites = sites_text(&sqt, &sel, &ds, nout, psite);
    proof {
        assert(sqt.names_view() =~= sq0.names_view().take(spec_n_used(sq0.data@.len() as int)));
        assert(sqt.mat() =~= sq0.mat().take(spec_n_used(sq0.data@.len() as int)));
    }
    proof {
        // at least one site is retained, so there is at least one site
        if sq0.spec_len() == 0 {
            assert(retained_upto(spec_ds_of(sq0, params), 0) == 0);
        }
    }
    let maxpos = locs_eff.data[l - 1];
    let locs_bytes = locs_text(&locs_eff.data, locs_eff.model, &ds, psite, maxpos);
    let freqs = freqs_text(&tallies);
    Ok(ConvertOutput { sites, locs: locs_bytes, freqs })
}

} // verus!
