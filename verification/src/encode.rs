use crate::filter::SiteDecision;
use crate::locs::Model;
use crate::seqs::{Seqs, SiteTally};
use crate::symbols::{Base, Ploidy};
use crate::text::{dec_bytes, milli_3dp, milli_short, push_dec, push_milli_3dp, push_milli_short};
use vstd::prelude::*;
use vstd::slice::slice_subrange;

verus! {

/// The byte written for one symbol of a retained site. Diploid sites use a
/// fixed code in which G and T collapse to the same digit, by design.
/// Haploid sites that are not fully biallelic spell the symbol's letter;
/// fully biallelic haploid sites write the symbol's small-integer code as
/// a digit. The unknown symbol is always a question mark.
pub open spec fn enc_byte(p: Ploidy, biallelic: bool, b: Base) -> u8 {
    match p {
        Ploidy::Diploid => match b {
            Base::N => 63,
            Base::A => 50,
            Base::C => 49,
            Base::G => 48,
            Base::T => 48,
        },
        Ploidy::Haploid => if !biallelic {
            match b {
                Base::N => 63,
                Base::T => 84,
                Base::C => 67,
                Base::A => 65,
                Base::G => 71,
            }
        } else {
            match b {
                Base::N => 63,
                Base::T => 50,
                Base::C => 51,
                Base::A => 52,
                Base::G => 53,
            }
        },
    }
}

/// Write the code of one symbol.
fn encode_byte(p: Ploidy, biallelic: bool, b: Base) -> (r: u8)
    ensures
        r == enc_byte(p, biallelic, b),
{
    match p {
        Ploidy::Diploid => match b {
            Base::N => 63,
            Base::A => 50,
            Base::C => 49,
            Base::G => 48,
            Base::T => 48,
        },
        Ploidy::Haploid => if !biallelic {
            match b {
                Base::N => 63,
                Base::T => 84,
                Base::C => 67,
                Base::A => 65,
                Base::G => 71,
            }
        } else {
            match b {
                Base::N => 63,
                Base::T => 50,
                Base::C => 51,
                Base::A => 52,
                Base::G => 53,
            }
        },
    }
}

/// The encoded characters of one sequence over the first `j` sites: one
/// code per retained site, in column order.
pub open spec fn enc_row_upto(row: Seq<Base>, ds: Seq<SiteDecision>, p: Ploidy, j: int) -> Seq<u8>
    decreases j,
{
    if j <= 0 {
        Seq::empty()
    } else {
        enc_row_upto(row, ds, p, j - 1) + (if ds[j - 1].retained {
            seq![enc_byte(p, ds[j - 1].biallelic, row[j - 1])]
        } else {
            Seq::empty()
        })
    }
}

/// The encoded characters of one whole sequence.
pub open spec fn enc_row(row: Seq<Base>, ds: Seq<SiteDecision>, p: Ploidy) -> Seq<u8> {
    enc_row_upto(row, ds, p, ds.len() as int)
}

/// Encode one sequence: the code of each retained site's symbol, in column
/// order.
fn encode_row(row: &Vec<Base>, ds: &Vec<SiteDecision>, p: Ploidy) -> (r: Vec<u8>)
    requires
        row@.len() == ds@.len(),
    ensures
        r@ == enc_row(row@, ds@, p),
{
    let mut out: Vec<u8> = Vec::new();
    let mut j: usize = 0;
    while j < ds.len()
        invariant
            row@.len() == ds@.len(),
            j <= ds@.len(),
            out@ == enc_row_upto(row@, ds@, p, j as int),
        decreases ds@.len() - j,
    {
        if ds[j].retained {
            out.push(encode_byte(p, ds[j].biallelic, row[j]));
        }
        proof {
            assert(out@ =~= enc_row_upto(row@, ds@, p, j + 1));
        }
        j = j + 1;
    }
    out
}

/// The number of retained sites among the first `j`.
pub open spec fn retained_upto(ds: Seq<SiteDecision>, j: int) -> int
    decreases j,
{
    if j <= 0 {
        0
    } else {
        retained_upto(ds, j - 1) + (if ds[j - 1].retained {
            1int
        } else {
            0int
        })
    }
}

/// Count the retained sites.
pub fn count_retained(ds: &Vec<SiteDecision>) -> (r: usize)
    ensures
        r as int == retained_upto(ds@, ds@.len() as int),
        r <= ds@.len(),
{
    let mut c: usize = 0;
    let mut j: usize = 0;
    while j < ds.len()
        invariant
            j <= ds@.len(),
            c <= j,
            c as int == retained_upto(ds@, j as int),
        decreases ds@.len() - j,
    {
        if ds[j].retained {
            c = c + 1;
        }
        j = j + 1;
    }
    c
}

/// 50-column wrapping: a newline after every fiftieth character and after
/// a final partial line; empty content produces nothing.
pub open spec fn wrap50(s: Seq<u8>) -> Seq<u8>
    decreases s.len(),
{
    if s.len() == 0 {
        Seq::empty()
    } else if s.len() <= 50 {
        s + seq![10u8]
    } else {
        s.subrange(0, 50) + seq![10u8] + wrap50(s.subrange(50, s.len() as int))
    }
}

/// Append `s` wrapped to 50 characters per line.
fn push_wrapped(out: &mut Vec<u8>, s: &[u8])
    ensures
        final(out)@ == old(out)@ + wrap50(s@),
    decreases s@.len(),
{
    if s.len() == 0 {
        proof {
            assert(out@ =~= out@ + wrap50(s@));
        }
    } else if s.len() <= 50 {
        out.extend_from_slice(s);
        out.push(10);
        proof {
            assert(out@ =~= old(out)@ + wrap50(s@));
        }
    } else {
        let head = slice_subrange(s, 0, 50);
        out.extend_from_slice(head);
        out.push(10);
        let tail = slice_subrange(s, 50, s.len());
        push_wrapped(out, tail);
        proof {
            assert(out@ =~= old(out)@ + wrap50(s@));
        }
    }
}

/// A three-number header line separated by single blanks.
pub open spec fn header3(a: int, b: int, c: int) -> Seq<u8> {
    dec_bytes(a) + seq![32u8] + dec_bytes(b) + seq![32u8] + dec_bytes(c) + seq![10u8]
}

/// The emitted blocks for the first `upto` sampled sequences: a `>name`
/// line, then the sequence's retained sites encoded and 50-wrapped.
pub open spec fn spec_blocks(
    names: Seq<Seq<u8>>,
    mat: Seq<Seq<Base>>,
    sel: Seq<usize>,
    ds: Seq<SiteDecision>,
    p: Ploidy,
    upto: int,
) -> Seq<u8>
    decreases upto,
{
    if upto <= 0 {
        Seq::empty()
    } else {
        spec_blocks(names, mat, sel, ds, p, upto - 1) + seq![62u8] + names[sel[upto - 1] as int]
            + seq![10u8] + wrap50(enc_row(mat[sel[upto - 1] as int], ds, p))
    }
}

/// The complete sites file: the header `<nout> <retained_count>
/// <ploidy_code>`, then one block per sampled sequence in ascending index
/// order.
pub open spec fn spec_sites_text(
    names: Seq<Seq<u8>>,
    mat: Seq<Seq<Base>>,
    sel: Seq<usize>,
    ds: Seq<SiteDecision>,
    p: Ploidy,
    nout: int,
    psite: int,
) -> Seq<u8> {
    header3(nout, psite, p.spec_factor() as int) + spec_blocks(names, mat, sel, ds, p, sel.len() as int)
}

/// Serialize the sites file for the sampled sequences `sel`.
pub fn sites_text(sq: &Seqs, sel: &Vec<usize>, ds: &Vec<SiteDecision>, nout: usize, psite: usize) -> (r:
    Vec<u8>)
    requires
        sq.wf(),
        ds@.len() == sq.spec_len(),
        forall|i: int| 0 <= i < sel@.len() ==> (#[trigger] sel@[i]) < sq.data@.len(),
    ensures
        r@ == spec_sites_text(
            sq.names_view(),
            sq.mat(),
            sel@,
            ds@,
            sq.ploidy,
            nout as int,
            psite as int,
        ),
{
    let mut out: Vec<u8> = Vec::new();
    push_dec(&mut out, nout as u64);
    out.push(32);
    push_dec(&mut out, psite as u64);
    out.push(32);
    push_dec(&mut out, sq.ploidy.factor() as u64);
    out.push(10);
    let ghost hdr = header3(nout as int, psite as int, sq.ploidy.spec_factor() as int);
    proof {
        assert(out@ =~= hdr);
    }
    let mut i: usize = 0;
    while i < sel.len()
        invariant
            sq.wf(),
            ds@.len() == sq.spec_len(),
            forall|x: int| 0 <= x < sel@.len() ==> (#[trigger] sel@[x]) < sq.data@.len(),
            i <= sel@.len(),
            out@ == hdr + spec_blocks(sq.names_view(), sq.mat(), sel@, ds@, sq.ploidy, i as int),
        decreases sel@.len() - i,
    {
        let idx = sel[i];
        out.push(62);
        out.extend_from_slice(sq.names[idx].as_slice());
        out.push(10);
        proof {
            assert(sq.names_view()[sel@[i as int] as int] == sq.names@[sel@[i as int] as int]@);
            assert(sq.mat()[sel@[i as int] as int] == sq.data@[sel@[i as int] as int]@);
        }
        let rowchars = encode_row(&sq.data[idx], ds, sq.ploidy);
        push_wrapped(&mut out, rowchars.as_slice());
        proof {
            assert(out@ =~= hdr + spec_blocks(
                sq.names_view(),
                sq.mat(),
                sel@,
                ds@,
                sq.ploidy,
                i + 1,
            ));
        }
        i = i + 1;
    }
    out
}

/// The retained positions, each on a line of its own with three decimal
/// places; every line is preceded by a newline, so the file ends without
/// one.
pub open spec fn spec_loc_lines(positions: Seq<u64>, ds: Seq<SiteDecision>, upto: int) -> Seq<u8>
    decreases upto,
{
    if upto <= 0 {
        Seq::empty()
    } else {
        spec_loc_lines(positions, ds, upto - 1) + (if ds[upto - 1].retained {
            seq![10u8] + milli_3dp(positions[upto - 1] as int)
        } else {
            Seq::empty()
        })
    }
}

/// The complete locs file: the header `<retained_count> <max_position>
/// <model_tag>`, then each retained site's position in column order.
pub open spec fn spec_locs_text(
    psite: int,
    maxpos: int,
    model: Model,
    positions: Seq<u64>,
    ds: Seq<SiteDecision>,
) -> Seq<u8> {
    dec_bytes(psite) + seq![32u8] + milli_short(maxpos) + seq![32u8] + seq![model.spec_tag()]
        + spec_loc_lines(positions, ds, ds.len() as int)
}

/// Serialize the locs file for the retained sites.
pub fn locs_text(positions: &Vec<u64>, model: Model, ds: &Vec<SiteDecision>, psite: usize, maxpos: u64) -> (r:
    Vec<u8>)
    requires
        ds@.len() == positions@.len(),
    ensures
        r@ == spec_locs_text(psite as int, maxpos as int, model, positions@, ds@),
{
    let mut out: Vec<u8> = Vec::new();
    push_dec(&mut out, psite as u64);
    out.push(32);
    push_milli_short(&mut out, maxpos);
    out.push(32);
    out.push(model.tag());
    let ghost hdr = dec_bytes(psite as int) + seq![32u8] + milli_short(maxpos as int) + seq![32u8]
        + seq![model.spec_tag()];
    proof {
        assert(out@ =~= hdr);
    }
    let mut j: usize = 0;
    while j < ds.len()
        invariant
            ds@.len() == positions@.len(),
            j <= ds@.len(),
            out@ == hdr + spec_loc_lines(positions@, ds@, j as int),
        decreases ds@.len() - j,
    {
        if ds[j].retained {
            out.push(10);
            push_milli_3dp(&mut out, positions[j]);
        }
        proof {
            assert(out@ =~= hdr + spec_loc_lines(positions@, ds@, j + 1));
        }
        j = j + 1;
    }
    out
}

/// One tally row per site: the five counts separated by single blanks.
pub open spec fn spec_freqs_rows(tallies: Seq<SiteTally>, upto: int) -> Seq<u8>
    decreases upto,
{
    if upto <= 0 {
        Seq::empty()
    } else {
        spec_freqs_rows(tallies, upto - 1) + dec_bytes(tallies[upto - 1].n as int) + seq![32u8]
            + dec_bytes(tallies[upto - 1].t as int) + seq![32u8] + dec_bytes(
            tallies[upto - 1].c as int,
        ) + seq![32u8] + dec_bytes(tallies[upto - 1].a as int) + seq![32u8] + dec_bytes(
            tallies[upto - 1].g as int,
        ) + seq![10u8]
    }
}

/// The diagnostic frequency table: a header naming the five categories,
/// then every site's raw tally in column order.
pub open spec fn spec_freqs_text(tallies: Seq<SiteTally>) -> Seq<u8> {
    seq![78u8, 32u8, 84u8, 32u8, 67u8, 32u8, 65u8, 32u8, 71u8, 10u8] + spec_freqs_rows(
        tallies,
        tallies.len() as int,
    )
}

/// Serialize the diagnostic per-site allele-count table.
#[verifier::rlimit(40)]
pub fn freqs_text(tallies: &Vec<SiteTally>) -> (r: Vec<u8>)
    ensures
        r@ == spec_freqs_text(tallies@),
{
    let mut out: Vec<u8> = Vec::new();
    out.push(78);
    out.push(32);
    out.push(84);
    out.push(32);
    out.push(67);
    out.push(32);
    out.push(65);
    out.push(32);
    out.push(71);
    out.push(10);
    let ghost hdr = seq![78u8, 32u8, 84u8, 32u8, 67u8, 32u8, 65u8, 32u8, 71u8, 10u8];
    proof {
        assert(out@ =~= hdr);
    }
    let mut j: usize = 0;
    while j < tallies.len()
        invariant
            j <= tallies@.len(),
            out@ == hdr + spec_freqs_rows(tallies@, j as int),
        decreases tallies@.len() - j,
    {
        let t = tallies[j];
        push_dec(&mut out, t.n as u64);
        out.push(32);
        push_dec(&mut out, t.t as u64);
        out.push(32);
        push_dec(&mut out, t.c as u64);
        out.push(32);
        push_dec(&mut out, t.a as u64);
        out.push(32);
        push_dec(&mut out, t.g as u64);
        out.push(10);
        proof {
            assert(out@ =~= hdr + spec_freqs_rows(tallies@, j + 1));
        }
        j = j + 1;
    }
    out
}

} // verus!
