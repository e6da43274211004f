use crate::error::{Error, ErrorKind};
use crate::symbols::{Base, Ploidy};
use crate::text::{digit_run, digits_val, is_space, scan_u64, skip_spaces, space_run, NUM_CAP};
use vstd::prelude::*;
use vstd::slice::{slice_subrange, slice_to_vec};

verus! {

/// Per-site allele tally: the weighted count of each symbol category over
/// all sequences, in the fixed column order unknown, T, C, A, G.
#[derive(Clone, Copy, Debug, PartialEq, Eq, Structural)]
pub struct SiteTally {
    pub n: u32,
    pub t: u32,
    pub c: u32,
    pub a: u32,
    pub g: u32,
}

/// The weight that one observed symbol `obs` adds to the tally bucket
/// `bucket`. Haploid sequences add one to the observed symbol's own bucket.
/// Diploid sequences follow the fixed historical convention pairing A with T
/// and G with C: an unknown adds two to the unknown bucket, C and T add two
/// to their own buckets, while A adds one to the T bucket and G adds one to
/// the C bucket.
pub open spec fn weight(p: Ploidy, obs: Base, bucket: Base) -> int {
    match p {
        Ploidy::Haploid => if obs == bucket {
            1
        } else {
            0
        },
        Ploidy::Diploid => match obs {
            Base::N => if bucket == Base::N {
                2
            } else {
                0
            },
            Base::A => if bucket == Base::T {
                1
            } else {
                0
            },
            Base::C => if bucket == Base::C {
                2
            } else {
                0
            },
            Base::G => if bucket == Base::C {
                1
            } else {
                0
            },
            Base::T => if bucket == Base::T {
                2
            } else {
                0
            },
        },
    }
}

/// The weighted count in `bucket` at site `j`, accumulated over the first
/// `k` sequences of the matrix `m`.
pub open spec fn col_count(m: Seq<Seq<Base>>, p: Ploidy, j: int, k: int, bucket: Base) -> int
    decreases k,
{
    if k <= 0 {
        0
    } else {
        col_count(m, p, j, k - 1, bucket) + weight(p, m[k - 1][j], bucket)
    }
}

/// The full tally of site `j` over the first `k` sequences of `m`.
pub open spec fn tally_of(m: Seq<Seq<Base>>, p: Ploidy, j: int, k: int) -> SiteTally {
    SiteTally {
        n: col_count(m, p, j, k, Base::N) as u32,
        t: col_count(m, p, j, k, Base::T) as u32,
        c: col_count(m, p, j, k, Base::C) as u32,
        a: col_count(m, p, j, k, Base::A) as u32,
        g: col_count(m, p, j, k, Base::G) as u32,
    }
}

/// A column count over the first `k` rows only reads those rows.
pub proof fn lemma_col_count_prefix(
    m1: Seq<Seq<Base>>,
    m2: Seq<Seq<Base>>,
    p: Ploidy,
    j: int,
    k: int,
    bucket: Base,
)
    requires
        forall|r: int| 0 <= r < k ==> (#[trigger] m1[r]) == m2[r],
    ensures
        col_count(m1, p, j, k, bucket) == col_count(m2, p, j, k, bucket),
    decreases k,
{
    if k > 0 {
        lemma_col_count_prefix(m1, m2, p, j, k - 1, bucket);
    }
}

/// Ploidy weighting law: at a site where every observed symbol is unknown,
/// C or T, a diploid tally's total weighted count across all five categories
/// is exactly twice the number of sequences. (An observed A or G adds only
/// one, to the paired T or C bucket, so such sites fall short of the total.)
pub proof fn lemma_diploid_total_weight(m: Seq<Seq<Base>>, j: int, k: int)
    requires
        0 <= k,
        forall|r: int|
            0 <= r < k ==> (#[trigger] m[r][j] == Base::N || m[r][j] == Base::C || m[r][j]
                == Base::T),
    ensures
        col_count(m, Ploidy::Diploid, j, k, Base::N) + col_count(m, Ploidy::Diploid, j, k, Base::T)
            + col_count(m, Ploidy::Diploid, j, k, Base::C) + col_count(
            m,
            Ploidy::Diploid,
            j,
            k,
            Base::A,
        ) + col_count(m, Ploidy::Diploid, j, k, Base::G) == 2 * k,
    decreases k,
{
    if k > 0 {
        lemma_diploid_total_weight(m, j, k - 1);
    }
}

/// Byte-for-byte equality of two byte slices.
pub fn bytes_eq(a: &[u8], b: &[u8]) -> (r: bool)
    ensures
        r == (a@ == b@),
{
    if a.len() != b.len() {
        return false;
    }
    let mut i: usize = 0;
    while i < a.len()
        invariant
            i <= a@.len(),
            a@.len() == b@.len(),
            forall|k: int| 0 <= k < i ==> a@[k] == b@[k],
        decreases a@.len() - i,
    {
        if a[i] != b[i] {
            return false;
        }
        i = i + 1;
    }
    proof {
        assert(a@ =~= b@);
    }
    true
}

/// A parsed alignment: the declared ploidy and, per input record in input
/// order, a name and an equal-length row of symbols.
#[derive(Debug)]
pub struct Seqs {
    pub ploidy: Ploidy,
    pub names: Vec<Vec<u8>>,
    pub data: Vec<Vec<Base>>,
}

impl Seqs {
    /// The symbol matrix as a mathematical sequence of rows.
    pub open spec fn mat(self) -> Seq<Seq<Base>> {
        self.data@.map_values(|r: Vec<Base>| r@)
    }

    /// The sequence names as mathematical byte strings.
    pub open spec fn names_view(self) -> Seq<Seq<u8>> {
        self.names@.map_values(|n: Vec<u8>| n@)
    }

    /// The number of sites (columns), zero when there are no sequences.
    pub open spec fn spec_len(self) -> int {
        if self.data@.len() == 0 {
            0
        } else {
            self.data@[0]@.len() as int
        }
    }

    /// Well-formedness: one name per sequence, and all rows of equal length.
    pub open spec fn wf(self) -> bool {
        &&& self.names@.len() == self.data@.len()
        &&& forall|i: int|
            0 <= i < self.data@.len() ==> (#[trigger] self.data@[i]@.len()) == self.spec_len()
    }

    /// The sequence names, in input order.
    pub fn names(&self) -> (r: &Vec<Vec<u8>>)
        ensures
            r@ == self.names@,
    {
        &self.names
    }

    /// The matrix shape: number of sites, then number of sequences.
    pub fn shape(&self) -> (r: (usize, usize))
        requires
            self.wf(),
        ensures
            r.0 == self.spec_len(),
            r.1 == self.data@.len(),
    {
        (self.len(), self.data.len())
    }

    /// The number of sites.
    pub fn len(&self) -> (r: usize)
        requires
            self.wf(),
        ensures
            r == self.spec_len(),
    {
        if self.data.len() == 0 {
            0
        } else {
            self.data[0].len()
        }
    }

    /// Look a sequence up by name; the first record wins if a name repeats.
    pub fn index(&self, name: &[u8]) -> (r: Option<&Vec<Base>>)
        requires
            self.wf(),
        ensures
            match r {
                Some(row) => exists|i: int|
                    0 <= i < self.names@.len() && (#[trigger] self.names@[i]@) == name@ && row@
                        == self.data@[i]@ && (forall|k: int|
                        0 <= k < i ==> (#[trigger] self.names@[k]@) != name@),
                None => forall|i: int|
                    0 <= i < self.names@.len() ==> (#[trigger] self.names@[i]@) != name@,
            },
    {
        let mut i: usize = 0;
        while i < self.names.len()
            invariant
                self.wf(),
                i <= self.names@.len(),
                forall|k: int| 0 <= k < i ==> (#[trigger] self.names@[k]@) != name@,
            decreases self.names@.len() - i,
        {
            if bytes_eq(self.names[i].as_slice(), name) {
                return Some(&self.data[i]);
            }
            i = i + 1;
        }
        None
    }

    /// Tally every site: entry `j` of the result is the weighted per-symbol
    /// count of column `j` over all sequences, with the ploidy-driven
    /// weights of `weight`.
    pub fn allele_count(&self) -> (r: Vec<SiteTally>)
        requires
            self.wf(),
            self.data@.len() <= 0x3FFF_FFFF,
        ensures
            r@.len() == self.spec_len(),
            forall|j: int|
                0 <= j < r@.len() ==> (#[trigger] r@[j]) == tally_of(
                    self.mat(),
                    self.ploidy,
                    j,
                    self.data@.len() as int,
                ),
    {
        let l = self.len();
        let nseq = self.data.len();
        let mut out: Vec<SiteTally> = Vec::new();
        let mut j: usize = 0;
        while j < l
            invariant
                self.wf(),
                self.data@.len() <= 0x3FFF_FFFF,
                l == self.spec_len(),
                nseq == self.data@.len(),
                j <= l,
                out@.len() == j,
                forall|x: int|
                    0 <= x < j ==> (#[trigger] out@[x]) == tally_of(
                        self.mat(),
                        self.ploidy,
                        x,
                        nseq as int,
                    ),
            decreases l - j,
        {
            let mut cn: u32 = 0;
            let mut ct: u32 = 0;
            let mut cc: u32 = 0;
            let mut ca: u32 = 0;
            let mut cg: u32 = 0;
            let mut k: usize = 0;
            while k < nseq
                invariant
                    self.wf(),
                    self.data@.len() <= 0x3FFF_FFFF,
                    l == self.spec_len(),
                    nseq == self.data@.len(),
                    j < l,
                    k <= nseq,
                    cn == col_count(self.mat(), self.ploidy, j as int, k as int, Base::N),
                    ct == col_count(self.mat(), self.ploidy, j as int, k as int, Base::T),
                    cc == col_count(self.mat(), self.ploidy, j as int, k as int, Base::C),
                    ca == col_count(self.mat(), self.ploidy, j as int, k as int, Base::A),
                    cg == col_count(self.mat(), self.ploidy, j as int, k as int, Base::G),
                    cn <= 2 * k && ct <= 2 * k && cc <= 2 * k && ca <= 2 * k && cg <= 2 * k,
                decreases nseq - k,
            {
                proof {
                    assert(self.mat()[k as int] == self.data@[k as int]@);
                }
                let b = self.data[k][j];
                match self.ploidy {
                    Ploidy::Haploid => {
                        match b {
                            Base::N => { cn = cn + 1; },
                            Base::T => { ct = ct + 1; },
                            Base::C => { cc = cc + 1; },
                            Base::A => { ca = ca + 1; },
                            Base::G => { cg = cg + 1; },
                        }
                    },
                    Ploidy::Diploid => {
                        match b {
                            Base::N => { cn = cn + 2; },
                            Base::A => { ct = ct + 1; },
                            Base::C => { cc = cc + 2; },
                            Base::G => { cc = cc + 1; },
                            Base::T => { ct = ct + 2; },
                        }
                    },
                }
                k = k + 1;
            }
            out.push(SiteTally { n: cn, t: ct, c: cc, a: ca, g: cg });
            j = j + 1;
        }
        out
    }
}

pub open spec fn is_nonnl(b: u8) -> bool {
    b != 10
}

/// Length of the run of bytes before the next newline, starting at `i`.
pub open spec fn nonnl_run(s: Seq<u8>, i: int) -> nat
    decreases s.len() - i,
{
    if 0 <= i < s.len() && is_nonnl(s[i]) {
        (1 + nonnl_run(s, i + 1)) as nat
    } else {
        0
    }
}

/// A newline-free run stays within the input.
pub proof fn lemma_nonnl_run_le(s: Seq<u8>, i: int)
    requires
        0 <= i <= s.len(),
    ensures
        i + nonnl_run(s, i) <= s.len(),
    decreases s.len() - i,
{
    if i < s.len() && is_nonnl(s[i]) {
        lemma_nonnl_run_le(s, i + 1);
    }
}

/// A newline-free run is exactly as long as the bytes it covers.
pub proof fn lemma_nonnl_run_end(s: Seq<u8>, i: int, j: int)
    requires
        0 <= i <= j <= s.len(),
        forall|k: int| i <= k < j ==> is_nonnl(#[trigger] s[k]),
        j == s.len() || !is_nonnl(s[j]),
    ensures
        nonnl_run(s, i) == j - i,
    decreases j - i,
{
    if i < j {
        lemma_nonnl_run_end(s, i + 1, j);
    }
}

/// Length of the run of non-blank bytes starting at `i`.
pub open spec fn word_run(l: Seq<u8>, i: int) -> nat
    decreases l.len() - i,
{
    if 0 <= i < l.len() && !is_space(l[i]) {
        (1 + word_run(l, i + 1)) as nat
    } else {
        0
    }
}

/// A non-blank run is exactly as long as the bytes it covers.
pub proof fn lemma_word_run_end(l: Seq<u8>, i: int, j: int)
    requires
        0 <= i <= j <= l.len(),
        forall|k: int| i <= k < j ==> !is_space(#[trigger] l[k]),
        j == l.len() || is_space(l[j]),
    ensures
        word_run(l, i) == j - i,
    decreases j - i,
{
    if i < j {
        lemma_word_run_end(l, i + 1, j);
    }
}

/// A line with one trailing carriage return removed, if it carries one.
pub open spec fn strip_cr(l: Seq<u8>) -> Seq<u8> {
    if l.len() > 0 && l[l.len() - 1] == 13 {
        l.drop_last()
    } else {
        l
    }
}

/// The name of a record line `>name ...`: the bytes after the marker up to
/// the first blank.
pub open spec fn rec_name(line: Seq<u8>) -> Seq<u8> {
    let e = 1 + word_run(line, 1) as int;
    line.subrange(1, if e <= line.len() { e } else { line.len() as int })
}

/// The symbols read from one line of sequence data.
pub open spec fn sym_map(l: Seq<u8>) -> Seq<Base> {
    l.map_values(|b: u8| Base::spec_from_symbol(b))
}

/// The sequence data of the current record: every line from `i` onward,
/// concatenated and mapped to symbols, up to the end of the input or the
/// next record marker. Returns the symbols and the position where reading
/// stopped.
pub open spec fn spec_seq_lines(s: Seq<u8>, i: int) -> (Seq<Base>, int)
    decreases s.len() - i,
{
    if !(0 <= i < s.len()) {
        (Seq::empty(), s.len() as int)
    } else {
        let e = i + nonnl_run(s, i) as int;
        let e2 = if e <= s.len() {
            e
        } else {
            s.len() as int
        };
        let line = strip_cr(s.subrange(i, e2));
        if line.len() > 0 && line[0] == 62 {
            (Seq::empty(), i)
        } else {
            let nxt = if e2 < s.len() {
                e2 + 1
            } else {
                e2
            };
            let rest = spec_seq_lines(s, nxt);
            (sym_map(line) + rest.0, rest.1)
        }
    }
}

/// The records from line start `i` to the end of the input: blank lines are
/// skipped, every other line must open a record with `>`, and each record's
/// data lines run to the next marker. Nothing is accepted after a stray
/// line.
pub open spec fn spec_records(s: Seq<u8>, i: int) -> Option<Seq<(Seq<u8>, Seq<Base>)>>
    decreases s.len() - i,
{
    if !(0 <= i < s.len()) {
        Some(Seq::empty())
    } else {
        let e = i + nonnl_run(s, i) as int;
        let e2 = if e <= s.len() {
            e
        } else {
            s.len() as int
        };
        let line = strip_cr(s.subrange(i, e2));
        let nxt = if e2 < s.len() {
            e2 + 1
        } else {
            e2
        };
        if line.len() == 0 {
            spec_records(s, nxt)
        } else if line[0] == 62 {
            let sl = spec_seq_lines(s, nxt);
            if !(i < sl.1 <= s.len()) {
                None
            } else {
                match spec_records(s, sl.1) {
                    None => None,
                    Some(rest) => Some(seq![(rec_name(line), sl.0)] + rest),
                }
            }
        } else {
            None
        }
    }
}

/// The alignment header `<n_sequences> <length> <ploidy_code>\n`: its
/// declared sequence count and length, the ploidy, and where the records
/// start.
pub open spec fn spec_sites_hdr(s: Seq<u8>) -> Option<(int, int, Ploidy, int)> {
    let ce = digit_run(s, 0) as int;
    if ce == 0 || digits_val(s, 0, ce) > NUM_CAP {
        None
    } else {
        let i1 = ce + space_run(s, ce) as int;
        if space_run(s, ce) == 0 {
            None
        } else {
            let le = i1 + digit_run(s, i1) as int;
            if digit_run(s, i1) == 0 || digits_val(s, i1, le) > NUM_CAP {
                None
            } else {
                let i2 = le + space_run(s, le) as int;
                if space_run(s, le) == 0 || !(i2 + 1 < s.len()) || s[i2 + 1] != 10 {
                    None
                } else {
                    match Ploidy::spec_from_code(s[i2]) {
                        None => None,
                        Some(p) => Some(
                            (digits_val(s, 0, ce), digits_val(s, i1, le), p, i2 + 2),
                        ),
                    }
                }
            }
        }
    }
}

/// The whole alignment file: header and records parse, the record count
/// equals the declared count, every record's length equals the declared
/// length (so a file with no records must declare length zero).
pub open spec fn spec_parse_sites(s: Seq<u8>) -> Option<(Ploidy, Seq<(Seq<u8>, Seq<Base>)>)> {
    match spec_sites_hdr(s) {
        None => None,
        Some(h) => match spec_records(s, h.3) {
            None => None,
            Some(recs) => if recs.len() == h.0 && (forall|k: int|
                0 <= k < recs.len() ==> (#[trigger] recs[k].1).len() == h.1) && (recs.len() == 0
                ==> h.1 == 0) {
                Some((h.2, recs))
            } else {
                None
            },
        },
    }
}

/// Dimension law: however the records read, an alignment whose declared
/// sequence count or length disagrees with them is rejected.
pub proof fn lemma_dimension_mismatch_rejected(
    s: Seq<u8>,
    h: (int, int, Ploidy, int),
    recs: Seq<(Seq<u8>, Seq<Base>)>,
)
    requires
        spec_sites_hdr(s) == Some(h),
        spec_records(s, h.3) == Some(recs),
        !(recs.len() == h.0 && (forall|k: int|
            0 <= k < recs.len() ==> (#[trigger] recs[k].1).len() == h.1) && (recs.len() == 0
            ==> h.1 == 0)),
    ensures
        spec_parse_sites(s) is None,
{
}

/// The records a parsed alignment stands for.
pub open spec fn recs_of(sq: Seqs) -> Seq<(Seq<u8>, Seq<Base>)> {
    Seq::new(sq.names@.len(), |i: int| (sq.names@[i]@, sq.data@[i]@))
}

/// Read one line starting at `i`: its bytes with a trailing carriage
/// return removed, and the start of the next line.
fn take_line(content: &[u8], i: usize) -> (r: (Vec<u8>, usize))
    requires
        i < content@.len(),
    ensures
        ({
            let e = i + nonnl_run(content@, i as int);
            &&& r.0@ == strip_cr(content@.subrange(i as int, e as int))
            &&& e <= content@.len()
            &&& r.1 as int == (if e < content@.len() {
                e + 1
            } else {
                e
            })
            &&& i < r.1 <= content@.len()
        }),
{
    let mut j: usize = i;
    while j < content.len() && content[j] != 10
        invariant
            i <= j <= content@.len(),
            forall|k: int| i <= k < j ==> is_nonnl(#[trigger] content@[k]),
        decreases content@.len() - j,
    {
        j = j + 1;
    }
    proof {
        lemma_nonnl_run_end(content@, i as int, j as int);
    }
    let mut line = slice_to_vec(slice_subrange(content, i, j));
    if line.len() > 0 && line[line.len() - 1] == 13 {
        let _discard = line.pop();
    }
    proof {
        assert(line@ =~= strip_cr(content@.subrange(i as int, j as int)));
    }
    let nxt = if j < content.len() {
        j + 1
    } else {
        j
    };
    (line, nxt)
}

/// Map one line of sequence data to symbols and append it to `row`.
fn append_symbols(row: &mut Vec<Base>, line: &Vec<u8>)
    ensures
        final(row)@ == old(row)@ + sym_map(line@),
{
    let mut k: usize = 0;
    while k < line.len()
        invariant
            k <= line@.len(),
            row@ == old(row)@ + sym_map(line@.subrange(0, k as int)),
        decreases line@.len() - k,
    {
        row.push(Base::from_symbol(line[k]));
        proof {
            assert(line@.subrange(0, k + 1).map_values(|b: u8| Base::spec_from_symbol(b)) =~= line@
                .subrange(0, k as int).map_values(|b: u8| Base::spec_from_symbol(b)).push(
                Base::spec_from_symbol(line@[k as int]),
            ));
            assert(row@ =~= old(row)@ + sym_map(line@.subrange(0, k + 1)));
        }
        k = k + 1;
    }
    proof {
        assert(line@.subrange(0, line@.len() as int) =~= line@);
    }
}

/// Read the current record's data lines from `i`, appending their symbols
/// to `row`; returns where reading stopped.
fn parse_seq_lines(content: &[u8], i: usize, row: &mut Vec<Base>) -> (j: usize)
    requires
        i <= content@.len(),
    ensures
        ({
            let sl = spec_seq_lines(content@, i as int);
            &&& final(row)@ == old(row)@ + sl.0
            &&& j as int == sl.1
            &&& i <= j <= content@.len()
        }),
    decreases content@.len() - i,
{
    if i == content.len() {
        proof {
            assert(row@ =~= row@ + Seq::<Base>::empty());
        }
        i
    } else if content[i] == 62 {
        proof {
            lemma_nonnl_run_le(content@, i as int);
            let e = i + nonnl_run(content@, i as int) as int;
            let raw = content@.subrange(i as int, e);
            assert(is_nonnl(content@[i as int]));
            assert(nonnl_run(content@, i as int) >= 1);
            assert(raw.len() >= 1 && raw[0] == content@[i as int]);
            assert(strip_cr(raw).len() >= 1 && strip_cr(raw)[0] == 62);
            assert(row@ =~= row@ + Seq::<Base>::empty());
        }
        i
    } else {
        let (line, nxt) = take_line(content, i);
        append_symbols(row, &line);
        let j = parse_seq_lines(content, nxt, row);
        proof {
            let sl = spec_seq_lines(content@, i as int);
            let rest = spec_seq_lines(content@, nxt as int);
            assert(old(row)@ + (sym_map(line@) + rest.0) =~= (old(row)@ + sym_map(line@))
                + rest.0);
        }
        j
    }
}

/// Read every record from line start `i`, appending names and symbol rows;
/// false when a stray line stands where a record should start.
fn parse_records(content: &[u8], i: usize, names: &mut Vec<Vec<u8>>, rows: &mut Vec<Vec<Base>>) -> (ok:
    bool)
    requires
        i <= content@.len(),
        old(names)@.len() == old(rows)@.len(),
    ensures
        final(names)@.len() == final(rows)@.len(),
        match spec_records(content@, i as int) {
            Some(recs) => {
                &&& ok
                &&& final(names)@.len() == old(names)@.len() + recs.len()
                &&& forall|k: int|
                    0 <= k < old(names)@.len() ==> final(names)@[k] == old(names)@[k]
                        && final(rows)@[k] == old(rows)@[k]
                &&& forall|k: int|
                    0 <= k < recs.len() ==> (final(names)@[old(names)@.len() + k]@ == (
                    #[trigger] recs[k]).0 && final(rows)@[old(rows)@.len() + k]@ == recs[k].1)
            },
            None => !ok,
        },
    decreases content@.len() - i,
{
    if i == content.len() {
        return true;
    }
    let (line, nxt) = take_line(content, i);
    if line.len() == 0 {
        proof {
            assert(spec_records(content@, i as int) == spec_records(content@, nxt as int));
        }
        return parse_records(content, nxt, names, rows);
    }
    if line[0] != 62 {
        proof {
            assert(spec_records(content@, i as int) is None);
        }
        return false;
    }
    // the record's name: after the marker, up to the first blank
    let mut w: usize = 1;
    while w < line.len() && line[w] != 32 && line[w] != 9
        invariant
            1 <= w <= line@.len(),
            forall|k: int| 1 <= k < w ==> !is_space(#[trigger] line@[k]),
        decreases line@.len() - w,
    {
        w = w + 1;
    }
    proof {
        lemma_word_run_end(line@, 1, w as int);
        assert(line@.subrange(1, w as int) =~= rec_name(line@));
    }
    let name = slice_to_vec(slice_subrange(line.as_slice(), 1, w));
    let mut row: Vec<Base> = Vec::new();
    let j = parse_seq_lines(content, nxt, &mut row);
    let ghost name_v = name@;
    names.push(name);
    rows.push(row);
    let ok = parse_records(content, j, names, rows);
    proof {
        let s = content@;
        let sl = spec_seq_lines(s, nxt as int);
        assert(sl.1 == j as int);
        match spec_records(s, j as int) {
            Some(rest) => {
                let recs = seq![(rec_name(line@), sl.0)] + rest;
                assert(spec_records(s, i as int) == Some(recs));
                assert(names@.len() == old(names)@.len() + recs.len());
                assert forall|k: int|
                    0 <= k < old(names)@.len() implies names@[k] == old(names)@[k] && rows@[k]
                    == old(rows)@[k] by {
                }
                assert forall|k: int|
                    0 <= k < recs.len() implies (names@[old(names)@.len() + k]@ == (
                #[trigger] recs[k]).0 && rows@[old(rows)@.len() + k]@ == recs[k].1) by {
                    if k == 0 {
                        assert(recs[0] == (rec_name(line@), sl.0));
                        assert(names@[old(names)@.len() + 0int] == names@[old(names)@.len() as int]);
                        assert(names@[old(names)@.len() as int]@ == name_v);
                        assert(name_v == rec_name(line@));
                    } else {
                        assert(recs[k] == rest[k - 1]);
                        assert(names@[(old(names)@.len() + 1) + (k - 1)]@ == rest[k - 1].0);
                        assert(rows@[(old(rows)@.len() + 1) + (k - 1)]@ == rest[k - 1].1);
                        assert((old(names)@.len() + 1) + (k - 1) == old(names)@.len() + k);
                    }
                }
            },
            None => {
                assert(spec_records(s, i as int) is None);
            },
        }
    }
    ok
}

/// Parse an alignment file: the header `<n_sequences> <length>
/// <ploidy_code>`, then FASTA-style records whose count and lengths must
/// match the header. Exactly the inputs `spec_parse_sites` accepts are
/// accepted; everything else is a parse error.
#[verifier::loop_isolation(false)]
pub fn parse_sites(content: &[u8]) -> (r: Result<Seqs, Error>)
    ensures
        match r {
            Ok(sq) => {
                &&& sq.wf()
                &&& spec_parse_sites(content@) == Some((sq.ploidy, recs_of(sq)))
            },
            Err(e) => spec_parse_sites(content@) is None && e.kind == ErrorKind::Parse,
        },
{
    let (nseq, ce) = match scan_u64(content, 0) {
        None => {
            return Err(Error::new("sites header: sequence count expected"));
        },
        Some(p) => p,
    };
    let i1 = skip_spaces(content, ce);
    if i1 == ce {
        return Err(Error::new("sites header: separator expected"));
    }
    let (lseq, le) = match scan_u64(content, i1) {
        None => {
            return Err(Error::new("sites header: length expected"));
        },
        Some(p) => p,
    };
    let i2 = skip_spaces(content, le);
    if i2 == le {
        return Err(Error::new("sites header: separator expected"));
    }
    if !(i2 < content.len() && i2 + 1 < content.len()) {
        return Err(Error::new("sites header: ploidy code expected"));
    }
    let ploidy = match Ploidy::from_code(content[i2]) {
        None => {
            return Err(Error::new("Variant not found"));
        },
        Some(p) => p,
    };
    if content[i2 + 1] != 10 {
        return Err(Error::new("sites header: newline expected"));
    }
    let body = i2 + 2;
    proof {
        assert(spec_sites_hdr(content@) == Some(
            (nseq as int, lseq as int, ploidy, body as int),
        ));
    }
    let mut names: Vec<Vec<u8>> = Vec::new();
    let mut rows: Vec<Vec<Base>> = Vec::new();
    let ok = parse_records(content, body, &mut names, &mut rows);
    if !ok {
        return Err(Error::new("sites records malformed"));
    }
    if rows.len() as u64 != nseq {
        return Err(Error::new("sites record count mismatch"));
    }
    let ghost grecs = match spec_records(content@, body as int) {
        Some(recs) => recs,
        None => Seq::empty(),
    };
    let mut k: usize = 0;
    while k < rows.len()
        invariant
            k <= rows@.len(),
            forall|x: int| 0 <= x < k ==> (#[trigger] rows@[x])@.len() == lseq,
        decreases rows@.len() - k,
    {
        if rows[k].len() as u64 != lseq {
            proof {
                assert(rows@[0 + k as int]@ == grecs[k as int].1);
                assert(grecs[k as int].1.len() != lseq);
                assert(spec_parse_sites(content@) is None);
            }
            return Err(Error::new("sites record length mismatch"));
        }
        k = k + 1;
    }
    if rows.len() == 0 && lseq != 0 {
        return Err(Error::new("sites record length mismatch"));
    }
    let sq = Seqs { ploidy, names, data: rows };
    proof {
        assert forall|x: int| 0 <= x < grecs.len() implies (#[trigger] grecs[x]).1.len()
            == lseq by {
            assert(rows@[0 + x]@ == grecs[x].1);
        }
        assert forall|x: int| 0 <= x < grecs.len() implies recs_of(sq)[x] == grecs[x] by {
            assert(sq.names@[0 + x]@ == grecs[x].0);
            assert(sq.data@[0 + x]@ == grecs[x].1);
        }
        assert(recs_of(sq) =~= grecs);
        assert forall|x: int| 0 <= x < sq.data@.len() implies (#[trigger] sq.data@[x]@).len()
            == sq.spec_len() by {
            assert(rows@[x]@.len() == lseq);
        }
        assert(sq.wf());
    }
    Ok(sq)
}

} // verus!
