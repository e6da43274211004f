use crate::error::{Error, ErrorKind};
use crate::seqs::Seqs;
use crate::text::{
    digit_run, digits_val, milli_end, milli_ok, milli_val, scan_milli, scan_u64, skip_spaces,
    skip_ws, space_run, ws_run, NUM_CAP,
};
use vstd::prelude::*;

verus! {

/// The recombination model a locus file declares: crossing-over (`L`) or
/// gene conversion (`C`). Pure pass-through metadata, never used in
/// filtering.
#[derive(Clone, Copy, Debug, PartialEq, Eq, Structural)]
pub enum Model {
    CrossingOver,
    GeneConversion,
}

impl Model {
    /// The model named by a header byte: `L` or `C`, anything else is
    /// rejected.
    pub open spec fn spec_from_byte(b: u8) -> Option<Model> {
        if b == 76 {
            Some(Model::CrossingOver)
        } else if b == 67 {
            Some(Model::GeneConversion)
        } else {
            None
        }
    }

    /// Parse the header's model byte.
    #[verifier::when_used_as_spec(spec_from_byte)]
    pub fn from_byte(b: u8) -> (r: Option<Model>)
        ensures
            r == Model::spec_from_byte(b),
    {
        if b == 76 {
            Some(Model::CrossingOver)
        } else if b == 67 {
            Some(Model::GeneConversion)
        } else {
            None
        }
    }

    /// The single-letter tag written for this model.
    pub open spec fn spec_tag(self) -> u8 {
        match self {
            Model::CrossingOver => 76,
            Model::GeneConversion => 67,
        }
    }

    /// Return the single-letter tag (`L` or `C`).
    #[verifier::when_used_as_spec(spec_tag)]
    pub fn tag(self) -> (r: u8)
        ensures
            r == self.spec_tag(),
    {
        match self {
            Model::CrossingOver => 76,
            Model::GeneConversion => 67,
        }
    }
}

impl std::str::FromStr for Model {
    type Err = Error;

    fn from_str(s: &str) -> Result<Model, Error> {
        let b = s.as_bytes();
        if b.len() == 1 {
            match Model::from_byte(b[0]) {
                Some(m) => Ok(m),
                None => Err(Error::new("Variant not found")),
            }
        } else {
            Err(Error::new("Variant not found"))
        }
    }
}

/// A parsed locus list: the physical positions of the sites, the declared
/// total length, and the model tag. Positions and length are held in
/// thousandths of the file's units, so that three decimal places
/// round-trip exactly.
#[derive(Debug)]
pub struct Locs {
    pub data: Vec<u64>,
    pub length: u64,
    pub model: Model,
}

/// Positions must be positive and strictly increasing.
pub open spec fn positions_ok(ps: Seq<u64>) -> bool {
    &&& forall|k: int| 0 <= k < ps.len() ==> (#[trigger] ps[k]) > 0
    &&& forall|k: int, l: int| 0 <= k < l < ps.len() ==> ps[k] < ps[l]
}

/// The locus header `<count> <total_length> <model_tag>\n`: its count, its
/// total length in thousandths, its model, and where the body starts.
pub open spec fn spec_locs_hdr(s: Seq<u8>) -> Option<(int, int, Model, int)> {
    let ce = digit_run(s, 0) as int;
    if ce == 0 || digits_val(s, 0, ce) > NUM_CAP {
        None
    } else {
        let i1 = ce + space_run(s, ce) as int;
        if space_run(s, ce) == 0 || !milli_ok(s, i1) {
            None
        } else {
            let le = milli_end(s, i1);
            let i2 = le + space_run(s, le) as int;
            if space_run(s, le) == 0 || !(i2 + 1 < s.len()) || s[i2 + 1] != 10 {
                None
            } else {
                match Model::spec_from_byte(s[i2]) {
                    None => None,
                    Some(m) => Some((digits_val(s, 0, ce), milli_val(s, i1), m, i2 + 2)),
                }
            }
        }
    }
}

/// The position list running from `i` to the end of the file: decimal
/// numerals separated by runs of whitespace, with nothing left over. An
/// empty tail is an empty list.
pub open spec fn spec_pos_list(s: Seq<u8>, i: int) -> Option<Seq<u64>>
    decreases s.len() - i,
{
    if i == s.len() {
        Some(Seq::empty())
    } else if !(0 <= i < s.len()) {
        None
    } else if !milli_ok(s, i) {
        None
    } else {
        let e = milli_end(s, i);
        if !(i < e <= s.len()) {
            None
        } else if e == s.len() {
            Some(seq![milli_val(s, i) as u64])
        } else {
            let w = ws_run(s, e) as int;
            if w == 0 || !(e + w < s.len()) {
                None
            } else {
                match spec_pos_list(s, e + w) {
                    Some(rest) => Some(seq![milli_val(s, i) as u64] + rest),
                    None => None,
                }
            }
        }
    }
}

/// The whole locus file: header and body parse, the declared count equals
/// the number of positions read, and the positions are positive and
/// strictly increasing. The result is the total length in thousandths, the
/// model, and the positions.
pub open spec fn spec_parse_locs(s: Seq<u8>) -> Option<(int, Model, Seq<u64>)> {
    match spec_locs_hdr(s) {
        None => None,
        Some(h) => match spec_pos_list(s, h.3) {
            None => None,
            Some(ps) => if h.0 == ps.len() && positions_ok(ps) {
                Some((h.1, h.2, ps))
            } else {
                None
            },
        },
    }
}

/// Monotonicity law: whatever else the file holds, a locus list whose
/// positions are not positive and strictly increasing is rejected.
pub proof fn lemma_nonmonotonic_rejected(s: Seq<u8>, h: (int, int, Model, int), ps: Seq<u64>)
    requires
        spec_locs_hdr(s) == Some(h),
        spec_pos_list(s, h.3) == Some(ps),
        !positions_ok(ps),
    ensures
        spec_parse_locs(s) is None,
{
}

/// Whether `ps` is positive and strictly increasing, checked pair by pair.
fn check_positions(ps: &Vec<u64>) -> (r: bool)
    ensures
        r == positions_ok(ps@),
{
    let mut last: u64 = 0;
    let mut i: usize = 0;
    while i < ps.len()
        invariant
            i <= ps@.len(),
            last == if i == 0 {
                0u64
            } else {
                ps@[i - 1]
            },
            forall|k: int| 0 <= k < i ==> (#[trigger] ps@[k]) > 0,
            forall|k: int, l: int| 0 <= k < l < i ==> ps@[k] < ps@[l],
        decreases ps@.len() - i,
    {
        if ps[i] <= last {
            proof {
                if i == 0 {
                    assert(!(ps@[0] > 0));
                } else {
                    assert(0 <= i - 1 < i < ps@.len() && ps@[i - 1] >= ps@[i as int]);
                }
            }
            return false;
        }
        proof {
            assert forall|k: int, l: int| 0 <= k < l < i + 1 implies ps@[k] < ps@[l] by {
                if l < i {
                } else {
                    if k < i - 1 {
                        assert(ps@[k] < ps@[i - 1]);
                    }
                }
            }
        }
        last = ps[i];
        i = i + 1;
    }
    true
}

/// Read the position list from `i` to the end of the file, appending each
/// value to `out`; false when the tail is not a well-formed list.
fn parse_pos_list(content: &[u8], i: usize, out: &mut Vec<u64>) -> (ok: bool)
    requires
        i <= content@.len(),
    ensures
        match spec_pos_list(content@, i as int) {
            Some(rest) => ok && final(out)@ == old(out)@ + rest,
            None => !ok,
        },
    decreases content@.len() - i,
{
    if i == content.len() {
        proof {
            assert(out@ =~= out@ + Seq::<u64>::empty());
        }
        true
    } else {
        match scan_milli(content, i) {
            None => false,
            Some((v, e)) => {
                if e == content.len() {
                    out.push(v);
                    proof {
                        assert(out@ =~= old(out)@ + seq![v]);
                    }
                    true
                } else {
                    let w = skip_ws(content, e);
                    if w == e || w == content.len() {
                        false
                    } else {
                        out.push(v);
                        let ok = parse_pos_list(content, w, out);
                        proof {
                            if spec_pos_list(content@, w as int) is Some {
                                let rest = match spec_pos_list(content@, w as int) {
                                    Some(r) => r,
                                    None => Seq::empty(),
                                };
                                assert(old(out)@ + (seq![v] + rest) =~= (old(out)@ + seq![v])
                                    + rest);
                            }
                        }
                        ok
                    }
                }
            },
        }
    }
}

/// Parse a locus file: the header `<count> <total_length> <model_tag>`,
/// then exactly `count` whitespace-separated positions, which must be
/// positive and strictly increasing. Exactly the inputs `spec_parse_locs`
/// accepts are accepted; everything else is a parse error.
pub fn parse_locs(content: &[u8]) -> (r: Result<Locs, Error>)
    ensures
        match r {
            Ok(l) => spec_parse_locs(content@) == Some((l.length as int, l.model, l.data@)),
            Err(e) => spec_parse_locs(content@) is None && e.kind == ErrorKind::Parse,
        },
{
    let (count, ce) = match scan_u64(content, 0) {
        None => {
            return Err(Error::new("locs header: count expected"));
        },
        Some(p) => p,
    };
    let i1 = skip_spaces(content, ce);
    if i1 == ce {
        return Err(Error::new("locs header: separator expected"));
    }
    let (length, le) = match scan_milli(content, i1) {
        None => {
            return Err(Error::new("locs header: length expected"));
        },
        Some(p) => p,
    };
    let i2 = skip_spaces(content, le);
    if i2 == le {
        return Err(Error::new("locs header: separator expected"));
    }
    if !(i2 < content.len() && i2 + 1 < content.len()) {
        return Err(Error::new("locs header: model tag expected"));
    }
    let model = match Model::from_byte(content[i2]) {
        None => {
            return Err(Error::new("Variant not found"));
        },
        Some(m) => m,
    };
    if content[i2 + 1] != 10 {
        return Err(Error::new("locs header: newline expected"));
    }
    let body = i2 + 2;
    let mut data: Vec<u64> = Vec::new();
    let ok = parse_pos_list(content, body, &mut data);
    if !ok {
        return Err(Error::new("locs body: positions expected"));
    }
    if !(count == data.len() as u64) {
        return Err(Error::new("locs count mismatch"));
    }
    if !check_positions(&data) {
        return Err(Error::new("loc file SNPs not monotonically increasing"));
    }
    Ok(Locs { data, length, model })
}

impl Locs {
    /// A synthesized locus list for `length` sites assumed evenly spaced:
    /// positions one through `length`, total length `length`, model
    /// crossing-over.
    pub fn new_from_length(length: usize) -> (r: Self)
        requires
            length as u64 <= NUM_CAP,
        ensures
            r.data@.len() == length,
            forall|k: int| 0 <= k < r.data@.len() ==> (#[trigger] r.data@[k]) as int == 1000 * (k
                + 1),
            r.length as int == 1000 * length,
            r.model == Model::CrossingOver,
    {
        let mut data: Vec<u64> = Vec::new();
        let mut i: usize = 0;
        while i < length
            invariant
                length as u64 <= NUM_CAP,
                i <= length,
                data@.len() == i,
                forall|k: int| 0 <= k < i ==> (#[trigger] data@[k]) as int == 1000 * (k + 1),
            decreases length - i,
        {
            data.push(((i as u64) + 1) * 1000);
            i = i + 1;
        }
        Locs { data, length: (length as u64) * 1000, model: Model::CrossingOver }
    }

    /// A synthesized locus list for a parsed alignment with no locus file:
    /// one evenly spaced position per site.
    pub fn new_from_sites(sites: Seqs) -> (r: Self)
        requires
            sites.wf(),
            sites.spec_len() <= NUM_CAP,
        ensures
            r.data@.len() == sites.spec_len(),
            forall|k: int| 0 <= k < r.data@.len() ==> (#[trigger] r.data@[k]) as int == 1000 * (k
                + 1),
            r.length as int == 1000 * sites.spec_len(),
            r.model == Model::CrossingOver,
    {
        let n = sites.len();
        Self::new_from_length(n)
    }
}

} // verus!
