use vstd::prelude::*;

verus! {

/// The five-symbol nucleotide alphabet: the four bases plus one bucket for
/// gaps, ambiguity codes and anything else unknown.
#[derive(Clone, Copy, Debug, PartialEq, Eq, Structural)]
pub enum Base {
    N,
    T,
    C,
    A,
    G,
}

impl Base {
    /// The fixed small-integer code of each symbol, with the unknown bucket
    /// first.
    pub open spec fn spec_code(self) -> u8 {
        match self {
            Base::N => 1,
            Base::T => 2,
            Base::C => 3,
            Base::A => 4,
            Base::G => 5,
        }
    }

    /// Return the symbol's fixed small-integer code.
    #[verifier::when_used_as_spec(spec_code)]
    pub fn code(self) -> (r: u8)
        ensures
            r == self.spec_code(),
    {
        match self {
            Base::N => 1,
            Base::T => 2,
            Base::C => 3,
            Base::A => 4,
            Base::G => 5,
        }
    }

    /// The symbol stored for a small-integer code; codes out of range fall
    /// into the unknown bucket.
    pub open spec fn spec_from_code(v: u8) -> Base {
        if v == 2 {
            Base::T
        } else if v == 3 {
            Base::C
        } else if v == 4 {
            Base::A
        } else if v == 5 {
            Base::G
        } else {
            Base::N
        }
    }

    /// Decode a small-integer code back into a symbol.
    #[verifier::when_used_as_spec(spec_from_code)]
    pub fn from_code(v: u8) -> (r: Base)
        ensures
            r == Base::spec_from_code(v),
    {
        if v == 2 {
            Base::T
        } else if v == 3 {
            Base::C
        } else if v == 4 {
            Base::A
        } else if v == 5 {
            Base::G
        } else {
            Base::N
        }
    }

    /// The symbol read from one raw input byte: each base is written as a
    /// digit, an upper-case letter or a lower-case letter; anything else
    /// (gaps, ambiguity codes) is unknown.
    pub open spec fn spec_from_symbol(b: u8) -> Base {
        if b == 48 || b == 84 || b == 116 {
            Base::T
        } else if b == 49 || b == 67 || b == 99 {
            Base::C
        } else if b == 50 || b == 65 || b == 97 {
            Base::A
        } else if b == 51 || b == 71 || b == 103 {
            Base::G
        } else {
            Base::N
        }
    }

    /// Map one raw input byte (`0/T/t`, `1/C/c`, `2/A/a`, `3/G/g`, or
    /// anything else) to its symbol.
    #[verifier::when_used_as_spec(spec_from_symbol)]
    pub fn from_symbol(b: u8) -> (r: Base)
        ensures
            r == Base::spec_from_symbol(b),
    {
        if b == 48 || b == 84 || b == 116 {
            Base::T
        } else if b == 49 || b == 67 || b == 99 {
            Base::C
        } else if b == 50 || b == 65 || b == 97 {
            Base::A
        } else if b == 51 || b == 71 || b == 103 {
            Base::G
        } else {
            Base::N
        }
    }
}

/// Ploidy: the number of chromosome sets carried per individual, which fixes
/// the weighting used when symbols are tallied and the output coding of each
/// site.
#[derive(Clone, Copy, Debug, PartialEq, Eq, Structural)]
pub enum Ploidy {
    Haploid,
    Diploid,
}

impl Ploidy {
    /// The weighting factor: each haploid sequence carries one allele per
    /// site, each diploid sequence two.
    pub open spec fn spec_factor(self) -> u32 {
        match self {
            Ploidy::Haploid => 1,
            Ploidy::Diploid => 2,
        }
    }

    /// Return the weighting factor (1 or 2).
    #[verifier::when_used_as_spec(spec_factor)]
    pub fn factor(self) -> (r: u32)
        ensures
            r == self.spec_factor(),
    {
        match self {
            Ploidy::Haploid => 1,
            Ploidy::Diploid => 2,
        }
    }

    /// The ploidy declared by a header byte: `1` or `2`, anything else is
    /// rejected.
    pub open spec fn spec_from_code(b: u8) -> Option<Ploidy> {
        if b == 49 {
            Some(Ploidy::Haploid)
        } else if b == 50 {
            Some(Ploidy::Diploid)
        } else {
            None
        }
    }

    /// Parse the header's ploidy byte.
    #[verifier::when_used_as_spec(spec_from_code)]
    pub fn from_code(b: u8) -> (r: Option<Ploidy>)
        ensures
            r == Ploidy::spec_from_code(b),
    {
        if b == 49 {
            Some(Ploidy::Haploid)
        } else if b == 50 {
            Some(Ploidy::Diploid)
        } else {
            None
        }
    }
}

} // verus!
