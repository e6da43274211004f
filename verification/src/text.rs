use vstd::prelude::*;

verus! {

/// Upper bound admitted for any numeral read from an input file. Keeping
/// every parsed value at or below this cap lets positions be scaled to
/// thousandths without overflowing 64 bits.
pub const NUM_CAP: u64 = 10_000_000_000_000;

pub open spec fn is_digit(b: u8) -> bool {
    48 <= b <= 57
}

pub open spec fn is_space(b: u8) -> bool {
    b == 32 || b == 9
}

pub open spec fn is_ws(b: u8) -> bool {
    b == 32 || b == 9 || b == 13 || b == 10
}

/// Length of the run of decimal digits starting at `i`.
pub open spec fn digit_run(s: Seq<u8>, i: int) -> nat
    decreases s.len() - i,
{
    if 0 <= i < s.len() && is_digit(s[i]) {
        (1 + digit_run(s, i + 1)) as nat
    } else {
        0
    }
}

/// Length of the run of spaces and tabs starting at `i`.
pub open spec fn space_run(s: Seq<u8>, i: int) -> nat
    decreases s.len() - i,
{
    if 0 <= i < s.len() && is_space(s[i]) {
        (1 + space_run(s, i + 1)) as nat
    } else {
        0
    }
}

/// Length of the run of whitespace (space, tab, carriage return, newline)
/// starting at `i`.
pub open spec fn ws_run(s: Seq<u8>, i: int) -> nat
    decreases s.len() - i,
{
    if 0 <= i < s.len() && is_ws(s[i]) {
        (1 + ws_run(s, i + 1)) as nat
    } else {
        0
    }
}

/// The value of the digit string `s[i..j)` read as a decimal numeral.
pub open spec fn digits_val(s: Seq<u8>, i: int, j: int) -> int
    decreases j - i,
{
    if j <= i {
        0
    } else {
        digits_val(s, i, j - 1) * 10 + (s[j - 1] - 48)
    }
}

pub open spec fn pow10(n: nat) -> int
    decreases n,
{
    if n == 0 {
        1
    } else {
        10 * pow10((n - 1) as nat)
    }
}

/// A digit run is exactly as long as the digits it covers.
pub proof fn lemma_digit_run_end(s: Seq<u8>, i: int, j: int)
    requires
        0 <= i <= j <= s.len(),
        forall|k: int| i <= k < j ==> is_digit(#[trigger] s[k]),
        j == s.len() || !is_digit(s[j]),
    ensures
        digit_run(s, i) == j - i,
    decreases j - i,
{
    if i < j {
        lemma_digit_run_end(s, i + 1, j);
    }
}

/// Every position inside the digit run holds a digit.
pub proof fn lemma_digit_run_digits(s: Seq<u8>, i: int)
    requires
        0 <= i,
    ensures
        i + digit_run(s, i) <= s.len() || digit_run(s, i) == 0,
        forall|k: int| i <= k < i + digit_run(s, i) ==> is_digit(#[trigger] s[k]),
    decreases s.len() - i,
{
    if 0 <= i < s.len() && is_digit(s[i]) {
        lemma_digit_run_digits(s, i + 1);
    }
}

/// If `s[i..=j]` are all digits, the run from `i` reaches past `j`.
pub proof fn lemma_digit_run_lower(s: Seq<u8>, i: int, j: int)
    requires
        0 <= i <= j < s.len(),
        forall|k: int| i <= k <= j ==> is_digit(#[trigger] s[k]),
    ensures
        digit_run(s, i) >= j + 1 - i,
    decreases j - i,
{
    if i < j {
        lemma_digit_run_lower(s, i + 1, j);
    }
}

/// A space run is exactly as long as the spaces it covers.
pub proof fn lemma_space_run_end(s: Seq<u8>, i: int, j: int)
    requires
        0 <= i <= j <= s.len(),
        forall|k: int| i <= k < j ==> is_space(#[trigger] s[k]),
        j == s.len() || !is_space(s[j]),
    ensures
        space_run(s, i) == j - i,
    decreases j - i,
{
    if i < j {
        lemma_space_run_end(s, i + 1, j);
    }
}

/// A whitespace run is exactly as long as the whitespace it covers.
pub proof fn lemma_ws_run_end(s: Seq<u8>, i: int, j: int)
    requires
        0 <= i <= j <= s.len(),
        forall|k: int| i <= k < j ==> is_ws(#[trigger] s[k]),
        j == s.len() || !is_ws(s[j]),
    ensures
        ws_run(s, i) == j - i,
    decreases j - i,
{
    if i < j {
        lemma_ws_run_end(s, i + 1, j);
    }
}

/// A numeral of digits alone is non-negative.
pub proof fn lemma_digits_val_nonneg(s: Seq<u8>, i: int, j: int)
    requires
        forall|k: int| i <= k < j ==> is_digit(#[trigger] s[k]),
    ensures
        digits_val(s, i, j) >= 0,
    decreases j - i,
{
    if i < j {
        lemma_digits_val_nonneg(s, i, j - 1);
    }
}

/// Reading more digits never shrinks a numeral's value.
pub proof fn lemma_digits_val_mono(s: Seq<u8>, i: int, j: int, j2: int)
    requires
        i <= j <= j2,
        forall|k: int| i <= k < j2 ==> is_digit(#[trigger] s[k]),
    ensures
        digits_val(s, i, j) <= digits_val(s, i, j2),
    decreases j2 - j,
{
    if j < j2 {
        lemma_digits_val_mono(s, i, j, j2 - 1);
        lemma_digits_val_nonneg(s, i, j2 - 1);
    }
}

/// A numeral of `j - i` digits is below ten to that power.
pub proof fn lemma_digits_val_upper(s: Seq<u8>, i: int, j: int)
    requires
        i <= j,
        forall|k: int| i <= k < j ==> is_digit(#[trigger] s[k]),
    ensures
        digits_val(s, i, j) < pow10((j - i) as nat),
    decreases j - i,
{
    if i < j {
        lemma_digits_val_upper(s, i, j - 1);
    } else {
        assert(pow10(0) == 1);
    }
}

/// Scan the maximal digit run starting at `i` and return its value and end,
/// or nothing when no digit starts there or the value would pass `NUM_CAP`.
pub fn scan_u64(s: &[u8], i: usize) -> (r: Option<(u64, usize)>)
    requires
        i <= s@.len(),
    ensures
        match r {
            Some(p) => {
                &&& p.1 as int == i + digit_run(s@, i as int)
                &&& i < p.1 <= s@.len()
                &&& p.0 as int == digits_val(s@, i as int, p.1 as int)
                &&& p.0 <= NUM_CAP
            },
            None => digit_run(s@, i as int) == 0 || digits_val(
                s@,
                i as int,
                i + digit_run(s@, i as int),
            ) > NUM_CAP,
        },
{
    let mut j: usize = i;
    let mut v: u64 = 0;
    while j < s.len() && s[j] >= 48 && s[j] <= 57
        invariant
            i <= j <= s@.len(),
            forall|k: int| i <= k < j ==> is_digit(#[trigger] s@[k]),
            v as int == digits_val(s@, i as int, j as int),
            v <= NUM_CAP,
        decreases s@.len() - j,
    {
        let d: u64 = (s[j] - 48) as u64;
        if v > (NUM_CAP - d) / 10 {
            proof {
                lemma_digit_run_lower(s@, i as int, j as int);
                lemma_digit_run_digits(s@, i as int);
                assert(digits_val(s@, i as int, j as int + 1) == v * 10 + d);
                assert(v * 10 + d > NUM_CAP);
                lemma_digits_val_mono(
                    s@,
                    i as int,
                    j as int + 1,
                    i + digit_run(s@, i as int),
                );
            }
            return None;
        }
        proof {
            assert(v * 10 + d <= NUM_CAP);
        }
        v = v * 10 + d;
        j = j + 1;
    }
    if j == i {
        proof {
            assert(digit_run(s@, i as int) == 0);
        }
        None
    } else {
        proof {
            lemma_digit_run_end(s@, i as int, j as int);
        }
        Some((v, j))
    }
}

/// Advance past spaces and tabs.
pub fn skip_spaces(s: &[u8], i: usize) -> (j: usize)
    requires
        i <= s@.len(),
    ensures
        j as int == i + space_run(s@, i as int),
        i <= j <= s@.len(),
{
    let mut j: usize = i;
    while j < s.len() && (s[j] == 32 || s[j] == 9)
        invariant
            i <= j <= s@.len(),
            forall|k: int| i <= k < j ==> is_space(#[trigger] s@[k]),
        decreases s@.len() - j,
    {
        j = j + 1;
    }
    proof {
        lemma_space_run_end(s@, i as int, j as int);
    }
    j
}

/// Advance past whitespace of any kind.
pub fn skip_ws(s: &[u8], i: usize) -> (j: usize)
    requires
        i <= s@.len(),
    ensures
        j as int == i + ws_run(s@, i as int),
        i <= j <= s@.len(),
{
    let mut j: usize = i;
    while j < s.len() && (s[j] == 32 || s[j] == 9 || s[j] == 13 || s[j] == 10)
        invariant
            i <= j <= s@.len(),
            forall|k: int| i <= k < j ==> is_ws(#[trigger] s@[k]),
        decreases s@.len() - j,
    {
        j = j + 1;
    }
    proof {
        lemma_ws_run_end(s@, i as int, j as int);
    }
    j
}

/// Whether the numeral starting at `i` carries a fractional part.
pub open spec fn has_frac(s: Seq<u8>, i: int) -> bool {
    let de = i + digit_run(s, i);
    de < s.len() && s[de] == 46 && digit_run(s, de + 1) > 0
}

/// End of the decimal numeral starting at `i`: its digits, and when a dot
/// with further digits follows, those as well.
pub open spec fn milli_end(s: Seq<u8>, i: int) -> int {
    let de = i + digit_run(s, i);
    if has_frac(s, i) {
        de + 1 + digit_run(s, de + 1)
    } else {
        de
    }
}

/// A well-formed numeral: at least one integer digit, an integer part at or
/// below `NUM_CAP`, and at most three fractional digits.
pub open spec fn milli_ok(s: Seq<u8>, i: int) -> bool {
    let de = i + digit_run(s, i);
    &&& digit_run(s, i) > 0
    &&& digits_val(s, i, de) <= NUM_CAP
    &&& (has_frac(s, i) ==> digit_run(s, de + 1) <= 3)
}

/// The numeral's value in thousandths: the integer part scaled by one
/// thousand plus the fractional digits padded to three places.
pub open spec fn milli_val(s: Seq<u8>, i: int) -> int {
    let de = i + digit_run(s, i);
    let ip = digits_val(s, i, de);
    if has_frac(s, i) {
        let m = digit_run(s, de + 1);
        let f = digits_val(s, de + 1, de + 1 + m);
        ip * 1000 + f * (if m == 1 {
            100int
        } else if m == 2 {
            10int
        } else {
            1int
        })
    } else {
        ip * 1000
    }
}

/// Scan the decimal numeral starting at `i` and return its value in
/// thousandths together with its end, or nothing when it is not well
/// formed.
pub fn scan_milli(s: &[u8], i: usize) -> (r: Option<(u64, usize)>)
    requires
        i <= s@.len(),
    ensures
        match r {
            Some(p) => {
                &&& milli_ok(s@, i as int)
                &&& p.0 as int == milli_val(s@, i as int)
                &&& p.1 as int == milli_end(s@, i as int)
                &&& i < p.1 <= s@.len()
                &&& p.0 <= NUM_CAP * 1000 + 999
            },
            None => !milli_ok(s@, i as int),
        },
{
    let ipr = scan_u64(s, i);
    match ipr {
        None => None,
        Some((ip, de)) => {
            if de < s.len() && s[de] == 46 && de + 1 < s.len() && s[de + 1] >= 48 && s[de + 1]
                <= 57 {
                proof {
                    assert(digit_run(s@, de as int + 1) > 0);
                    assert(has_frac(s@, i as int));
                }
                match scan_u64(s, de + 1) {
                    None => {
                        // the fractional run is so long its value passes the
                        // cap, which a three-digit run cannot do
                        proof {
                            let m = digit_run(s@, de as int + 1);
                            lemma_digit_run_digits(s@, de as int + 1);
                            lemma_digits_val_upper(s@, de as int + 1, de as int + 1 + m);
                            reveal_with_fuel(pow10, 5);
                            assert(pow10(1) == 10 && pow10(2) == 100 && pow10(3) == 1000);
                            assert(!milli_ok(s@, i as int));
                        }
                        None
                    },
                    Some((f, fe)) => {
                        let m = fe - (de + 1);
                        if m > 3 {
                            None
                        } else {
                            proof {
                                let mm = digit_run(s@, de as int + 1);
                                lemma_digit_run_digits(s@, de as int + 1);
                                lemma_digits_val_upper(s@, de as int + 1, de as int + 1 + mm);
                                reveal_with_fuel(pow10, 5);
                                assert(pow10(1) == 10 && pow10(2) == 100 && pow10(3) == 1000);
                            }
                            let scaled: u64 = if m == 1 {
                                f * 100
                            } else if m == 2 {
                                f * 10
                            } else {
                                f
                            };
                            Some((ip * 1000 + scaled, fe))
                        }
                    },
                }
            } else {
                proof {
                    assert(!has_frac(s@, i as int));
                }
                Some((ip * 1000, de))
            }
        },
    }
}

/// The decimal numeral of a non-negative value, most significant digit
/// first.
pub open spec fn dec_bytes(v: int) -> Seq<u8>
    decreases v,
{
    if 0 <= v < 10 {
        seq![(48 + v) as u8]
    } else if v >= 10 {
        dec_bytes(v / 10) + seq![(48 + v % 10) as u8]
    } else {
        Seq::empty()
    }
}

/// Append the decimal numeral of `v`.
pub fn push_dec(out: &mut Vec<u8>, v: u64)
    ensures
        final(out)@ == old(out)@ + dec_bytes(v as int),
    decreases v,
{
    if v < 10 {
        out.push(48 + v as u8);
        proof {
            assert(out@ =~= old(out)@ + dec_bytes(v as int));
        }
    } else {
        push_dec(out, v / 10);
        out.push(48 + (v % 10) as u8);
        proof {
            assert(out@ =~= old(out)@ + dec_bytes(v as int));
        }
    }
}

/// Three zero-padded digits for a fractional part in thousandths.
pub open spec fn pad3(f: int) -> Seq<u8> {
    seq![(48 + f / 100) as u8, (48 + (f / 10) % 10) as u8, (48 + f % 10) as u8]
}

/// Append the three zero-padded fractional digits of `f`.
pub fn push_pad3(out: &mut Vec<u8>, f: u64)
    requires
        f < 1000,
    ensures
        final(out)@ == old(out)@ + pad3(f as int),
{
    out.push(48 + (f / 100) as u8);
    out.push(48 + ((f / 10) % 10) as u8);
    out.push(48 + (f % 10) as u8);
    proof {
        assert(out@ =~= old(out)@ + pad3(f as int));
    }
}

/// A position in thousandths written with exactly three decimal places.
pub open spec fn milli_3dp(v: int) -> Seq<u8> {
    dec_bytes(v / 1000) + seq![46u8] + pad3(v % 1000)
}

/// Append `v` thousandths as a numeral with exactly three decimal places.
pub fn push_milli_3dp(out: &mut Vec<u8>, v: u64)
    ensures
        final(out)@ == old(out)@ + milli_3dp(v as int),
{
    push_dec(out, v / 1000);
    out.push(46);
    push_pad3(out, v % 1000);
    proof {
        assert(out@ =~= old(out)@ + milli_3dp(v as int));
    }
}

/// A value in thousandths written in its shortest decimal form: no dot for
/// a whole number, and no trailing zeros in the fraction.
pub open spec fn milli_short(v: int) -> Seq<u8> {
    let f = v % 1000;
    if f == 0 {
        dec_bytes(v / 1000)
    } else if f % 10 != 0 {
        dec_bytes(v / 1000) + seq![46u8] + pad3(f)
    } else if f % 100 != 0 {
        dec_bytes(v / 1000) + seq![46u8, (48 + f / 100) as u8, (48 + (f / 10) % 10) as u8]
    } else {
        dec_bytes(v / 1000) + seq![46u8, (48 + f / 100) as u8]
    }
}

/// Append `v` thousandths in its shortest decimal form.
pub fn push_milli_short(out: &mut Vec<u8>, v: u64)
    ensures
        final(out)@ == old(out)@ + milli_short(v as int),
{
    let f: u64 = v % 1000;
    if f == 0 {
        push_dec(out, v / 1000);
    } else if f % 10 != 0 {
        push_dec(out, v / 1000);
        out.push(46);
        push_pad3(out, f);
    } else if f % 100 != 0 {
        push_dec(out, v / 1000);
        out.push(46);
        out.push(48 + (f / 100) as u8);
        out.push(48 + ((f / 10) % 10) as u8);
    } else {
        push_dec(out, v / 1000);
        out.push(46);
        out.push(48 + (f / 100) as u8);
    }
    proof {
        assert(out@ =~= old(out)@ + milli_short(v as int));
    }
}

} // verus!
