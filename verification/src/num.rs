//! Decimal rendering of positions, used for the generated "Tab N" labels.

use vstd::prelude::*;

verus! {

/// The decimal digits of `n`, most significant first.
pub open spec fn dec_digits(n: nat) -> Seq<u8>
    decreases n,
{
    if n < 10 {
        seq![(48 + n) as u8]
    } else {
        dec_digits(n / 10) + seq![(48 + n % 10) as u8]
    }
}

/// Renders `n` in decimal.
pub fn u64_to_dec(n: u64) -> (r: Vec<u8>)
    ensures
        r@ == dec_digits(n as nat),
{
    let mut digits: Vec<u8> = Vec::new();
    let mut m: u64 = n;
    #[verifier::loop_isolation(true)]
    loop
        invariant_except_break
            (digits@.len() == 0 && m == n) || (m > 0 && dec_digits(n as nat) == dec_digits(
                m as nat,
            ) + digits@),
        ensures
            dec_digits(n as nat) == digits@,
        decreases m,
    {
        let d: u8 = (m % 10) as u8 + 48;
        proof {
            if digits@.len() == 0 {
                assert(dec_digits(n as nat) =~= dec_digits(m as nat) + digits@);
            }
        }
        let ghost old_digits = digits@;
        digits.insert(0, d);
        proof {
            assert(digits@ =~= seq![d] + old_digits);
            if m < 10 {
                assert(dec_digits(m as nat) == seq![d]);
                assert(dec_digits(n as nat) =~= digits@);
            } else {
                assert(dec_digits(m as nat) == dec_digits((m / 10) as nat) + seq![d]);
                assert(dec_digits(n as nat) =~= dec_digits((m / 10) as nat) + digits@);
            }
        }
        m = m / 10;
        if m == 0 {
            break ;
        }
    }
    digits
}

} // verus!
