//! Decimal text rendering of integers, as the textual alignment format writes
//! numeric fields.

use vstd::prelude::*;

verus! {

/// The ASCII digit for a value below ten.
pub open spec fn dec_digit(n: int) -> u8 {
    (0x30 + n) as u8
}

/// The ASCII decimal digits of a non-negative value, most significant first.
pub open spec fn dec_bytes(n: int) -> Seq<u8>
    recommends
        n >= 0,
    decreases n,
{
    if n < 10 {
        seq![dec_digit(n)]
    } else {
        dec_bytes(n / 10) + seq![dec_digit(n % 10)]
    }
}

/// The ASCII rendering of a signed value: a minus sign before the digits of
/// its magnitude when it is negative.
pub open spec fn int_bytes(n: int) -> Seq<u8> {
    if n < 0 {
        seq![0x2du8] + dec_bytes(-n)
    } else {
        dec_bytes(n)
    }
}

proof fn lemma_reverse_push(s: Seq<u8>, d: u8)
    ensures
        s.push(d).reverse() == seq![d] + s.reverse(),
{
    assert(s.push(d).reverse() =~= seq![d] + s.reverse());
}

/// Appends the decimal digits of `n`.
pub fn push_u64_dec(buf: &mut Vec<u8>, n: u64)
    ensures
        final(buf)@ == old(buf)@ + dec_bytes(n as int),
{
    let mut digits: Vec<u8> = Vec::new();
    let mut m: u64 = n;
    proof {
        assert(dec_bytes(n as int) =~= dec_bytes(n as int) + digits@.reverse());
    }
    loop
        invariant
            m > 0 || digits@.len() == 0 ==> dec_bytes(n as int) == dec_bytes(m as int)
                + digits@.reverse(),
            m == 0 && digits@.len() > 0 ==> dec_bytes(n as int) == digits@.reverse(),
        ensures
            dec_bytes(n as int) == digits@.reverse(),
        decreases m + if digits@.len() == 0 { 1int } else { 0int },
    {
        if m == 0 && digits.len() > 0 {
            break;
        }
        let d: u8 = 0x30 + (m % 10) as u8;
        proof {
            lemma_reverse_push(digits@, d);
            if m >= 10 {
                assert(dec_bytes(m as int) == dec_bytes(m as int / 10) + seq![
                    dec_digit(m as int % 10),
                ]);
                assert(dec_bytes(m as int) + digits@.reverse() =~= dec_bytes(m as int / 10) + (
                seq![d] + digits@.reverse()));
            } else {
                assert(dec_bytes(m as int) == seq![dec_digit(m as int)]);
                assert(dec_bytes(m as int) + digits@.reverse() =~= seq![d] + digits@.reverse());
            }
            assert(m as int / 10 == (m / 10) as int);
        }
        digits.push(d);
        m = m / 10;
    }
    let ghost pre = buf@;
    proof {
        assert(buf@ =~= pre + digits@.reverse().take(0));
    }
    let mut i: usize = digits.len();
    while i > 0
        invariant
            i <= digits@.len(),
            dec_bytes(n as int) == digits@.reverse(),
            buf@ == pre + digits@.reverse().take(digits@.len() - i),
        decreases i,
    {
        i = i - 1;
        let d = digits[i];
        proof {
            assert(digits@.reverse()[digits@.len() - 1 - i] == digits@[i as int]);
            assert(digits@.reverse().take(digits@.len() - i) =~= digits@.reverse().take(
                digits@.len() - (i + 1),
            ).push(digits@[i as int]));
        }
        buf.push(d);
    }
    proof {
        assert(digits@.reverse().take(digits@.len() as int) =~= digits@.reverse());
    }
}

/// Appends the decimal rendering of a signed value: `-` then the magnitude's
/// digits when it is negative.
pub fn push_i64_dec(buf: &mut Vec<u8>, n: i64)
    ensures
        final(buf)@ == old(buf)@ + int_bytes(n as int),
{
    if n < 0 {
        let ghost pre = buf@;
        buf.push(0x2d);
        let mag: u64 = if n == i64::MIN {
            0x8000_0000_0000_0000u64
        } else {
            (-n) as u64
        };
        push_u64_dec(buf, mag);
        proof {
            assert(pre + seq![0x2du8] + dec_bytes(mag as int) =~= pre + (seq![0x2du8]
                + dec_bytes(-(n as int))));
        }
    } else {
        push_u64_dec(buf, n as u64);
    }
}

/// Every byte of a non-negative decimal rendering is an ASCII digit.
pub proof fn lemma_dec_bytes_are_digits(n: int)
    requires
        n >= 0,
    ensures
        forall|i: int| 0 <= i < dec_bytes(n).len() ==> (0x30 <= #[trigger] dec_bytes(n)[i] <= 0x39),
    decreases n,
{
    if n >= 10 {
        lemma_dec_bytes_are_digits(n / 10);
        assert forall|i: int| 0 <= i < dec_bytes(n).len() implies (0x30 <= #[trigger] dec_bytes(
            n,
        )[i] <= 0x39) by {
            if i < dec_bytes(n / 10).len() {
                assert(dec_bytes(n)[i] == dec_bytes(n / 10)[i]);
            }
        }
    }
}

/// Every byte of a signed decimal rendering is a minus sign or an ASCII
/// digit.
pub proof fn lemma_int_bytes_are_sign_or_digits(n: int)
    ensures
        forall|i: int| 0 <= i < int_bytes(n).len() ==> (#[trigger] int_bytes(n)[i] == 0x2d || (0x30
            <= int_bytes(n)[i] <= 0x39)),
{
    if n < 0 {
        lemma_dec_bytes_are_digits(-n);
        assert forall|i: int| 0 <= i < int_bytes(n).len() implies (#[trigger] int_bytes(n)[i]
            == 0x2d || (0x30 <= int_bytes(n)[i] <= 0x39)) by {
            if i > 0 {
                assert(int_bytes(n)[i] == dec_bytes(-n)[i - 1]);
            }
        }
    } else {
        lemma_dec_bytes_are_digits(n);
    }
}

} // verus!
