//! Canonical decimal numerals: integers are rendered exactly as their
//! base-ten digit string, with a leading `-` for negative values.

use vstd::prelude::*;

verus! {

/// The character for one decimal digit value.
pub open spec fn dec_digit(d: nat) -> char
    recommends
        d < 10,
{
    ((48 + d) as u8) as char
}

/// The decimal numeral of a non-negative integer, most significant digit
/// first, with no leading zeros (zero itself is "0").
pub open spec fn nat_dec(n: nat) -> Seq<char>
    decreases n,
{
    if n < 10 {
        seq![dec_digit(n)]
    } else {
        nat_dec(n / 10) + seq![dec_digit(n % 10)]
    }
}

/// The decimal numeral of a signed integer.
pub open spec fn int_dec(n: int) -> Seq<char> {
    if n < 0 {
        seq!['-'] + nat_dec((-n) as nat)
    } else {
        nat_dec(n as nat)
    }
}

/// Renders an unsigned integer as its decimal numeral.
pub fn u64_to_chars(n: u64) -> (r: Vec<char>)
    ensures
        r@ == nat_dec(n as nat),
{
    let mut tmp: Vec<char> = Vec::new();
    let ghost acc: Seq<char> = Seq::empty();
    let mut acc: Ghost<Seq<char>> = Ghost(acc);
    let mut m: u64 = n;
    proof {
        assert(nat_dec(m as nat) + acc@ =~= nat_dec(n as nat));
    }
    while m >= 10
        invariant
            nat_dec(n as nat) == nat_dec(m as nat) + acc@,
            tmp@.len() == acc@.len(),
            forall|k: int| 0 <= k < tmp@.len() ==> tmp@[k] == acc@[acc@.len() - 1 - k],
        decreases m,
    {
        let d: u64 = m % 10;
        let c: char = ((d as u8) + 48) as char;
        proof {
            assert(c == dec_digit((m as nat) % 10));
        }
        tmp.push(c);
        proof {
            acc@ = seq![c] + acc@;
            assert(nat_dec(m as nat) == nat_dec((m as nat) / 10) + seq![dec_digit(
                (m as nat) % 10,
            )]);
            assert(nat_dec((m as nat) / 10) + (seq![c] + acc@) =~= (nat_dec((m as nat) / 10)
                + seq![c]) + acc@);
        }
        m = m / 10;
    }
    let d: u64 = m;
    let c0: char = ((d as u8) + 48) as char;
    proof {
        assert(c0 == dec_digit(m as nat));
        assert(nat_dec(m as nat) == seq![c0]);
    }
    let mut r: Vec<char> = Vec::new();
    r.push(c0);
    let len: usize = tmp.len();
    let mut j: usize = 0;
    proof {
        assert(r@ =~= seq![c0] + acc@.subrange(0, 0));
    }
    while j < len
        invariant
            len == tmp@.len(),
            tmp@.len() == acc@.len(),
            forall|k: int| 0 <= k < tmp@.len() ==> tmp@[k] == acc@[acc@.len() - 1 - k],
            j <= len,
            r@ == seq![c0] + acc@.subrange(0, j as int),
        decreases len - j,
    {
        let c = tmp[len - 1 - j];
        proof {
            assert(tmp@[len - 1 - j] == acc@[j as int]);
        }
        r.push(c);
        j += 1;
        proof {
            assert(r@ =~= seq![c0] + acc@.subrange(0, j as int));
        }
    }
    proof {
        assert(acc@.subrange(0, acc@.len() as int) =~= acc@);
        assert(r@ =~= nat_dec(n as nat));
    }
    r
}

/// Renders a signed integer as its decimal numeral.
pub fn i64_to_chars(n: i64) -> (r: Vec<char>)
    ensures
        r@ == int_dec(n as int),
{
    if n >= 0 {
        u64_to_chars(n as u64)
    } else {
        let mag: u64 = ((-(n + 1)) as u64) + 1;
        proof {
            assert(mag as int == -(n as int));
        }
        let digits = u64_to_chars(mag);
        let mut r: Vec<char> = Vec::new();
        r.push('-');
        let mut i: usize = 0;
        while i < digits.len()
            invariant
                i <= digits@.len(),
                r@ == seq!['-'] + digits@.subrange(0, i as int),
            decreases digits@.len() - i,
        {
            r.push(digits[i]);
            i += 1;
            proof {
                assert(r@ =~= seq!['-'] + digits@.subrange(0, i as int));
            }
        }
        proof {
            assert(digits@.subrange(0, digits@.len() as int) =~= digits@);
        }
        r
    }
}

} // verus!
