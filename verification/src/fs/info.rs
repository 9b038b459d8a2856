//! File metadata presentation.

use vstd::prelude::*;

verus! {

pub open spec fn octal_digit(d: nat) -> char {
    (('0' as nat) + d) as char
}

/// The octal numeral of `n`, without leading zeros (`0` for zero).
pub open spec fn octal_digits(n: nat) -> Seq<char>
    decreases n,
{
    if n < 8 {
        seq![octal_digit(n)]
    } else {
        octal_digits(n / 8).push(octal_digit(n % 8))
    }
}

/// The permission bits of a file mode (`mode & 0o777`) in octal, as `{:o}`
/// prints them.
pub fn format_permissions(mode: u32) -> (r: String)
    ensures
        r@ == octal_digits((mode % 512) as nat),
{
    let bits = mode & 0o777;
    assert(mode & 0o777 == mode % 512) by (bit_vector);
    let mut digits: Vec<char> = Vec::new();
    let mut n = bits;
    // collect digits least significant first
    let ghost start = bits as nat;
    loop
        invariant_except_break
            octal_digits(start) == octal_digits(n as nat) + digits@.reverse(),
        invariant
            n <= bits,
            bits < 512,
            start == bits as nat,
        ensures
            octal_digits(start) == digits@.reverse(),
        decreases n,
    {
        let d = n % 8;
        let c = (('0' as u32) + d) as u8 as char;
        assert(c == octal_digit(d as nat));
        if n < 8 {
            assert(octal_digits(n as nat) == seq![octal_digit(n as nat)]);
            let ghost before = digits@;
            digits.push(c);
            assert(digits@.reverse() =~= seq![c] + before.reverse());
            break;
        }
        let ghost before = digits@;
        assert(octal_digits(n as nat) == octal_digits((n / 8) as nat).push(octal_digit(d as nat)));
        digits.push(c);
        assert(digits@.reverse() =~= seq![c] + before.reverse());
        n = n / 8;
    }
    let mut out = String::new();
    let mut i = digits.len();
    let ghost rev = digits@.reverse();
    assert(octal_digits(start) == rev);
    while i > 0
        invariant
            i <= digits.len(),
            rev == digits@.reverse(),
            out@ == rev.take(digits.len() - i),
        decreases i,
    {
        i = i - 1;
        crate::text::push_char(&mut out, digits[i]);
        assert(rev.take(digits.len() - i) =~= rev.take(digits.len() - i - 1).push(digits@[i as int]));
    }
    assert(rev.take(digits.len() as int) == rev);
    out
}

} // verus!
