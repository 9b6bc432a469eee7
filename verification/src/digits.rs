//! Decimal digits: reading a digit run as a `u32` with overflow detection,
//! and printing a `u32` back as decimal text.

use vstd::prelude::*;

verus! {

/// `c` is one of the decimal digits `'0'` through `'9'`.
pub open spec fn is_digit(c: char) -> bool {
    '0' as int <= c as int && c as int <= '9' as int
}

/// The numeric value of a decimal digit.
pub open spec fn digit_val(c: char) -> nat
    recommends
        is_digit(c),
{
    (c as int - '0' as int) as nat
}

/// The decimal digit with numeric value `d`.
pub open spec fn digit_char(d: nat) -> char
    recommends
        d < 10,
{
    (d + '0' as int) as char
}

/// The value of a digit run read as a decimal number, most significant digit
/// first. The empty run reads as 0.
pub open spec fn dec_value(s: Seq<char>) -> nat
    decreases s.len(),
{
    if s.len() == 0 {
        0
    } else {
        dec_value(s.drop_last()) * 10 + digit_val(s.last())
    }
}

/// The decimal representation of `n`: no leading zeroes, except that 0 itself
/// is written `"0"`.
pub open spec fn dec_rep(n: nat) -> Seq<char>
    decreases n,
{
    if n < 10 {
        seq![digit_char(n)]
    } else {
        dec_rep(n / 10).push(digit_char(n % 10))
    }
}

/// Whether `c` is a decimal digit.
pub fn is_digit_char(c: char) -> (b: bool)
    ensures
        b == is_digit(c),
{
    let u = c as u32;
    48 <= u && u <= 57
}

/// The numeric value of the digit `c`.
fn char_digit_value(c: char) -> (d: u32)
    requires
        is_digit(c),
    ensures
        d == digit_val(c),
        d < 10,
{
    c as u32 - 48
}

/// The digit whose numeric value is `d`.
fn value_digit_char(d: u32) -> (c: char)
    requires
        d < 10,
    ensures
        c == digit_char(d as nat),
{
    (d as u8 + 48) as char
}

/// Reading a longer digit run never yields a smaller value: the value of
/// `s[from..i]` is at most the value of `s[from..j]` when `i <= j`.
proof fn lemma_dec_value_extend(s: Seq<char>, from: int, i: int, j: int)
    requires
        0 <= from <= i <= j <= s.len(),
    ensures
        dec_value(s.subrange(from, i)) <= dec_value(s.subrange(from, j)),
    decreases j - i,
{
    if i < j {
        lemma_dec_value_extend(s, from, i, j - 1);
        assert(s.subrange(from, j).drop_last() =~= s.subrange(from, j - 1));
        assert(dec_value(s.subrange(from, j)) == dec_value(s.subrange(from, j - 1)) * 10
            + digit_val(s.subrange(from, j).last()));
    }
}

/// Reads the digit run `s[from..to]` as a decimal `u32`, most significant
/// digit first; reports when the run's value does not fit in `u32`.
pub fn parse_digits(s: &str, from: usize, to: usize) -> (r: Option<u32>)
    requires
        from <= to <= s@.len(),
        forall|q: int| from <= q < to ==> is_digit(s@[q]),
    ensures
        match r {
            Some(v) => v == dec_value(s@.subrange(from as int, to as int)),
            None => dec_value(s@.subrange(from as int, to as int)) > u32::MAX,
        },
{
    let mut acc: u32 = 0;
    let mut q: usize = from;
    while q < to
        invariant
            from <= q <= to <= s@.len(),
            forall|p: int| from <= p < to ==> is_digit(s@[p]),
            acc == dec_value(s@.subrange(from as int, q as int)),
        decreases to - q,
    {
        let c = s.get_char(q);
        let d = char_digit_value(c);
        proof {
            assert(s@.subrange(from as int, q as int + 1).drop_last() =~= s@.subrange(
                from as int,
                q as int,
            ));
            assert(dec_value(s@.subrange(from as int, q as int + 1)) == acc * 10 + digit_val(
                s@[q as int],
            ));
        }
        let shifted = match acc.checked_mul(10) {
            Some(a) => a,
            None => {
                proof {
                    lemma_dec_value_extend(s@, from as int, q as int + 1, to as int);
                }
                return None;
            },
        };
        acc = match shifted.checked_add(d) {
            Some(a) => a,
            None => {
                proof {
                    lemma_dec_value_extend(s@, from as int, q as int + 1, to as int);
                }
                return None;
            },
        };
        q = q + 1;
    }
    proof {
        assert(s@.subrange(from as int, to as int) =~= s@.subrange(from as int, q as int));
    }
    Some(acc)
}

/// Relies on std's `String::push`: appends the character to the end of the
/// string.
pub assume_specification[ String::push ](s: &mut String, ch: char)
    ensures
        final(s)@ == old(s)@.push(ch),
;

/// Writes `n` in decimal, most significant digit first.
pub fn u32_to_decimal(n: u32) -> (r: String)
    ensures
        r@ == dec_rep(n as nat),
    decreases n,
{
    let d = value_digit_char(n % 10);
    if n < 10 {
        let mut r = String::new();
        r.push(d);
        proof {
            assert(r@ =~= dec_rep(n as nat));
        }
        r
    } else {
        let mut r = u32_to_decimal(n / 10);
        r.push(d);
        proof {
            assert(r@ =~= dec_rep(n as nat));
        }
        r
    }
}

} // verus!
