//! Rendering of numbers as uppercase hexadecimal strings.

use vstd::prelude::*;

verus! {

/// The uppercase hexadecimal digit for a value in `0..16`.
pub open spec fn hex_digit(d: int) -> char {
    if d == 0 {
        '0'
    } else if d == 1 {
        '1'
    } else if d == 2 {
        '2'
    } else if d == 3 {
        '3'
    } else if d == 4 {
        '4'
    } else if d == 5 {
        '5'
    } else if d == 6 {
        '6'
    } else if d == 7 {
        '7'
    } else if d == 8 {
        '8'
    } else if d == 9 {
        '9'
    } else if d == 10 {
        'A'
    } else if d == 11 {
        'B'
    } else if d == 12 {
        'C'
    } else if d == 13 {
        'D'
    } else if d == 14 {
        'E'
    } else {
        'F'
    }
}

/// The two-digit uppercase hexadecimal rendering of a single byte.
pub open spec fn byte_hex(b: u8) -> Seq<char> {
    seq![hex_digit(b as int / 16), hex_digit(b as int % 16)]
}

/// The uppercase hexadecimal digits of `n`, most significant first,
/// without leading zeros (a single `'0'` for `n == 0`).
pub open spec fn hex_rep(n: nat) -> Seq<char>
    decreases n,
{
    if n < 16 {
        seq![hex_digit(n as int)]
    } else {
        hex_rep(n / 16).push(hex_digit((n % 16) as int))
    }
}

/// `s` padded on the left with `'0'` to a minimum width of 4 characters.
pub open spec fn zero_pad4(s: Seq<char>) -> Seq<char> {
    if s.len() >= 4 {
        s
    } else {
        Seq::new((4 - s.len()) as nat, |i: int| '0') + s
    }
}

/// The rendering of a row offset: `0x` followed by the hexadecimal digits of
/// `n`, zero-padded to at least 4 digits and never truncated.
pub open spec fn offset_rep(n: nat) -> Seq<char> {
    seq!['0', 'x'] + zero_pad4(hex_rep(n))
}

/// The hexadecimal rendering of a number is never empty.
pub proof fn lemma_hex_rep_min_len(n: nat)
    ensures
        hex_rep(n).len() >= 1,
{
}

/// The rendering has two or more digits exactly for numbers of 16 and above.
pub proof fn lemma_hex_rep_len2(n: nat)
    ensures
        n >= 16 <==> hex_rep(n).len() >= 2,
{
    if n >= 16 {
        lemma_hex_rep_min_len(n / 16);
    }
}

/// A positive number's rendering has no leading zero.
pub proof fn lemma_hex_rep_leading(n: nat)
    requires
        n > 0,
    ensures
        hex_rep(n)[0] != '0',
    decreases n,
{
    if n >= 16 {
        lemma_hex_rep_min_len(n / 16);
        lemma_hex_rep_leading(n / 16);
        assert(hex_rep(n)[0] == hex_rep(n / 16)[0]);
    }
}

/// Distinct digit values below 16 render as distinct characters.
pub proof fn lemma_hex_digit_inj(a: int, b: int)
    requires
        0 <= a < 16,
        0 <= b < 16,
        hex_digit(a) == hex_digit(b),
    ensures
        a == b,
{
}

/// Distinct numbers have distinct hexadecimal renderings.
pub proof fn lemma_hex_rep_inj(m: nat, n: nat)
    requires
        hex_rep(m) == hex_rep(n),
    ensures
        m == n,
    decreases m,
{
    lemma_hex_rep_len2(m);
    lemma_hex_rep_len2(n);
    if m < 16 && n < 16 {
        assert(hex_rep(m)[0] == hex_digit(m as int));
        assert(hex_rep(n)[0] == hex_digit(n as int));
        lemma_hex_digit_inj(m as int, n as int);
    } else if m >= 16 && n >= 16 {
        assert(hex_rep(m).last() == hex_digit((m % 16) as int));
        assert(hex_rep(n).last() == hex_digit((n % 16) as int));
        lemma_hex_digit_inj((m % 16) as int, (n % 16) as int);
        assert(hex_rep(m).drop_last() =~= hex_rep(m / 16));
        assert(hex_rep(n).drop_last() =~= hex_rep(n / 16));
        lemma_hex_rep_inj(m / 16, n / 16);
    }
}

/// Helper for [`lemma_offset_rep_inj`]: the case where the first number's
/// rendering is no longer than the second's.
proof fn lemma_offset_rep_inj_ordered(m: nat, n: nat)
    requires
        m != n,
        hex_rep(m).len() <= hex_rep(n).len(),
    ensures
        offset_rep(m) != offset_rep(n),
{
    let a = hex_rep(m);
    let b = hex_rep(n);
    lemma_hex_rep_min_len(m);
    lemma_hex_rep_min_len(n);
    if offset_rep(m) == offset_rep(n) {
        assert(zero_pad4(a) =~= offset_rep(m).subrange(2, offset_rep(m).len() as int));
        assert(zero_pad4(b) =~= offset_rep(n).subrange(2, offset_rep(n).len() as int));
        assert(zero_pad4(a) == zero_pad4(b));
        if a.len() == b.len() {
            assert(a =~= b) by {
                assert forall|k: int| 0 <= k < a.len() implies a[k] == b[k] by {
                    if a.len() >= 4 {
                        assert(zero_pad4(a)[k] == a[k]);
                        assert(zero_pad4(b)[k] == b[k]);
                    } else {
                        assert(zero_pad4(a)[k + 4 - a.len()] == a[k]);
                        assert(zero_pad4(b)[k + 4 - b.len()] == b[k]);
                    }
                }
            }
            lemma_hex_rep_inj(m, n);
        } else {
            lemma_hex_rep_len2(n);
            lemma_hex_rep_leading(n);
            if b.len() <= 4 {
                let t = 4 - b.len();
                assert(zero_pad4(b)[t] == b[0]);
                assert(zero_pad4(a)[t] == '0');
            } else if a.len() <= 4 {
                assert(zero_pad4(a).len() == 4);
                assert(zero_pad4(b).len() == b.len());
            } else {
                assert(zero_pad4(a).len() == a.len());
                assert(zero_pad4(b).len() == b.len());
                lemma_hex_rep_inj(m, n);
            }
        }
    }
}

/// Distinct offsets render as distinct offset strings.
pub proof fn lemma_offset_rep_inj(m: nat, n: nat)
    requires
        m != n,
    ensures
        offset_rep(m) != offset_rep(n),
{
    if hex_rep(m).len() <= hex_rep(n).len() {
        lemma_offset_rep_inj_ordered(m, n);
    } else {
        lemma_offset_rep_inj_ordered(n, m);
    }
}

/// Relies on `alloc::string::String::push`: appends the given character to
/// the end of the string.
#[verifier::external_body]
pub(crate) fn push_char(s: &mut String, c: char)
    ensures
        final(s)@ == old(s)@.push(c),
{
    s.push(c);
}

/// The uppercase hexadecimal digit character for a value below 16.
pub fn hex_digit_char(d: u8) -> (c: char)
    requires
        d < 16,
    ensures
        c == hex_digit(d as int),
{
    if d == 0 {
        '0'
    } else if d == 1 {
        '1'
    } else if d == 2 {
        '2'
    } else if d == 3 {
        '3'
    } else if d == 4 {
        '4'
    } else if d == 5 {
        '5'
    } else if d == 6 {
        '6'
    } else if d == 7 {
        '7'
    } else if d == 8 {
        '8'
    } else if d == 9 {
        '9'
    } else if d == 10 {
        'A'
    } else if d == 11 {
        'B'
    } else if d == 12 {
        'C'
    } else if d == 13 {
        'D'
    } else if d == 14 {
        'E'
    } else {
        'F'
    }
}

/// Renders one byte as exactly two uppercase hexadecimal digits.
pub fn byte_to_hex(b: u8) -> (s: String)
    ensures
        s@ == byte_hex(b),
{
    let mut s = String::new();
    push_char(&mut s, hex_digit_char(b / 16));
    push_char(&mut s, hex_digit_char(b % 16));
    proof {
        assert(s@ =~= byte_hex(b));
    }
    s
}

/// Renders a row offset as `0x` plus at least four uppercase hexadecimal
/// digits, with no truncation for large offsets.
pub fn offset_to_string(n: usize) -> (s: String)
    ensures
        s@ == offset_rep(n as nat),
{
    let mut digits: Vec<char> = Vec::new();
    digits.insert(0, hex_digit_char((n % 16) as u8));
    let mut m: usize = n / 16;
    proof {
        if m > 0 {
            assert(hex_rep(n as nat) =~= hex_rep(m as nat) + digits@);
        } else {
            assert(hex_rep(n as nat) =~= digits@);
        }
    }
    while m > 0
        invariant
            if m > 0 {
                hex_rep(n as nat) == hex_rep(m as nat) + digits@
            } else {
                hex_rep(n as nat) == digits@
            },
        decreases m,
    {
        digits.insert(0, hex_digit_char((m % 16) as u8));
        let m2: usize = m / 16;
        proof {
            if m2 > 0 {
                assert(hex_rep(m as nat) =~= hex_rep(m2 as nat).push(hex_digit((m % 16) as int)));
                assert(hex_rep(n as nat) =~= hex_rep(m2 as nat) + digits@);
            } else {
                assert(hex_rep(m as nat) =~= seq![hex_digit(m as int)]);
                assert(hex_rep(n as nat) =~= digits@);
            }
        }
        m = m2;
    }
    while digits.len() < 4
        invariant
            zero_pad4(digits@) == zero_pad4(hex_rep(n as nat)),
            digits@.len() >= 1,
        decreases 4 - digits@.len(),
    {
        let ghost before = digits@;
        digits.insert(0, '0');
        proof {
            assert(zero_pad4(digits@) =~= zero_pad4(before));
        }
    }
    let mut s = String::new();
    push_char(&mut s, '0');
    push_char(&mut s, 'x');
    proof {
        assert(s@ =~= seq!['0', 'x']);
    }
    let mut j: usize = 0;
    while j < digits.len()
        invariant
            j <= digits@.len(),
            s@ == seq!['0', 'x'] + digits@.subrange(0, j as int),
        decreases digits@.len() - j,
    {
        push_char(&mut s, digits[j]);
        proof {
            assert(s@ =~= seq!['0', 'x'] + digits@.subrange(0, j as int + 1));
        }
        j = j + 1;
    }
    proof {
        assert(digits@.subrange(0, digits@.len() as int) =~= digits@);
        assert(digits@ =~= zero_pad4(hex_rep(n as nat)));
        assert(s@ =~= offset_rep(n as nat));
    }
    s
}

} // verus!
