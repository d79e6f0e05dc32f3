//! The score record text: a counter is persisted as plain ASCII decimal
//! digits, nothing more. Rendering and parsing are inverses.

use vstd::prelude::*;

verus! {

/// The ASCII digit for a value below ten.
pub open spec fn digit_byte(d: int) -> u8 {
    (48 + d) as u8
}

/// Whether a byte is an ASCII digit.
pub open spec fn is_digit(b: u8) -> bool {
    48 <= b <= 57
}

/// Whether every byte of `s` is an ASCII digit.
pub open spec fn all_digits(s: Seq<u8>) -> bool {
    forall|i: int| 0 <= i < s.len() ==> is_digit(s[i])
}

/// The number that a string of ASCII digits denotes, most significant first.
pub open spec fn dec_value(s: Seq<u8>) -> nat
    decreases s.len(),
{
    if s.len() == 0 {
        0
    } else {
        dec_value(s.take(s.len() - 1)) * 10 + (s[s.len() - 1] - 48) as nat
    }
}

/// The canonical decimal digits of `n`: no sign, no leading zero, and `0`
/// itself written as one digit.
pub open spec fn dec_digits(n: nat) -> Seq<u8>
    decreases n,
{
    if n < 10 {
        seq![digit_byte(n as int)]
    } else {
        dec_digits(n / 10) + seq![digit_byte((n % 10) as int)]
    }
}

/// The decimal digits of `n` with zero written as the empty string; the form
/// that a digit-collecting loop builds.
pub open spec fn dec_rest(n: nat) -> Seq<u8>
    decreases n,
{
    if n == 0 {
        Seq::empty()
    } else {
        dec_rest(n / 10) + seq![digit_byte((n % 10) as int)]
    }
}

/// For a positive number the two digit forms agree.
proof fn lemma_dec_rest_positive(n: nat)
    requires
        n > 0,
    ensures
        dec_rest(n) == dec_digits(n),
    decreases n,
{
    if n < 10 {
        assert(dec_rest(0) =~= Seq::<u8>::empty());
        assert(dec_rest(n) =~= dec_digits(n));
    } else {
        lemma_dec_rest_positive(n / 10);
    }
}

/// The canonical digits of `n` are digits, at least one, and denote `n`.
pub proof fn lemma_dec_digits_value(n: nat)
    ensures
        all_digits(dec_digits(n)),
        dec_digits(n).len() > 0,
        dec_value(dec_digits(n)) == n,
    decreases n,
{
    if n < 10 {
        let s = dec_digits(n);
        assert(s.take(s.len() - 1) =~= Seq::<u8>::empty());
        assert(dec_value(Seq::<u8>::empty()) == 0);
        assert(s[0] == digit_byte(n as int));
        assert(dec_value(s) == 0 * 10 + (s[0] - 48) as nat);
    } else {
        lemma_dec_digits_value(n / 10);
        let s = dec_digits(n);
        assert(s.take(s.len() - 1) =~= dec_digits(n / 10));
        assert(all_digits(s)) by {
            assert(forall|i: int|
                0 <= i < s.len() - 1 ==> s[i] == #[trigger] dec_digits(n / 10)[i]);
        }
        assert(dec_value(s) == (n / 10) * 10 + n % 10);
    }
}

/// Extending a digit string to the right can only grow the number it denotes.
proof fn lemma_dec_value_prefix(s: Seq<u8>, j: int)
    requires
        0 <= j <= s.len(),
    ensures
        dec_value(s.take(j)) <= dec_value(s),
    decreases s.len(),
{
    if j == s.len() {
        assert(s.take(j) =~= s);
    } else {
        assert(s.take(s.len() - 1).take(j) =~= s.take(j));
        lemma_dec_value_prefix(s.take(s.len() - 1), j);
    }
}

/// Writes a counter as the ASCII decimal text that its record file holds.
pub fn render_score(n: u32) -> (r: Vec<u8>)
    ensures
        r@ == dec_digits(n as nat),
{
    if n == 0 {
        let mut v: Vec<u8> = Vec::new();
        v.push(48);
        proof {
            assert(v@ =~= dec_digits(0));
        }
        return v;
    }
    let mut rev: Vec<u8> = Vec::new();
    let mut m: u32 = n;
    while m > 0
        invariant
            dec_rest(n as nat) == dec_rest(m as nat) + rev@.reverse(),
        decreases m,
    {
        let d: u8 = 48 + (m % 10) as u8;
        proof {
            let ghost prev = rev@;
            assert(prev.push(d).reverse() =~= seq![d] + prev.reverse());
            assert(dec_rest(m as nat) == dec_rest((m / 10) as nat) + seq![d]);
            assert(dec_rest((m / 10) as nat) + seq![d] + prev.reverse() =~= dec_rest(
                (m / 10) as nat,
            ) + (seq![d] + prev.reverse()));
        }
        rev.push(d);
        m = m / 10;
    }
    proof {
        assert(dec_rest(0) + rev@.reverse() =~= rev@.reverse());
        lemma_dec_rest_positive(n as nat);
    }
    let mut out: Vec<u8> = Vec::new();
    let mut i: usize = rev.len();
    while i > 0
        invariant
            i <= rev@.len(),
            out@ =~= rev@.skip(i as int).reverse(),
        decreases i,
    {
        i = i - 1;
        out.push(rev[i]);
        proof {
            assert(rev@.skip(i as int).reverse() =~= rev@.skip(i + 1).reverse().push(rev@[i as int]));
        }
    }
    proof {
        assert(rev@.skip(0) =~= rev@);
    }
    out
}

/// Reads a counter back from record text: the number the digits denote, or
/// nothing when the text is empty, holds a non-digit, or denotes a number too
/// large for the counter.
pub fn parse_score(s: &[u8]) -> (r: Option<u32>)
    ensures
        r matches Some(v) ==> s@.len() > 0 && all_digits(s@) && v == dec_value(s@),
        r is None ==> s@.len() == 0 || !all_digits(s@) || dec_value(s@) > u32::MAX,
{
    let n = s.len();
    if n == 0 {
        return None;
    }
    let mut val: u32 = 0;
    let mut i: usize = 0;
    while i < n
        invariant
            i <= n,
            n == s@.len(),
            forall|j: int| 0 <= j < i ==> is_digit(s@[j]),
            val == dec_value(s@.take(i as int)),
        decreases n - i,
    {
        let b = s[i];
        if b < 48 || b > 57 {
            return None;
        }
        let d: u32 = (b - 48) as u32;
        if val > (u32::MAX - d) / 10 {
            proof {
                assert(dec_value(s@.take(i + 1)) == dec_value(s@.take(i as int)) * 10 + d) by {
                    assert(s@.take(i + 1).take(i as int) =~= s@.take(i as int));
                }
                lemma_dec_value_prefix(s@, i + 1);
            }
            return None;
        }
        proof {
            assert(val * 10 + d <= u32::MAX) by {
                assert(val <= (u32::MAX - d) / 10);
                assert(val * 10 <= ((u32::MAX - d) / 10) * 10);
                assert(((u32::MAX - d) / 10) * 10 <= u32::MAX - d);
            }
            assert(dec_value(s@.take(i + 1)) == dec_value(s@.take(i as int)) * 10 + d) by {
                assert(s@.take(i + 1).take(i as int) =~= s@.take(i as int));
            }
        }
        val = val * 10 + d;
        i = i + 1;
    }
    proof {
        assert(s@.take(n as int) =~= s@);
    }
    Some(val)
}

/// Rendering a counter and parsing the text back returns the counter: the
/// record file holds exactly the ASCII decimal text of the number.
pub proof fn lemma_score_text_round_trip(n: u32)
    ensures
        all_digits(dec_digits(n as nat)),
        dec_digits(n as nat).len() > 0,
        dec_value(dec_digits(n as nat)) == n,
{
    lemma_dec_digits_value(n as nat);
}

} // verus!
