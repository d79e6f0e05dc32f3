//! Byte-string groundwork: equality, prefix and suffix tests, and the
//! lexicographic order that ranks the timestamps embedded in record names.

use vstd::prelude::*;

verus! {

/// Strict lexicographic order on byte sequences: `a` comes before `b` when,
/// at the first position where they differ, `a` holds the smaller byte, or
/// when `a` is a proper prefix of `b`.
pub open spec fn lex_lt(a: Seq<u8>, b: Seq<u8>) -> bool
    decreases a.len(),
{
    if b.len() == 0 {
        false
    } else if a.len() == 0 {
        true
    } else if a[0] != b[0] {
        a[0] < b[0]
    } else {
        lex_lt(a.skip(1), b.skip(1))
    }
}

/// The lexicographic order is total: two sequences are ordered one way or the
/// other, or they are equal.
pub proof fn lemma_lex_lt_total(a: Seq<u8>, b: Seq<u8>)
    ensures
        lex_lt(a, b) || lex_lt(b, a) || a == b,
    decreases a.len(),
{
    if a.len() == 0 && b.len() == 0 {
        assert(a =~= b);
    } else if a.len() > 0 && b.len() > 0 && a[0] == b[0] {
        lemma_lex_lt_total(a.skip(1), b.skip(1));
        if !lex_lt(a, b) && !lex_lt(b, a) {
            assert(a.skip(1) == b.skip(1));
            assert forall|i: int| 0 <= i < a.len() implies a[i] == b[i] by {
                if i > 0 {
                    assert(a[i] == a.skip(1)[i - 1]);
                    assert(b[i] == b.skip(1)[i - 1]);
                }
            }
            assert(a =~= b);
        }
    }
}

/// The lexicographic order is irreflexive.
pub proof fn lemma_lex_lt_irrefl(a: Seq<u8>)
    ensures
        !lex_lt(a, a),
    decreases a.len(),
{
    if a.len() > 0 {
        lemma_lex_lt_irrefl(a.skip(1));
    }
}

/// The lexicographic order is transitive.
pub proof fn lemma_lex_lt_trans(a: Seq<u8>, b: Seq<u8>, c: Seq<u8>)
    requires
        lex_lt(a, b),
        lex_lt(b, c),
    ensures
        lex_lt(a, c),
    decreases a.len(),
{
    if a.len() > 0 && b.len() > 0 && c.len() > 0 && a[0] == b[0] && b[0] == c[0] {
        lemma_lex_lt_trans(a.skip(1), b.skip(1), c.skip(1));
    }
}

/// Dropping an equal head byte from both sequences keeps their order.
proof fn lemma_lex_lt_skip_one(a: Seq<u8>, b: Seq<u8>, i: int)
    requires
        0 <= i < a.len(),
        i < b.len(),
        a[i] == b[i],
    ensures
        lex_lt(a.skip(i), b.skip(i)) == lex_lt(a.skip(i + 1), b.skip(i + 1)),
{
    assert(a.skip(i)[0] == a[i]);
    assert(b.skip(i)[0] == b[i]);
    assert(a.skip(i).skip(1) =~= a.skip(i + 1));
    assert(b.skip(i).skip(1) =~= b.skip(i + 1));
}

/// Decides the lexicographic order between two byte strings.
pub fn bytes_lt(a: &[u8], b: &[u8]) -> (r: bool)
    ensures
        r == lex_lt(a@, b@),
{
    let a_len = a.len();
    let b_len = b.len();
    let n = if a_len < b_len { a_len } else { b_len };
    proof {
        assert(a@.skip(0) =~= a@);
        assert(b@.skip(0) =~= b@);
    }
    let mut i: usize = 0;
    while i < n
        invariant
            i <= n,
            n <= a@.len(),
            n <= b@.len(),
            n == if a@.len() < b@.len() { a@.len() } else { b@.len() },
            lex_lt(a@, b@) == lex_lt(a@.skip(i as int), b@.skip(i as int)),
        decreases n - i,
    {
        if a[i] != b[i] {
            proof {
                assert(a@.skip(i as int)[0] == a@[i as int]);
                assert(b@.skip(i as int)[0] == b@[i as int]);
            }
            return a[i] < b[i];
        }
        proof {
            lemma_lex_lt_skip_one(a@, b@, i as int);
        }
        i = i + 1;
    }
    proof {
        assert(a@.skip(i as int).len() == a@.len() - i);
        assert(b@.skip(i as int).len() == b@.len() - i);
    }
    a_len < b_len
}

/// Decides equality of two byte strings.
pub fn bytes_eq(a: &[u8], b: &[u8]) -> (r: bool)
    ensures
        r == (a@ == b@),
{
    if a.len() != b.len() {
        return false;
    }
    let n = a.len();
    let mut i: usize = 0;
    while i < n
        invariant
            i <= n,
            n == a@.len(),
            n == b@.len(),
            forall|j: int| 0 <= j < i ==> a@[j] == b@[j],
        decreases n - i,
    {
        if a[i] != b[i] {
            return false;
        }
        i = i + 1;
    }
    proof {
        assert(a@ =~= b@);
    }
    true
}

/// Decides whether `prefix` opens `s`.
pub fn starts_with(s: &[u8], prefix: &[u8]) -> (r: bool)
    ensures
        r == prefix@.is_prefix_of(s@),
{
    if prefix.len() > s.len() {
        return false;
    }
    let n = prefix.len();
    let mut i: usize = 0;
    while i < n
        invariant
            i <= n,
            n == prefix@.len(),
            n <= s@.len(),
            forall|j: int| 0 <= j < i ==> s@[j] == prefix@[j],
        decreases n - i,
    {
        if s[i] != prefix[i] {
            return false;
        }
        i = i + 1;
    }
    proof {
        assert(prefix@ =~= s@.subrange(0, n as int));
    }
    true
}

/// Decides whether `suffix` closes `s`.
pub fn ends_with(s: &[u8], suffix: &[u8]) -> (r: bool)
    ensures
        r == suffix@.is_suffix_of(s@),
{
    if suffix.len() > s.len() {
        return false;
    }
    let n = suffix.len();
    let off = s.len() - n;
    let mut i: usize = 0;
    while i < n
        invariant
            i <= n,
            n == suffix@.len(),
            off == s@.len() - n,
            s@.len() <= usize::MAX,
            forall|j: int| 0 <= j < i ==> s@[off + j] == suffix@[j],
        decreases n - i,
    {
        if s[off + i] != suffix[i] {
            return false;
        }
        i = i + 1;
    }
    proof {
        assert(suffix@ =~= s@.subrange(s@.len() - n, s@.len() as int));
    }
    true
}

/// Copies the bytes of `s` between positions `a` and `b` into a fresh vector.
pub fn copy_range(s: &[u8], a: usize, b: usize) -> (r: Vec<u8>)
    requires
        a <= b <= s@.len(),
    ensures
        r@ == s@.subrange(a as int, b as int),
{
    let mut out: Vec<u8> = Vec::new();
    let mut i: usize = a;
    while i < b
        invariant
            a <= i <= b <= s@.len(),
            out@ =~= s@.subrange(a as int, i as int),
        decreases b - i,
    {
        out.push(s[i]);
        i = i + 1;
    }
    proof {
        assert(out@ =~= s@.subrange(a as int, b as int));
    }
    out
}

/// Copies a byte string into a fresh vector.
pub fn copy_bytes(s: &[u8]) -> (r: Vec<u8>)
    ensures
        r@ == s@,
{
    let mut out: Vec<u8> = Vec::new();
    let n = s.len();
    let mut i: usize = 0;
    while i < n
        invariant
            i <= n,
            n == s@.len(),
            out@ =~= s@.subrange(0, i as int),
        decreases n - i,
    {
        out.push(s[i]);
        i = i + 1;
    }
    proof {
        assert(out@ =~= s@);
    }
    out
}

} // verus!
