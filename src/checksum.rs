use vstd::prelude::*;

verus! {

/// Sum of the big-endian 16 bit words of `s`; an odd last octet is padded
/// with a zero octet.
pub open spec fn word_sum(s: Seq<u8>) -> nat
    decreases s.len(),
{
    if s.len() == 0 {
        0
    } else if s.len() == 1 {
        s[0] as nat * 256
    } else {
        (s[0] as nat * 256 + s[1] as nat) + word_sum(s.subrange(2, s.len() as int))
    }
}

/// Folds the carries of a sum back into the low 16 bits (one's complement addition).
pub open spec fn fold16(x: nat) -> nat
    decreases x,
{
    if x <= 0xffff {
        x
    } else {
        fold16(x % 65536 + x / 65536)
    }
}

/// The Internet checksum of `s`: the inverted one's complement sum of its words.
pub open spec fn internet_checksum(s: Seq<u8>) -> u16 {
    (0xffff - fold16(word_sum(s))) as u16
}

pub proof fn lemma_fold16_bound(x: nat)
    ensures
        fold16(x) <= 0xffff,
    decreases x,
{
    if x > 0xffff {
        lemma_fold16_bound(x % 65536 + x / 65536);
    }
}

/// The word sum of a concatenation whose first part has an even length is
/// the sum of the parts' word sums.
pub proof fn lemma_word_sum_concat(a: Seq<u8>, b: Seq<u8>)
    requires
        a.len() % 2 == 0,
    ensures
        word_sum(a + b) == word_sum(a) + word_sum(b),
    decreases a.len(),
{
    if a.len() == 0 {
        assert(a + b =~= b);
    } else {
        let rest = a.subrange(2, a.len() as int);
        lemma_word_sum_concat(rest, b);
        assert((a + b).subrange(2, (a + b).len() as int) =~= rest + b);
    }
}

pub proof fn lemma_word_sum_bound(s: Seq<u8>)
    ensures
        word_sum(s) <= s.len() * 65535,
    decreases s.len(),
{
    if s.len() >= 2 {
        lemma_word_sum_bound(s.subrange(2, s.len() as int));
    }
}

/// Adds the words of `s` to the running sum `acc`.
pub fn add_words(acc: u64, s: &[u8]) -> (r: u64)
    requires
        acc as int + s@.len() * 65535 <= u64::MAX,
    ensures
        r == acc + word_sum(s@),
{
    let mut sum: u64 = acc;
    let mut i: usize = 0;
    let n = s.len();
    proof {
        lemma_word_sum_bound(s@);
        assert(s@.subrange(0, n as int) =~= s@);
    }
    while i < n
        invariant
            n == s@.len(),
            i <= n,
            sum + word_sum(s@.subrange(i as int, n as int)) == acc + word_sum(s@),
            sum + (n - i) * 65535 <= u64::MAX,
        decreases n - i,
    {
        let ghost rest = s@.subrange(i as int, n as int);
        if i + 1 < n {
            assert(rest.subrange(2, rest.len() as int) =~= s@.subrange(i + 2, n as int));
            sum = sum + (s[i] as u64) * 256 + (s[i + 1] as u64);
            i = i + 2;
        } else {
            assert(s@.subrange(n as int, n as int).len() == 0);
            sum = sum + (s[i] as u64) * 256;
            i = i + 1;
        }
    }
    sum
}

/// Folds the sum and returns its inverted one's complement.
pub fn finish_checksum(sum: u64) -> (r: u16)
    ensures
        r == (0xffff - fold16(sum as nat)) as u16,
{
    let mut s: u64 = sum;
    while s > 0xffff
        invariant
            fold16(s as nat) == fold16(sum as nat),
        decreases s,
    {
        s = (s % 65536) + (s / 65536);
    }
    proof {
        lemma_fold16_bound(sum as nat);
    }
    0xffff - (s as u16)
}

/// Weight of the octet at index `j` in its big-endian word.
pub open spec fn octet_weight(j: int) -> int {
    if j % 2 == 0 {
        256
    } else {
        1
    }
}

/// Replacing one octet changes the word sum by the difference times the
/// octet's weight.
pub proof fn lemma_word_sum_update(s: Seq<u8>, j: int, v: u8)
    requires
        0 <= j < s.len(),
    ensures
        word_sum(s.update(j, v)) + s[j] * octet_weight(j) == word_sum(s) + v * octet_weight(j),
    decreases s.len(),
{
    let u = s.update(j, v);
    if s.len() == 1 {
    } else if j < 2 {
        assert(u.subrange(2, u.len() as int) =~= s.subrange(2, s.len() as int));
    } else {
        let r = s.subrange(2, s.len() as int);
        lemma_word_sum_update(r, j - 2, v);
        assert(u.subrange(2, u.len() as int) =~= r.update(j - 2, v));
        assert(octet_weight(j - 2) == octet_weight(j));
    }
}

/// A positive sum folds to a value in 1..=0xffff that is congruent to it
/// modulo 0xffff.
pub proof fn lemma_fold16_mod(x: nat)
    requires
        x > 0,
    ensures
        1 <= fold16(x) <= 0xffff,
        fold16(x) % 65535 == x % 65535,
    decreases x,
{
    if x > 0xffff {
        let y = x % 65536 + x / 65536;
        assert(y % 65535 == x % 65535 && y > 0 && y < x) by (nonlinear_arith)
            requires
                y == x % 65536 + x / 65536,
                x > 0xffff,
        {
            let q = x / 65536;
            let r = x % 65536;
            assert(x == q * 65536 + r);
            assert(x == q * 65535 + (q + r));
            assert((q * 65535 + (q + r)) % 65535 == (q + r) % 65535) by {
                vstd::arithmetic::div_mod::lemma_mod_multiples_vanish(q as int, (q + r) as int, 65535);
            }
        }
        lemma_fold16_mod(y);
    }
}

} // verus!
