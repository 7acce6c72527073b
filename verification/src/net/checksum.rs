//! The Internet ones'-complement checksum (RFC 1071).

use vstd::prelude::*;

verus! {

/// Sum of the first `n` big-endian 16-bit words of `d`.
pub open spec fn words_sum(d: Seq<u8>, n: nat) -> nat
    decreases n,
{
    if n == 0 {
        0
    } else {
        (words_sum(d, (n - 1) as nat) + d[2 * (n - 1)] * 256 + d[2 * (n - 1) + 1]) as nat
    }
}

/// The plain sum of `d` read as big-endian 16-bit words, an odd final byte
/// padded with a zero byte.
pub open spec fn ones_sum(d: Seq<u8>) -> nat {
    (words_sum(d, d.len() / 2) + if d.len() % 2 == 1 { d[d.len() - 1] * 256 } else { 0 }) as nat
}

/// End-around-carry folding of a sum into 16 bits.
pub open spec fn fold16(s: nat) -> nat
    decreases s,
{
    if s < 0x1_0000 {
        s
    } else {
        fold16((s % 0x1_0000 + s / 0x1_0000) as nat)
    }
}

/// The checksum of a running sum: the ones' complement of its fold.
pub open spec fn finish(s: nat) -> u16 {
    (0xFFFF - fold16(s)) as u16
}

/// The Internet checksum of `d`.
pub open spec fn internet_checksum(d: Seq<u8>) -> u16 {
    finish(ones_sum(d))
}

pub proof fn lemma_words_sum_bound(d: Seq<u8>, n: nat)
    requires
        2 * n <= d.len(),
    ensures
        words_sum(d, n) <= 65535 * n,
    decreases n,
{
    if n > 0 {
        lemma_words_sum_bound(d, (n - 1) as nat);
    }
}

pub proof fn lemma_fold16_bound(s: nat)
    ensures
        fold16(s) < 0x1_0000,
    decreases s,
{
    if s >= 0x1_0000 {
        lemma_fold16_bound((s % 0x1_0000 + s / 0x1_0000) as nat);
    }
}

/// Adds the bytes of `data` as big-endian words (odd byte padded) to `init`.
pub fn sum_words(data: &[u8], init: u32) -> (r: u32)
    requires
        init + 65535 * (data@.len() / 2) + 255 * 256 < 0x1_0000_0000,
    ensures
        r == init + ones_sum(data@),
{
    let mut sum: u32 = init;
    let mut i: usize = 0;
    while i + 1 < data.len()
        invariant
            i % 2 == 0,
            i <= data@.len(),
            init + 65535 * (data@.len() / 2) + 255 * 256 < 0x1_0000_0000,
            sum == init + words_sum(data@, (i / 2) as nat),
        decreases data@.len() - i,
    {
        proof {
            lemma_words_sum_bound(data@, (i / 2) as nat);
        }
        sum = sum + (data[i] as u32) * 256 + (data[i + 1] as u32);
        i = i + 2;
        assert(((i / 2) - 1) as nat == ((i - 2) / 2) as nat);
    }
    proof {
        lemma_words_sum_bound(data@, (i / 2) as nat);
        assert(i / 2 == data@.len() / 2);
    }
    if i < data.len() {
        sum = sum + (data[i] as u32) * 256;
    }
    sum
}

/// Folds `sum` to 16 bits and complements it.
pub fn fold_complement(sum: u32) -> (r: u16)
    ensures
        r == finish(sum as nat),
{
    let mut s: u32 = sum;
    while s / 0x1_0000 != 0
        invariant
            fold16(s as nat) == fold16(sum as nat),
        decreases s,
    {
        s = s % 0x1_0000 + s / 0x1_0000;
    }
    0xFFFF - (s as u16)
}

/// The Internet checksum of `data`.
pub fn checksum(data: &[u8]) -> (r: u16)
    requires
        data@.len() <= 131070,
    ensures
        r == internet_checksum(data@),
{
    let s = sum_words(data, 0);
    fold_complement(s)
}

} // verus!
