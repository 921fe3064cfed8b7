use vstd::prelude::*;

use crate::format::{checksum_spec, padded_byte, word_at, word_count, word_sum};

verus! {

/// Adding a word to a running sum kept modulo 2^32 with `wrapping_add`
/// gives the true sum modulo 2^32.
proof fn lemma_wrapping_step(s: int, w: int)
    requires
        0 <= w < 0x1_0000_0000,
    ensures
        ({
            let x = s % 0x1_0000_0000;
            let t = if x + w > u32::MAX {
                x + w - 0x1_0000_0000
            } else {
                x + w
            };
            t == (s + w) % 0x1_0000_0000
        }),
{
    let m: int = 0x1_0000_0000;
    vstd::arithmetic::div_mod::lemma_add_mod_noop(s, w, m);
    vstd::arithmetic::div_mod::lemma_mod_bound(s, m);
    vstd::arithmetic::div_mod::lemma_small_mod(w as nat, m as nat);
    let x = s % m;
    if x + w > u32::MAX {
        vstd::arithmetic::div_mod::lemma_mod_sub_multiples_vanish(x + w, m);
        vstd::arithmetic::div_mod::lemma_small_mod((x + w - m) as nat, m as nat);
    } else {
        vstd::arithmetic::div_mod::lemma_small_mod((x + w) as nat, m as nat);
    }
}

/// Byte `i` of `data`, or 0 past its end.
fn padded(data: &[u8], i: usize) -> (res: u8)
    ensures
        res == padded_byte(data@, i as int),
{
    if i < data.len() {
        data[i]
    } else {
        0
    }
}

/// sfnt table checksum: sum of the table's bytes read as big-endian u32
/// words, wrapping, with the final word zero-padded if the length isn't a
/// multiple of four.
pub fn table_checksum(data: &[u8]) -> (res: u32)
    ensures
        res == checksum_spec(data@),
{
    let len = data.len();
    let words = len / 4 + if len % 4 == 0 {
        0
    } else {
        1
    };
    assert(words == word_count(data@.len()));
    let mut sum: u32 = 0;
    let mut k: usize = 0;
    while k < words
        invariant
            len == data@.len(),
            words == word_count(data@.len()),
            k <= words,
            sum == word_sum(data@, k as nat) % 0x1_0000_0000,
        decreases words - k,
    {
        let p = 4 * k;
        let word = padded(data, p) as u32 * 0x100_0000 + padded(data, p + 1) as u32 * 0x1_0000
            + padded(data, p + 2) as u32 * 0x100 + padded(data, p + 3) as u32;
        assert(word == word_at(data@, k as int));
        proof {
            lemma_wrapping_step(word_sum(data@, k as nat), word as int);
        }
        sum = sum.wrapping_add(word);
        k = k + 1;
    }
    sum
}

} // verus!
