//! Reading a byte range out of cached fixed-size blocks of a file.
//!
//! A file read through the cache is split into blocks of `block_size`
//! bytes.  Each cached block holds the bytes that a positioned read gave,
//! which may be fewer than the block size near the end of the file or after
//! a failed read.  A range within one block is read straight from it; a
//! range across blocks is copied; either way the caller gets every byte of
//! the range, with zeros where a block came up short.
use vstd::prelude::*;

verus! {

/// The first and last block of the bytes `start..end`.
pub fn block_range(start: usize, end: usize, block_size: usize) -> (r: (usize, usize))
    requires
        block_size > 0,
        start < end,
    ensures
        r.0 == (start as int) / (block_size as int),
        r.1 == ((end as int) - 1) / (block_size as int),
        r.0 <= r.1,
{
    proof {
        vstd::arithmetic::div_mod::lemma_div_is_ordered(start as int, (end - 1) as int, block_size as int);
    }
    (start / block_size, (end - 1) / block_size)
}

/// The part `from..to` of a cached block that holds the bytes `start..end`
/// of the file, both within that block: clipped to the bytes the block
/// holds.
pub fn block_slice_bounds(start: usize, end: usize, block_size: usize, filled: usize) -> (r: (usize, usize))
    requires
        block_size > 0,
        start < end,
    ensures
        r.0 == if (filled as int) < (start as int) % (block_size as int) { filled as int } else { (start as int) % (block_size as int) },
        r.1 == if (filled as int) < ((end as int) - 1) % (block_size as int) + 1 { filled as int } else { ((end as int) - 1) % (block_size as int) + 1 },
{
    let s = start % block_size;
    let e = (end - 1) % block_size + 1;
    (if filled < s { filled } else { s }, if filled < e { filled } else { e })
}

/// The byte at offset `p` of the file as the cached blocks give it: the
/// byte at `p % block_size` of block `p / block_size`, where `blocks[k]`
/// holds block `first_block + k`, or zero where that block holds fewer
/// bytes.
pub open spec fn cached_byte(blocks: Seq<Seq<u8>>, first_block: int, block_size: int, p: int) -> u8 {
    let b = p / block_size - first_block;
    let o = p % block_size;
    if 0 <= b < blocks.len() && o < blocks[b].len() { blocks[b][o] } else { 0 }
}

/// Copy the bytes `start..end` of the file out of the cached blocks from
/// block `first_block` on, with zeros where a block holds fewer bytes.
pub fn assemble(blocks: &Vec<Vec<u8>>, first_block: usize, block_size: usize, start: usize, end: usize) -> (r: Vec<u8>)
    requires
        block_size > 0,
        start <= end,
    ensures
        r@.len() == end - start,
        forall|i: int| 0 <= i < r@.len() ==> r@[i] == cached_byte(
            blocks@.map_values(|b: Vec<u8>| b@), first_block as int, block_size as int, start + i),
{
    let ghost views = blocks@.map_values(|b: Vec<u8>| b@);
    let mut out: Vec<u8> = Vec::new();
    let mut p: usize = start;
    while p < end
        invariant
            start <= p <= end,
            block_size > 0,
            out@.len() == p - start,
            views == blocks@.map_values(|b: Vec<u8>| b@),
            forall|i: int| 0 <= i < out@.len() ==> out@[i] == cached_byte(views, first_block as int, block_size as int, start + i),
        decreases end - p,
    {
        let block = p / block_size;
        let offset = p % block_size;
        let byte: u8 = if block >= first_block && block - first_block < blocks.len() {
            let data = &blocks[block - first_block];
            if offset < data.len() { data[offset] } else { 0 }
        } else {
            0
        };
        proof {
            assert(byte == cached_byte(views, first_block as int, block_size as int, p as int));
        }
        out.push(byte);
        p = p + 1;
    }
    out
}

/// The bytes `start..end` of the file, when they lie in one cached block
/// that holds `data`: the block's bytes where it has them, zeros past them.
pub fn single_block_slice(data: &[u8], start: usize, end: usize, block_size: usize) -> (r: Vec<u8>)
    requires
        block_size > 0,
        start < end,
        (start as int) / (block_size as int) == ((end as int) - 1) / (block_size as int),
    ensures
        r@.len() == end - start,
        forall|i: int| 0 <= i < r@.len() ==> r@[i] == ({
            let o = (start as int) % (block_size as int) + i;
            if o < data@.len() { data@[o] } else { 0u8 }
        }),
{
    let from = start % block_size;
    let mut out: Vec<u8> = Vec::new();
    let mut k: usize = 0;
    proof {
        vstd::arithmetic::div_mod::lemma_fundamental_div_mod(start as int, block_size as int);
        vstd::arithmetic::div_mod::lemma_fundamental_div_mod((end - 1) as int, block_size as int);
        vstd::arithmetic::div_mod::lemma_mod_bound((end - 1) as int, block_size as int);
    }
    while k < end - start
        invariant
            k <= end - start,
            from == (start as int) % (block_size as int),
            from + (end - start) <= block_size,
            out@.len() == k,
            forall|i: int| 0 <= i < k ==> out@[i] == ({
                let o = (start as int) % (block_size as int) + i;
                if o < data@.len() { data@[o] } else { 0u8 }
            }),
        decreases end - start - k,
    {
        let o = from + k;
        let b: u8 = if o < data.len() { data[o] } else { 0 };
        out.push(b);
        k = k + 1;
    }
    out
}

} // verus!
