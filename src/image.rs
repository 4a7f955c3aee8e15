//! The bytes of an output file as writes at offsets build it: writing past
//! the end leaves a hole that reads as zeros.
use vstd::prelude::*;
use crate::database::offset_size_of;
use crate::restore::block_offset;

verus! {

pub open spec fn zeros(n: nat) -> Seq<u8> {
    Seq::new(n, |i: int| 0u8)
}

/// `image` extended with zeros up to `len` bytes, if shorter.
pub open spec fn padded(image: Seq<u8>, len: int) -> Seq<u8> {
    if len > image.len() {
        image + zeros((len - image.len()) as nat)
    } else {
        image
    }
}

/// The file after writing `data` at `offset` into a file that held `image`.
pub open spec fn written(image: Seq<u8>, offset: int, data: Seq<u8>) -> Seq<u8> {
    let p = padded(image, offset);
    let end = offset + data.len();
    p.subrange(0, offset) + data + if end < p.len() {
        p.subrange(end, p.len() as int)
    } else {
        Seq::empty()
    }
}

/// Writes `data` at `offset` into `image`, zero-filling any gap past its end.
pub fn write_at(image: &mut Vec<u8>, offset: usize, data: &[u8])
    requires
        offset + data@.len() <= usize::MAX,
    ensures
        final(image)@ == written(old(image)@, offset as int, data@),
{
    let ghost p = padded(old(image)@, offset as int);
    while image.len() < offset
        invariant
            p == padded(old(image)@, offset as int),
            old(image)@.len() <= image@.len() <= p.len(),
            p.len() == if offset > old(image)@.len() { offset as int } else { old(image)@.len() as int },
            forall|t: int| 0 <= t < image@.len() ==> image@[t] == p[t],
        decreases offset - image@.len(),
    {
        assert(p[image@.len() as int] == 0u8);
        image.push(0u8);
    }
    assert(image@ =~= p);
    let n = data.len();
    let mut k: usize = 0;
    while k < n
        invariant
            n == data@.len(),
            offset + n <= usize::MAX,
            k <= n,
            p == padded(old(image)@, offset as int),
            p.len() >= offset,
            image@.len() == if offset + k > p.len() { offset + k } else { p.len() as int },
            forall|t: int|
                0 <= t < image@.len() ==> image@[t] == if offset <= t < offset + k {
                    data@[t - offset]
                } else {
                    p[t]
                },
        decreases n - k,
    {
        if offset + k < image.len() {
            image.set(offset + k, data[k]);
        } else {
            image.push(data[k]);
        }
        k = k + 1;
    }
    assert(image@ =~= written(old(image)@, offset as int, data@));
}

/// The first `n` blocks, one after another.
pub open spec fn concat(blocks: Seq<Seq<u8>>, n: int) -> Seq<u8>
    decreases n,
{
    if n <= 0 {
        Seq::empty()
    } else {
        concat(blocks, n - 1) + blocks[n - 1]
    }
}

/// The file after writing the first `n` blocks, block `k` at `k * block_size`,
/// into a file that held `init`.
pub open spec fn restored(init: Seq<u8>, blocks: Seq<Seq<u8>>, block_size: int, n: int) -> Seq<u8>
    decreases n,
{
    if n <= 0 {
        init
    } else {
        written(restored(init, blocks, block_size, n - 1), (n - 1) * block_size, blocks[n - 1])
    }
}

/// Every block is `block_size` long, but the last, which may be shorter.
pub open spec fn full_but_last(blocks: Seq<Seq<u8>>, block_size: int) -> bool {
    &&& forall|k: int| 0 <= k < blocks.len() - 1 ==> (#[trigger] blocks[k]).len() == block_size
    &&& blocks.len() > 0 ==> blocks[blocks.len() - 1].len() <= block_size
}

proof fn lemma_concat_len(blocks: Seq<Seq<u8>>, block_size: int, n: int)
    requires
        0 <= n < blocks.len(),
        full_but_last(blocks, block_size),
    ensures
        concat(blocks, n).len() == n * block_size,
    decreases n,
{
    if n > 0 {
        lemma_concat_len(blocks, block_size, n - 1);
        assert(blocks[n - 1].len() == block_size);
        assert((n - 1) * block_size + block_size == n * block_size) by (nonlinear_arith);
        assert(concat(blocks, n).len() == concat(blocks, n - 1).len() + blocks[n - 1].len());
    } else {
        assert(0 * block_size == 0);
    }
}

/// Writing the blocks of a file into an empty file, each at its block's
/// offset, gives exactly their concatenation: no zero fill past the last
/// written byte.
pub proof fn lemma_blocks_reassemble(blocks: Seq<Seq<u8>>, block_size: int)
    requires
        block_size > 0,
        full_but_last(blocks, block_size),
    ensures
        restored(Seq::empty(), blocks, block_size, blocks.len() as int) == concat(
            blocks,
            blocks.len() as int,
        ),
{
    lemma_reassemble_prefix(blocks, block_size, blocks.len() as int);
}

proof fn lemma_reassemble_prefix(blocks: Seq<Seq<u8>>, block_size: int, n: int)
    requires
        block_size > 0,
        0 <= n <= blocks.len(),
        full_but_last(blocks, block_size),
    ensures
        restored(Seq::empty(), blocks, block_size, n) == concat(blocks, n),
    decreases n,
{
    if n > 0 {
        lemma_reassemble_prefix(blocks, block_size, n - 1);
        lemma_concat_len(blocks, block_size, n - 1);
        let c = concat(blocks, n - 1);
        assert(padded(c, (n - 1) * block_size) == c);
        assert(written(c, (n - 1) * block_size, blocks[n - 1]) =~= c + blocks[n - 1]);
    }
}

proof fn lemma_concat_prefix(blocks: Seq<Seq<u8>>, m: int, n: int)
    requires
        0 <= m <= n <= blocks.len(),
    ensures
        concat(blocks, n).len() >= concat(blocks, m).len(),
        concat(blocks, n).subrange(0, concat(blocks, m).len() as int) == concat(blocks, m),
    decreases n - m,
{
    if m < n {
        lemma_concat_prefix(blocks, m, n - 1);
        let c = concat(blocks, n - 1);
        assert(concat(blocks, n) == c + blocks[n - 1]);
        assert((c + blocks[n - 1]).subrange(0, concat(blocks, m).len() as int) =~= c.subrange(
            0,
            concat(blocks, m).len() as int,
        ));
    } else {
        assert(concat(blocks, n).subrange(0, concat(blocks, n).len() as int) =~= concat(blocks, n));
    }
}

/// Restoring the blocks again over the bytes a first restore produced, with
/// no truncation in between, leaves those bytes unchanged: a second run
/// gives a byte-identical file.
pub proof fn lemma_restore_idempotent(blocks: Seq<Seq<u8>>, block_size: int)
    requires
        block_size > 0,
        full_but_last(blocks, block_size),
    ensures
        restored(
            restored(Seq::empty(), blocks, block_size, blocks.len() as int),
            blocks,
            block_size,
            blocks.len() as int,
        ) == restored(Seq::empty(), blocks, block_size, blocks.len() as int),
{
    let n = blocks.len() as int;
    lemma_blocks_reassemble(blocks, block_size);
    lemma_rewrite_prefix(blocks, block_size, n, n);
}

proof fn lemma_rewrite_prefix(blocks: Seq<Seq<u8>>, block_size: int, n: int, m: int)
    requires
        block_size > 0,
        n == blocks.len(),
        0 <= m <= n,
        full_but_last(blocks, block_size),
    ensures
        restored(concat(blocks, n), blocks, block_size, m) == concat(blocks, n),
    decreases m,
{
    if m > 0 {
        let c = concat(blocks, n);
        lemma_rewrite_prefix(blocks, block_size, n, m - 1);
        lemma_concat_prefix(blocks, m, n);
        lemma_concat_len(blocks, block_size, m - 1);
        let start = (m - 1) * block_size;
        let b = blocks[m - 1];
        let cm = concat(blocks, m);
        assert(cm == concat(blocks, m - 1) + b);
        assert(cm.len() == start + b.len());
        assert(padded(c, start) == c);
        assert(c.subrange(start, start + b.len()) =~= b) by {
            assert forall|t: int| 0 <= t < b.len() implies c.subrange(start, start + b.len())[t]
                == b[t] by {
                assert(c[start + t] == c.subrange(0, cm.len() as int)[start + t]);
                assert(cm[start + t] == b[t]);
            }
        }
        assert(written(c, start, b) =~= c);
    }
}

/// When every block-list before the `i`-th is full (`block_size / 32`
/// hashes), the `j`-th block of the `i`-th list is block number
/// `i * (block_size / 32) + j` of the file, at that block's offset.
pub proof fn lemma_list_offset_is_block_offset(block_size: int, i: int, j: int)
    requires
        block_size > 0,
    ensures
        block_offset(block_size, i, j) == (i * (block_size / 32) + j) * block_size,
{
    assert(i * ((block_size / 32) * block_size) + j * block_size == (i * (block_size / 32) + j)
        * block_size) by (nonlinear_arith);
}

} // verus!
