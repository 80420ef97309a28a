//! XOR-based erasure coding over byte blocks: pad, split into four equal
//! blocks, compute the parity block, and reconstruct a lost block from the
//! other three and the parity.

use vstd::prelude::*;

verus! {

/// The elementwise XOR of two equally long byte strings.
pub open spec fn xor_zip(a: Seq<u8>, b: Seq<u8>) -> Seq<u8> {
    Seq::new(a.len(), |i: int| a[i] ^ b[i])
}

/// The elementwise XOR of any number of byte strings of length `len`,
/// starting from zeroes.
pub open spec fn xor_all(blocks: Seq<Seq<u8>>, len: int) -> Seq<u8>
    decreases blocks.len(),
{
    if blocks.len() == 0 {
        Seq::new(len as nat, |i: int| 0u8)
    } else {
        xor_zip(xor_all(blocks.drop_last(), len), blocks.last())
    }
}

/// The views of a row of byte blocks.
pub open spec fn block_views(blocks: Seq<Vec<u8>>) -> Seq<Seq<u8>> {
    blocks.map_values(|b: Vec<u8>| b@)
}

/// Pad with zero bytes up to the next multiple of four.
pub fn pad_string(input: &Vec<u8>) -> (out: Vec<u8>)
    requires
        input@.len() + 3 <= usize::MAX,
    ensures
        out@ == input@ + Seq::new(((4 - input@.len() % 4) % 4) as nat, |i: int| 0u8),
        out@.len() % 4 == 0,
        out@.len() <= input@.len() + 3,
{
    let padding_needed = (4 - (input.len() % 4)) % 4;
    let mut padded: Vec<u8> = Vec::new();
    let mut i: usize = 0;
    while i < input.len()
        invariant
            i <= input@.len(),
            padded@ == input@.take(i as int),
        decreases input@.len() - i,
    {
        padded.push(input[i]);
        proof {
            assert(input@.take(i as int).push(input@[i as int]) =~= input@.take(i as int + 1));
        }
        i = i + 1;
    }
    proof {
        assert(input@.take(input@.len() as int) =~= input@);
    }
    let mut j: usize = 0;
    while j < padding_needed
        invariant
            j <= padding_needed,
            padding_needed == (4 - (input@.len() % 4)) % 4,
            padded@ == input@ + Seq::new(j as nat, |k: int| 0u8),
        decreases padding_needed - j,
    {
        padded.push(0);
        proof {
            assert((input@ + Seq::new(j as nat, |k: int| 0u8)).push(0u8) =~= input@ + Seq::new(
                j as nat + 1,
                |k: int| 0u8,
            ));
        }
        j = j + 1;
    }
    padded
}

/// Copy the byte range `[a, b)`.
fn take_range(v: &Vec<u8>, a: usize, b: usize) -> (out: Vec<u8>)
    requires
        a <= b <= v@.len(),
    ensures
        out@ == v@.subrange(a as int, b as int),
{
    let mut out: Vec<u8> = Vec::new();
    let mut i = a;
    while i < b
        invariant
            a <= i <= b <= v@.len(),
            out@ == v@.subrange(a as int, i as int),
        decreases b - i,
    {
        out.push(v[i]);
        proof {
            assert(v@.subrange(a as int, i as int).push(v@[i as int]) =~= v@.subrange(
                a as int,
                i as int + 1,
            ));
        }
        i = i + 1;
    }
    out
}

/// Split a padded buffer into four equal blocks.
pub fn split_into_blocks(input: &Vec<u8>) -> (blocks: Vec<Vec<u8>>)
    requires
        input@.len() % 4 == 0,
        input@.len() > 0,
    ensures
        blocks@.len() == 4,
        forall|k: int|
            0 <= k < 4 ==> (#[trigger] blocks@[k])@ == input@.subrange(
                k * (input@.len() as int / 4),
                (k + 1) * (input@.len() as int / 4),
            ),
{
    let block_size = input.len() / 4;
    proof {
        vstd::arithmetic::div_mod::lemma_fundamental_div_mod(input@.len() as int, 4);
        assert(4 * (block_size as int) == input@.len());
    }
    let mut blocks: Vec<Vec<u8>> = Vec::new();
    blocks.push(take_range(input, 0, block_size));
    blocks.push(take_range(input, block_size, 2 * block_size));
    blocks.push(take_range(input, 2 * block_size, 3 * block_size));
    blocks.push(take_range(input, 3 * block_size, 4 * block_size));
    proof {
        let bs = input@.len() as int / 4;
        assert(blocks@[0]@ == input@.subrange(0 * bs, 1 * bs));
        assert(blocks@[1]@ == input@.subrange(1 * bs, 2 * bs));
        assert(blocks@[2]@ == input@.subrange(2 * bs, 3 * bs));
        assert(blocks@[3]@ == input@.subrange(3 * bs, 4 * bs));
    }
    blocks
}

/// The parity block: the XOR of all blocks.
pub fn calculate_ec_block(blocks: &[Vec<u8>]) -> (out: Vec<u8>)
    requires
        blocks@.len() > 0,
        forall|k: int| 0 <= k < blocks@.len() ==> (#[trigger] blocks@[k])@.len() == blocks@[0]@.len(),
    ensures
        out@ == xor_all(block_views(blocks@), blocks@[0]@.len() as int),
{
    let block_size = blocks[0].len();
    let ghost len = block_size as int;
    let mut ec_block: Vec<u8> = vec![0u8; block_size];
    proof {
        assert(block_views(blocks@).take(0) =~= Seq::<Seq<u8>>::empty());
        assert(ec_block@ =~= xor_all(block_views(blocks@).take(0), len));
    }
    let mut k: usize = 0;
    while k < blocks.len()
        invariant
            k <= blocks@.len(),
            forall|t: int|
                0 <= t < blocks@.len() ==> (#[trigger] blocks@[t])@.len() == blocks@[0]@.len(),
            len == blocks@[0]@.len(),
            ec_block@.len() == len,
            ec_block@ == xor_all(block_views(blocks@).take(k as int), len),
        decreases blocks@.len() - k,
    {
        let ghost before = ec_block@;
        let mut i: usize = 0;
        while i < blocks[k].len()
            invariant
                k < blocks@.len(),
                forall|t: int|
                    0 <= t < blocks@.len() ==> (#[trigger] blocks@[t])@.len() == blocks@[0]@.len(),
                i <= blocks@[k as int]@.len(),
                blocks@[k as int]@.len() == before.len(),
                ec_block@.len() == before.len(),
                forall|t: int|
                    0 <= t < i ==> ec_block@[t] == before[t] ^ (#[trigger] blocks@[k as int]@[t]),
                forall|t: int| i <= t < before.len() ==> ec_block@[t] == before[t],
            decreases blocks@[k as int]@.len() - i,
        {
            let byte = blocks[k][i];
            ec_block[i] = ec_block[i] ^ byte;
            i = i + 1;
        }
        proof {
            assert(ec_block@ =~= xor_zip(before, blocks@[k as int]@));
            assert(block_views(blocks@).take(k as int + 1).drop_last() =~= block_views(
                blocks@,
            ).take(k as int));
            assert(block_views(blocks@).take(k as int + 1).last() == blocks@[k as int]@);
        }
        k = k + 1;
    }
    proof {
        assert(block_views(blocks@).take(blocks@.len() as int) =~= block_views(blocks@));
    }
    ec_block
}

/// Reconstruct the missing block: XOR the surviving blocks, then the
/// parity block.
pub fn reconstruct_block(blocks: &[Vec<u8>], ec_block: &Vec<u8>) -> (out: Vec<u8>)
    requires
        blocks@.len() > 0,
        forall|k: int| 0 <= k < blocks@.len() ==> (#[trigger] blocks@[k])@.len() == blocks@[0]@.len(),
        ec_block@.len() == blocks@[0]@.len(),
    ensures
        out@ == xor_zip(
            xor_all(block_views(blocks@), blocks@[0]@.len() as int),
            ec_block@,
        ),
{
    let partial = calculate_ec_block(blocks);
    proof {
        lemma_xor_all_len(block_views(blocks@), blocks@[0]@.len() as int);
    }
    let ghost before = partial@;
    let mut reconstructed = partial;
    let mut i: usize = 0;
    while i < ec_block.len()
        invariant
            i <= ec_block@.len(),
            ec_block@.len() == before.len(),
            reconstructed@.len() == before.len(),
            forall|t: int| 0 <= t < i ==> reconstructed@[t] == before[t] ^ (#[trigger] ec_block@[t]),
            forall|t: int| i <= t < before.len() ==> reconstructed@[t] == before[t],
        decreases ec_block@.len() - i,
    {
        let byte = ec_block[i];
        reconstructed[i] = reconstructed[i] ^ byte;
        i = i + 1;
    }
    proof {
        assert(reconstructed@ =~= xor_zip(before, ec_block@));
    }
    reconstructed
}

/// Round trip: the parity of four blocks, XORed back over the first three,
/// restores the fourth exactly.
pub proof fn lemma_reconstruct_round_trip(b0: Seq<u8>, b1: Seq<u8>, b2: Seq<u8>, b3: Seq<u8>)
    requires
        b1.len() == b0.len(),
        b2.len() == b0.len(),
        b3.len() == b0.len(),
    ensures
        xor_zip(
            xor_all(seq![b0, b1, b2], b0.len() as int),
            xor_all(seq![b0, b1, b2, b3], b0.len() as int),
        ) == b3,
{
    let len = b0.len() as int;
    let three = seq![b0, b1, b2];
    let four = seq![b0, b1, b2, b3];
    assert(four.drop_last() =~= three);
    assert(four.last() == b3);
    let x = xor_all(three, len);
    assert(xor_all(four, len) == xor_zip(x, b3));
    assert(x.len() == len) by {
        lemma_xor_all_len(three, len);
    }
    assert forall|i: int| 0 <= i < len implies xor_zip(x, xor_zip(x, b3))[i] == b3[i] by {
        let a = x[i];
        let b = b3[i];
        assert(a ^ (a ^ b) == b) by (bit_vector);
    }
    assert(xor_zip(x, xor_all(four, len)) =~= b3);
}

/// Every XOR accumulation over blocks of length `len` has length `len`.
proof fn lemma_xor_all_len(blocks: Seq<Seq<u8>>, len: int)
    requires
        len >= 0,
    ensures
        xor_all(blocks, len).len() == len,
    decreases blocks.len(),
{
    if blocks.len() > 0 {
        lemma_xor_all_len(blocks.drop_last(), len);
    }
}

} // verus!
