//! A small xorshift generator that stands in for a hardware source of
//! randomness. It is not fit for cryptography.

use vstd::prelude::*;

verus! {

/// The seed that the generator starts from, and falls back to from zero.
pub const DEFAULT_SEED: u64 = 0xCAFEBABE;

/// The state after `seed`, which is also the number that the generator
/// gives out: three shifts, each folded in with XOR; a zero seed counts as
/// `DEFAULT_SEED`, since zero would stay zero.
pub open spec fn xorshift(seed: u64) -> u64 {
    let x0 = if seed == 0 {
        DEFAULT_SEED
    } else {
        seed
    };
    let x1 = x0 ^ (x0 << 13);
    let x2 = x1 ^ (x1 >> 7);
    x2 ^ (x2 << 17)
}

/// The `n` low bytes of `x`, least significant first.
pub open spec fn low_bytes(x: u64, n: nat) -> Seq<u8>
    decreases n,
{
    if n == 0 {
        Seq::empty()
    } else {
        seq![(x % 256) as u8] + low_bytes(x / 256, (n - 1) as nat)
    }
}

/// The number of bytes that the next number contributes to a fill of `n`
/// bytes: eight, or all that is left.
pub open spec fn chunk_len(n: nat) -> nat {
    if n < 8 {
        n
    } else {
        8
    }
}

/// The `n` bytes that a generator in state `seed` fills a buffer with: the
/// bytes of one number after the other, each least significant byte first,
/// the last number cut short where the buffer ends.
pub open spec fn random_bytes(seed: u64, n: nat) -> Seq<u8>
    decreases n,
{
    if n == 0 {
        Seq::empty()
    } else {
        low_bytes(xorshift(seed), chunk_len(n)) + random_bytes(
            xorshift(seed),
            (n - chunk_len(n)) as nat,
        )
    }
}

/// The state of a generator that started in state `seed` and filled `n`
/// bytes.
pub open spec fn seed_after(seed: u64, n: nat) -> u64
    decreases n,
{
    if n == 0 {
        seed
    } else {
        seed_after(xorshift(seed), (n - chunk_len(n)) as nat)
    }
}

/// Steps the generator and returns its next number.
pub fn next_u64(seed: &mut u64) -> (x: u64)
    ensures
        x == xorshift(*old(seed)),
        *final(seed) == x,
{
    let mut x = *seed;
    if x == 0 {
        x = DEFAULT_SEED;
    }
    x ^= x << 13;
    x ^= x >> 7;
    x ^= x << 17;
    *seed = x;
    x
}

/// Fills `buf` with the generator's output and steps the generator once
/// for every eight bytes or part of them. It never fails.
pub fn custom_getrandom(seed: &mut u64, buf: &mut [u8]) -> (filled: Result<(), getrandom::Error>)
    ensures
        filled is Ok,
        final(buf)@ == random_bytes(*old(seed), old(buf)@.len()),
        *final(seed) == seed_after(*old(seed), old(buf)@.len()),
{
    let total = buf.len();
    let mut start: usize = 0;
    while start < total
        invariant
            start <= total,
            total == buf@.len(),
            total == old(buf)@.len(),
            buf@.take(start as int) + random_bytes(*seed, (total - start) as nat) == random_bytes(
                *old(seed),
                total as nat,
            ),
            seed_after(*seed, (total - start) as nat) == seed_after(*old(seed), total as nat),
        decreases total - start,
    {
        let ghost state = *seed;
        let ghost done = buf@.take(start as int);
        let rand = next_u64(seed);
        let len = if total - start < 8 {
            total - start
        } else {
            8
        };
        let mut rest = rand;
        let mut j: usize = 0;
        while j < len
            invariant
                j <= len,
                start + len <= total,
                total == buf@.len(),
                buf@.take(start as int) == done,
                buf@.subrange(start as int, start + j) + low_bytes(rest, (len - j) as nat)
                    == low_bytes(rand, len as nat),
            decreases len - j,
        {
            let ghost before = buf@;
            buf[start + j] = (rest % 256) as u8;
            proof {
                assert(buf@.take(start as int) =~= before.take(start as int));
                assert(buf@.subrange(start as int, start + j + 1) =~= before.subrange(
                    start as int,
                    start + j,
                ) + seq![(rest % 256) as u8]);
                assert(before.subrange(start as int, start + j) + (seq![(rest % 256) as u8]
                    + low_bytes(rest / 256, (len - j - 1) as nat)) =~= before.subrange(
                    start as int,
                    start + j,
                ) + seq![(rest % 256) as u8] + low_bytes(rest / 256, (len - j - 1) as nat));
            }
            rest = rest / 256;
            j += 1;
        }
        proof {
            assert(buf@.subrange(start as int, start + len) + Seq::<u8>::empty()
                =~= buf@.subrange(start as int, start + len));
            assert(buf@.take(start + len) =~= done + buf@.subrange(start as int, start + len));
            assert(done + low_bytes(rand, len as nat) + random_bytes(
                rand,
                (total - start - len) as nat,
            ) =~= done + (low_bytes(rand, len as nat) + random_bytes(
                rand,
                (total - start - len) as nat,
            )));
        }
        start = start + len;
    }
    proof {
        assert(buf@.take(total as int) =~= buf@);
        assert(buf@ + Seq::<u8>::empty() =~= buf@);
    }
    Ok(())
}

} // verus!
