//! Variable-length base-128 integers, most significant group first: every
//! byte carries seven data bits, and all bytes but the last have their high
//! bit set.
use vstd::prelude::*;

verus! {

/// The encoding of `n`; with `more` set, every byte (the last one too) has
/// its continuation bit set, as the leading groups of a longer number do.
pub open spec fn varint_bytes(n: nat, more: bool) -> Seq<u8>
    decreases n,
{
    let last = seq![((n % 128) + if more { 128nat } else { 0nat }) as u8];
    if n >= 128 {
        varint_bytes(n / 128, true) + last
    } else {
        last
    }
}

/// Reads a number that starts at `pos`, having read `acc` so far: the value
/// and the position after its last byte, or `None` when the bytes run out
/// before a byte without continuation bit.
pub open spec fn read_varint(s: Seq<u8>, pos: int, acc: nat) -> Option<(nat, int)>
    decreases s.len() - pos,
{
    if pos < 0 || pos >= s.len() {
        None
    } else {
        let next = acc * 128 + (s[pos] % 128) as nat;
        if s[pos] < 128 {
            Some((next, pos + 1))
        } else {
            read_varint(s, pos + 1, next)
        }
    }
}

pub open spec fn pow128(k: nat) -> nat
    decreases k,
{
    if k == 0 {
        1
    } else {
        128 * pow128((k - 1) as nat)
    }
}

/// Reading never makes the value smaller than what was read before.
pub proof fn lemma_read_grows(s: Seq<u8>, pos: int, acc: nat)
    ensures
        read_varint(s, pos, acc) matches Some((v, e)) ==> v >= acc * 128 && pos < e <= s.len(),
    decreases s.len() - pos,
{
    if 0 <= pos < s.len() && s[pos] >= 128 {
        let next = acc * 128 + (s[pos] % 128) as nat;
        lemma_read_grows(s, pos + 1, next);
        assert(next * 128 >= next);
    }
}

/// A run of leading groups is read through, leaving the rest of the number
/// to the bytes that follow.
proof fn lemma_read_leading(s: Seq<u8>, pos: int, acc: nat, n: nat)
    requires
        0 <= pos,
        pos + varint_bytes(n, true).len() <= s.len(),
        s.subrange(pos, pos + varint_bytes(n, true).len()) == varint_bytes(n, true),
    ensures
        read_varint(s, pos, acc) == read_varint(
            s,
            pos + varint_bytes(n, true).len(),
            acc * pow128(varint_bytes(n, true).len()) + n,
        ),
    decreases n,
{
    let g = varint_bytes(n, true);
    if n >= 128 {
        let g1 = varint_bytes(n / 128, true);
        assert(g == g1 + seq![((n % 128) + 128nat) as u8]);
        assert(s.subrange(pos, pos + g1.len()) == g1) by {
            assert(s.subrange(pos, pos + g1.len()) =~= g.subrange(0, g1.len() as int));
        }
        lemma_read_leading(s, pos, acc, n / 128);
        let p1 = pos + g1.len();
        let a1 = acc * pow128(g1.len()) + n / 128;
        assert(s[p1] == g[g1.len() as int]);
        assert(s[p1] == ((n % 128) + 128nat) as u8);
        assert(s[p1] % 128 == n % 128);
        assert(pow128(g.len()) == 128 * pow128(g1.len()));
        assert(a1 * 128 + n % 128 == acc * pow128(g.len()) + n) by (nonlinear_arith)
            requires
                a1 == acc * pow128(g1.len()) + n / 128,
                pow128(g.len()) == 128 * pow128(g1.len()),
        ;
    } else {
        assert(s[pos] == g[0]);
        assert(pow128(1) == 128) by {
            assert(pow128(0) == 1);
        }
    }
}

/// A number is read back from its encoding, wherever it stands.
pub proof fn lemma_read_varint_bytes(s: Seq<u8>, pos: int, n: nat)
    requires
        0 <= pos,
        pos + varint_bytes(n, false).len() <= s.len(),
        s.subrange(pos, pos + varint_bytes(n, false).len()) == varint_bytes(n, false),
    ensures
        read_varint(s, pos, 0) == Some((n, pos + varint_bytes(n, false).len())),
{
    let g = varint_bytes(n, false);
    if n >= 128 {
        let g1 = varint_bytes(n / 128, true);
        assert(g == g1 + seq![(n % 128) as u8]);
        assert(s.subrange(pos, pos + g1.len()) =~= g.subrange(0, g1.len() as int));
        assert(g.subrange(0, g1.len() as int) =~= g1);
        lemma_read_leading(s, pos, 0, n / 128);
        assert(0 * pow128(g1.len()) == 0);
        let p1 = pos + g1.len();
        assert(s[p1] == g[g1.len() as int]);
    } else {
        assert(s[pos] == g[0]);
    }
}

/// Appends the encoding of `n` to `out`.
pub fn push_varint(out: &mut Vec<u8>, n: u64, more: bool)
    ensures
        final(out)@ == old(out)@ + varint_bytes(n as nat, more),
    decreases n,
{
    if n >= 128 {
        push_varint(out, n / 128, true);
    }
    let low: u8 = (n % 128) as u8;
    let byte: u8 = if more { low + 128 } else { low };
    out.push(byte);
    proof {
        assert(final(out)@ =~= old(out)@ + varint_bytes(n as nat, more));
    }
}

/// Reads a number starting at `start`: `None` when the bytes run out or
/// the value does not fit in 64 bits.
pub fn read_u64_varint(b: &[u8], start: usize) -> (r: Option<(u64, usize)>)
    ensures
        match read_varint(b@, start as int, 0) {
            None => r is None,
            Some((v, e)) => if v <= u64::MAX {
                r == Some((v as u64, e as usize))
            } else {
                r is None
            },
        },
        r matches Some((v, e)) ==> start < e <= b@.len(),
        read_varint(b@, start as int, 0) matches Some((v, e)) ==> start < e <= b@.len(),
{
    proof {
        lemma_read_grows(b@, start as int, 0);
    }
    let mut pos: usize = start;
    let mut acc: u64 = 0;
    if pos >= b.len() {
        return None;
    }
    loop
        invariant
            start <= pos < b@.len(),
            read_varint(b@, start as int, 0) == read_varint(b@, pos as int, acc as nat),
        decreases b@.len() - pos,
    {
        let byte = b[pos];
        // Beyond `u64::MAX >> 7` one more group no longer fits.
        if acc > 0x1ff_ffff_ffff_ffff {
            proof {
                lemma_read_grows(b@, pos as int, acc as nat);
            }
            return None;
        }
        let next: u64 = acc * 128 + (byte % 128) as u64;
        if byte < 128 {
            return Some((next, pos + 1));
        }
        if pos + 1 >= b.len() {
            proof {
                assert(read_varint(b@, pos + 1, next as nat) is None);
            }
            return None;
        }
        pos = pos + 1;
        acc = next;
    }
}

} // verus!
