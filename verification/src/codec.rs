use vstd::prelude::*;
use crate::address::Address;

verus! {

/// Value of a byte string read as a big-endian unsigned integer.
pub open spec fn be_val(s: Seq<u8>) -> nat
    decreases s.len(),
{
    if s.len() == 0 {
        0
    } else {
        (be_val(s.drop_last()) * 256 + s.last()) as nat
    }
}

/// 256 to the power k.
pub open spec fn p256(k: nat) -> nat
    decreases k,
{
    if k == 0 {
        1
    } else {
        256 * p256((k - 1) as nat)
    }
}

pub proof fn lemma_p256_mono(j: nat, k: nat)
    requires
        j <= k,
    ensures
        p256(j) <= p256(k),
    decreases k,
{
    if j < k && k > 0 {
        lemma_p256_mono(j, (k - 1) as nat);
        assert(p256(k) == 256 * p256((k - 1) as nat));
    }
}

pub proof fn lemma_be_val_bound(s: Seq<u8>)
    ensures
        be_val(s) < p256(s.len()),
    decreases s.len(),
{
    if s.len() > 0 {
        lemma_be_val_bound(s.drop_last());
    }
}

pub proof fn lemma_p256_8_value()
    ensures
        p256(4) == 0x1_0000_0000,
        p256(7) == 0x100_0000_0000_0000,
        p256(8) == 0x1_0000_0000_0000_0000,
{
    assert(p256(0) == 1);
    assert(p256(1) == 256);
    assert(p256(2) == 0x1_0000);
    assert(p256(3) == 0x100_0000);
    assert(p256(4) == 0x1_0000_0000);
    assert(p256(5) == 0x100_0000_0000);
    assert(p256(6) == 0x1_0000_0000_0000);
    assert(p256(7) == 0x100_0000_0000_0000);
    assert(p256(8) == 0x1_0000_0000_0000_0000);
}

/// Reads `bytes[start..end]` as a big-endian unsigned integer.
pub fn be_u64(bytes: &Vec<u8>, start: usize, end: usize) -> (r: u64)
    requires
        start <= end <= bytes.len(),
        end - start <= 8,
    ensures
        r == be_val(bytes@.subrange(start as int, end as int)),
{
    let mut acc: u64 = 0;
    let mut i: usize = start;
    proof {
        assert(bytes@.subrange(start as int, start as int) =~= Seq::<u8>::empty());
    }
    while i < end
        invariant
            start <= i <= end <= bytes.len(),
            end - start <= 8,
            acc == be_val(bytes@.subrange(start as int, i as int)),
        decreases end - i,
    {
        let b = bytes[i];
        proof {
            let pre = bytes@.subrange(start as int, i as int);
            let post = bytes@.subrange(start as int, i + 1 as int);
            assert(post.drop_last() =~= pre);
            assert(post.last() == bytes@[i as int]);
            lemma_be_val_bound(pre);
            lemma_p256_mono(pre.len(), 7);
            lemma_p256_8_value();
            assert(p256(7) == 0x100_0000_0000_0000) by {
                lemma_p256_8_value();
                assert(p256(8) == 256 * p256(7));
            }
            assert(acc < 0x100_0000_0000_0000);
        }
        acc = acc * 256 + (b as u64);
        i = i + 1;
    }
    acc
}

/// True when the word `w` (32 bytes) carries an unsigned value of
/// `width` bytes: every byte above the value's width is zero.
pub open spec fn uint_fits(w: Seq<u8>, width: nat) -> bool {
    forall|i: int| 0 <= i < 32 - width ==> w[i] == 0
}

/// The unsigned value carried by the 32-byte word `w` at `width` bytes.
pub open spec fn uint_of_word(w: Seq<u8>, width: nat) -> nat {
    be_val(w.subrange(32 - width, 32))
}

/// Decodes the 32-byte word at `off` as an unsigned integer of `width`
/// bytes; `None` when a byte above the width is set.
pub fn word_uint(bytes: &Vec<u8>, off: usize, width: usize) -> (r: Option<u64>)
    requires
        off + 32 <= bytes.len(),
        1 <= width <= 8,
    ensures
        ({
            let w = bytes@.subrange(off as int, off + 32);
            match r {
                Some(v) => uint_fits(w, width as nat) && v == uint_of_word(w, width as nat),
                None => !uint_fits(w, width as nat),
            }
        }),
{
    let ghost w = bytes@.subrange(off as int, off + 32);
    let lead = 32 - width;
    let mut i: usize = 0;
    while i < lead
        invariant
            off + 32 <= bytes.len(),
            1 <= width <= 8,
            lead == 32 - width,
            i <= lead,
            w == bytes@.subrange(off as int, off + 32),
            forall|j: int| 0 <= j < i ==> w[j] == 0,
        decreases lead - i,
    {
        if bytes[off + i] != 0 {
            proof {
                assert(w[i as int] == bytes@[off + i]);
            }
            return None;
        }
        proof {
            assert(w[i as int] == bytes@[off + i]);
        }
        i = i + 1;
    }
    let v = be_u64(bytes, off + lead, off + 32);
    proof {
        assert(bytes@.subrange(off + lead, off + 32) =~= w.subrange(32 - width, 32));
    }
    Some(v)
}

/// True when the word `w` carries a sign-extended two's-complement
/// value of `width` bytes: every byte above the width repeats the sign.
pub open spec fn int_fits(w: Seq<u8>, width: nat) -> bool {
    if w[32 - width] < 128 {
        forall|i: int| 0 <= i < 32 - width ==> w[i] == 0
    } else {
        forall|i: int| 0 <= i < 32 - width ==> w[i] == 255
    }
}

/// The signed value carried by the 32-byte word `w` at `width` bytes,
/// read as two's complement.
pub open spec fn int_of_word(w: Seq<u8>, width: nat) -> int {
    if w[32 - width] < 128 {
        be_val(w.subrange(32 - width, 32)) as int
    } else {
        be_val(w.subrange(32 - width, 32)) - p256(width)
    }
}

/// 256 to the power `k`, executable.
pub fn p256_u64(k: usize) -> (r: u64)
    requires
        k <= 7,
    ensures
        r == p256(k as nat),
{
    let mut r: u64 = 1;
    let mut i: usize = 0;
    while i < k
        invariant
            i <= k <= 7,
            r == p256(i as nat),
        decreases k - i,
    {
        proof {
            lemma_p256_mono(i as nat, 6);
            lemma_p256_8_value();
            assert(p256(8) == 256 * p256(7));
            assert(p256(7) == 256 * p256(6));
        }
        r = r * 256;
        proof {
            assert(p256((i + 1) as nat) == 256 * p256(i as nat));
        }
        i = i + 1;
    }
    r
}

/// Decodes the 32-byte word at `off` as a signed two's-complement
/// integer of `width` bytes; `None` when the leading bytes are not a
/// proper sign extension.
pub fn word_int(bytes: &Vec<u8>, off: usize, width: usize) -> (r: Option<i64>)
    requires
        off + 32 <= bytes.len(),
        1 <= width <= 7,
    ensures
        ({
            let w = bytes@.subrange(off as int, off + 32);
            match r {
                Some(v) => int_fits(w, width as nat) && v == int_of_word(w, width as nat),
                None => !int_fits(w, width as nat),
            }
        }),
{
    let ghost w = bytes@.subrange(off as int, off + 32);
    let lead = 32 - width;
    let negative = bytes[off + lead] >= 128;
    proof {
        assert(w[lead as int] == bytes@[off + lead]);
    }
    let expect: u8 = if negative { 255 } else { 0 };
    let mut i: usize = 0;
    while i < lead
        invariant
            off + 32 <= bytes.len(),
            1 <= width <= 7,
            lead == 32 - width,
            i <= lead,
            w == bytes@.subrange(off as int, off + 32),
            negative == (w[lead as int] >= 128),
            expect == (if negative { 255u8 } else { 0u8 }),
            forall|j: int| 0 <= j < i ==> w[j] == expect,
        decreases lead - i,
    {
        if bytes[off + i] != expect {
            proof {
                assert(w[i as int] == bytes@[off + i]);
            }
            return None;
        }
        proof {
            assert(w[i as int] == bytes@[off + i]);
        }
        i = i + 1;
    }
    let mag = be_u64(bytes, off + lead, off + 32);
    proof {
        assert(bytes@.subrange(off + lead, off + 32) =~= w.subrange(32 - width, 32));
        lemma_be_val_bound(w.subrange(32 - width, 32));
        lemma_p256_mono(width as nat, 7);
        lemma_p256_8_value();
        assert(p256(8) == 256 * p256(7));
    }
    if negative {
        let modulus = p256_u64(width);
        Some((mag as i64) - (modulus as i64))
    } else {
        Some(mag as i64)
    }
}

/// The address carried in the last 20 bytes of the 32-byte word `w`.
pub open spec fn address_of_word(w: Seq<u8>) -> Address {
    Address {
        hi: be_val(w.subrange(12, 20)) as u64,
        mid: be_val(w.subrange(20, 28)) as u64,
        lo: be_val(w.subrange(28, 32)) as u32,
    }
}

/// Decodes the 32-byte word at `off` as an address: its last 20 bytes.
pub fn word_address(bytes: &Vec<u8>, off: usize) -> (r: Address)
    requires
        off + 32 <= bytes.len(),
    ensures
        r == address_of_word(bytes@.subrange(off as int, off + 32)),
{
    let ghost w = bytes@.subrange(off as int, off + 32);
    let hi = be_u64(bytes, off + 12, off + 20);
    let mid = be_u64(bytes, off + 20, off + 28);
    let lo64 = be_u64(bytes, off + 28, off + 32);
    proof {
        assert(bytes@.subrange(off + 12, off + 20) =~= w.subrange(12, 20));
        assert(bytes@.subrange(off + 20, off + 28) =~= w.subrange(20, 28));
        assert(bytes@.subrange(off + 28, off + 32) =~= w.subrange(28, 32));
        lemma_be_val_bound(w.subrange(28, 32));
        assert(p256(4) == 0x1_0000_0000) by {
            lemma_p256_8_value();
        }
    }
    Address { hi, mid, lo: lo64 as u32 }
}

} // verus!
