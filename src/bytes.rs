use vstd::prelude::*;

verus! {

/// The `width` lowest bytes of `x`, most significant first.
pub open spec fn be_bytes(x: nat, width: nat) -> Seq<u8>
    decreases width,
{
    if width == 0 {
        Seq::empty()
    } else {
        be_bytes(x / 256, (width - 1) as nat).push((x % 256) as u8)
    }
}

/// Fixed-width big-endian encoding of the low `width` bytes of `x`.
pub fn be_bytes_of(x: u128, width: usize) -> (r: Vec<u8>)
    ensures
        r@ == be_bytes(x as nat, width as nat),
    decreases width,
{
    if width == 0 {
        Vec::new()
    } else {
        let mut v = be_bytes_of(x / 256, width - 1);
        v.push((x % 256) as u8);
        v
    }
}

/// The eight big-endian bytes of a `u64`.
pub fn u64_be_bytes(x: u64) -> (r: Vec<u8>)
    ensures
        r@ == be_bytes(x as nat, 8),
        r@.len() == 8,
{
    let r = be_bytes_of(x as u128, 8);
    proof { lemma_be_bytes_len(x as nat, 8); }
    r
}

/// The sixteen big-endian bytes of a `u128`.
pub fn u128_be_bytes(x: u128) -> (r: Vec<u8>)
    ensures
        r@ == be_bytes(x as nat, 16),
        r@.len() == 16,
{
    let r = be_bytes_of(x, 16);
    proof { lemma_be_bytes_len(x as nat, 16); }
    r
}

/// A fixed-width encoding has exactly `width` bytes.
pub proof fn lemma_be_bytes_len(x: nat, width: nat)
    ensures
        be_bytes(x, width).len() == width,
    decreases width,
{
    if width > 0 {
        lemma_be_bytes_len(x / 256, (width - 1) as nat);
    }
}

/// The number that big-endian bytes stand for.
pub open spec fn be_value(s: Seq<u8>) -> nat
    decreases s.len(),
{
    if s.len() == 0 {
        0
    } else {
        be_value(s.drop_last()) * 256 + s.last() as nat
    }
}

pub open spec fn pow256(w: nat) -> nat
    decreases w,
{
    if w == 0 {
        1
    } else {
        256 * pow256((w - 1) as nat)
    }
}

/// A value that fits in `width` bytes is read back from its encoding.
pub proof fn lemma_be_bytes_value(x: nat, width: nat)
    requires
        x < pow256(width),
    ensures
        be_value(be_bytes(x, width)) == x,
    decreases width,
{
    if width > 0 {
        let p = pow256((width - 1) as nat);
        assert(x / 256 < p) by (nonlinear_arith)
            requires
                x < 256 * p,
        ;
        lemma_be_bytes_value(x / 256, (width - 1) as nat);
        assert(be_bytes(x, width).drop_last() =~= be_bytes(x / 256, (width - 1) as nat));
    }
}

/// Fixed-width encodings of values that fit are equal only for equal values.
pub proof fn lemma_be_bytes_injective(x: nat, y: nat, width: nat)
    requires
        x < pow256(width),
        y < pow256(width),
        be_bytes(x, width) == be_bytes(y, width),
    ensures
        x == y,
{
    lemma_be_bytes_value(x, width);
    lemma_be_bytes_value(y, width);
}

} // verus!
