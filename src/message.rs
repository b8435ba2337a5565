use vstd::prelude::*;
use vstd::utf8::encode_utf8;
use sha2::Digest;
use crate::bytes::{be_bytes, be_value, lemma_be_bytes_injective, pow256, u64_be_bytes, u128_be_bytes};

verus! {

/// Shortest big-endian bytes of a length (empty for zero).
pub open spec fn length_bytes(n: nat) -> Seq<u8>
    decreases n,
{
    if n == 0 {
        Seq::empty()
    } else {
        length_bytes(n / 256).push((n % 256) as u8)
    }
}

/// RLP encoding of one byte string.
pub open spec fn rlp_string(b: Seq<u8>) -> Seq<u8> {
    if b.len() == 1 && b[0] < 0x80 {
        b
    } else if b.len() <= 55 {
        seq![(0x80 + b.len()) as u8] + b
    } else {
        seq![(0xb7 + length_bytes(b.len()).len()) as u8] + length_bytes(b.len()) + b
    }
}

/// The RLP encodings of `items`, one after another.
pub open spec fn rlp_payload(items: Seq<Seq<u8>>) -> Seq<u8>
    decreases items.len(),
{
    if items.len() == 0 {
        Seq::empty()
    } else {
        rlp_payload(items.drop_last()) + rlp_string(items.last())
    }
}

/// RLP encoding of a list whose elements are the byte strings `items`.
pub open spec fn rlp_list(items: Seq<Seq<u8>>) -> Seq<u8> {
    let payload = rlp_payload(items);
    if payload.len() <= 55 {
        seq![(0xc0 + payload.len()) as u8] + payload
    } else {
        seq![(0xf7 + length_bytes(payload.len()).len()) as u8] + length_bytes(payload.len())
            + payload
    }
}

/// The contents of a sequence of byte vectors.
pub open spec fn byte_strings(items: Seq<Vec<u8>>) -> Seq<Seq<u8>> {
    items.map_values(|v: Vec<u8>| v@)
}

/// The SHA-256 digest of a byte sequence.
pub uninterp spec fn sha256_of(msg: Seq<u8>) -> Seq<u8>;

/// Relies on rlp::encode_list over `Vec<u8>` elements: each element is
/// appended as a byte string, then the list header is put in front. The crate
/// writes every length through a `u32`, hence the bounds.
#[verifier::external_body]
fn rlp_encode_list(items: &Vec<Vec<u8>>) -> (r: Vec<u8>)
    requires
        forall|i: int| 0 <= i < items@.len() ==> #[trigger] items@[i]@.len() < 0x1_0000_0000,
        rlp_payload(byte_strings(items@)).len() < 0x1_0000_0000,
    ensures
        r@ == rlp_list(byte_strings(items@)),
{
    rlp::encode_list::<Vec<u8>, Vec<u8>>(items.as_slice()).to_vec()
}

/// Relies on sha2::Sha256::digest: the 32-byte SHA-256 digest of the input.
#[verifier::external_body]
fn sha256(msg: &Vec<u8>) -> (r: Vec<u8>)
    ensures
        r@ == sha256_of(msg@),
        r@.len() == 32,
{
    sha2::Sha256::digest(msg.as_slice()).to_vec()
}

/// The five signed fields, in signing order, as byte strings: integers in
/// fixed-width big-endian form, addresses as their UTF-8 bytes.
pub open spec fn canonical_fields(
    nonce: u64,
    token_address: Seq<char>,
    amount: u128,
    settlement_amount: u128,
    user_address: Seq<char>,
) -> Seq<Seq<u8>> {
    seq![
        be_bytes(nonce as nat, 8),
        encode_utf8(token_address),
        be_bytes(amount as nat, 16),
        be_bytes(settlement_amount as nat, 16),
        encode_utf8(user_address),
    ]
}

/// The canonical byte sequence that is hashed and signed.
pub open spec fn canonical_message(
    nonce: u64,
    token_address: Seq<char>,
    amount: u128,
    settlement_amount: u128,
    user_address: Seq<char>,
) -> Seq<u8> {
    rlp_list(canonical_fields(nonce, token_address, amount, settlement_amount, user_address))
}

/// The digest that binds a signature to one request.
pub open spec fn asset_digest(
    nonce: u64,
    token_address: Seq<char>,
    amount: u128,
    settlement_amount: u128,
    user_address: Seq<char>,
) -> Seq<u8> {
    sha256_of(canonical_message(nonce, token_address, amount, settlement_amount, user_address))
}

/// The two addresses are short enough for every length in the encoding to
/// fit the encoder's 32-bit length fields.
pub open spec fn addresses_fit(token_address: Seq<char>, user_address: Seq<char>) -> bool {
    encode_utf8(token_address).len() + encode_utf8(user_address).len() <= 0xffff_0000
}

proof fn lemma_length_bytes_len(n: nat)
    requires
        n < 0x1_0000_0000,
    ensures
        length_bytes(n).len() <= 4,
{
    assert(length_bytes(n / 256 / 256 / 256 / 256) == Seq::<u8>::empty());
    assert(length_bytes(n / 256 / 256 / 256).len() <= 1);
    assert(length_bytes(n / 256 / 256).len() <= 2);
    assert(length_bytes(n / 256).len() <= 3);
}

proof fn lemma_rlp_string_len(b: Seq<u8>)
    requires
        b.len() < 0x1_0000_0000,
    ensures
        rlp_string(b).len() <= b.len() + 5,
{
    lemma_length_bytes_len(b.len());
}

/// Hashes the canonical encoding of the five signed fields.
pub fn canonicalize(
    nonce: u64,
    token_address: &String,
    amount: u128,
    settlement_amount: u128,
    user_address: &String,
) -> (r: Vec<u8>)
    requires
        addresses_fit(token_address@, user_address@),
    ensures
        r@ == asset_digest(nonce, token_address@, amount, settlement_amount, user_address@),
        r@.len() == 32,
{
    let mut items: Vec<Vec<u8>> = Vec::new();
    items.push(u64_be_bytes(nonce));
    items.push(token_address.as_str().as_bytes_vec());
    items.push(u128_be_bytes(amount));
    items.push(u128_be_bytes(settlement_amount));
    items.push(user_address.as_str().as_bytes_vec());
    let ghost fields = canonical_fields(
        nonce,
        token_address@,
        amount,
        settlement_amount,
        user_address@,
    );
    proof {
        assert(byte_strings(items@) =~= fields);
        assert(fields.drop_last().drop_last().drop_last().drop_last().drop_last()
            =~= Seq::<Seq<u8>>::empty());
        assert(fields.drop_last().drop_last().drop_last().drop_last() =~= seq![fields[0]]);
        assert(fields.drop_last().drop_last().drop_last() =~= seq![fields[0], fields[1]]);
        assert(fields.drop_last().drop_last() =~= seq![fields[0], fields[1], fields[2]]);
        assert(fields.drop_last() =~= seq![fields[0], fields[1], fields[2], fields[3]]);
        lemma_rlp_string_len(fields[0]);
        lemma_rlp_string_len(fields[1]);
        lemma_rlp_string_len(fields[2]);
        lemma_rlp_string_len(fields[3]);
        lemma_rlp_string_len(fields[4]);
        reveal_with_fuel(rlp_payload, 6);
    }
    let message = rlp_encode_list(&items);
    sha256(&message)
}

proof fn lemma_length_bytes_value(n: nat)
    ensures
        be_value(length_bytes(n)) == n,
        n > 0 ==> length_bytes(n).len() >= 1,
    decreases n,
{
    if n > 0 {
        lemma_length_bytes_value(n / 256);
        assert(length_bytes(n).drop_last() =~= length_bytes(n / 256));
    }
}

/// Where an item's encoding starts its contents.
spec fn contents_start(b: Seq<u8>) -> int {
    if b.len() == 1 && b[0] < 0x80 {
        0
    } else if b.len() <= 55 {
        1
    } else {
        1 + length_bytes(b.len()).len() as int
    }
}

proof fn lemma_rlp_string_shape(b: Seq<u8>)
    requires
        b.len() < 0x1_0000_0000,
    ensures
        rlp_string(b).len() == contents_start(b) + b.len(),
        rlp_string(b).subrange(contents_start(b), rlp_string(b).len() as int) == b,
        b.len() == 1 && b[0] < 0x80 ==> rlp_string(b)[0] < 0x80,
        !(b.len() == 1 && b[0] < 0x80) && b.len() <= 55 ==> 0x80 <= rlp_string(b)[0] <= 0xb7
            && rlp_string(b)[0] == 0x80 + b.len(),
        b.len() > 55 ==> 0xb8 <= rlp_string(b)[0] <= 0xbb && rlp_string(b)[0] == 0xb7
            + length_bytes(b.len()).len() && rlp_string(b).subrange(1, contents_start(b))
            == length_bytes(b.len()),
{
    lemma_length_bytes_len(b.len());
    lemma_length_bytes_value(b.len());
    let e = rlp_string(b);
    assert(e.subrange(contents_start(b), e.len() as int) =~= b);
    if b.len() > 55 {
        assert(e.subrange(1, contents_start(b)) =~= length_bytes(b.len()));
    }
}

/// An item's encoding tells where it ends: two streams that start with the
/// encodings of `a` and `b` and are equal have `a == b` and equal rests.
proof fn lemma_rlp_string_prefix(a: Seq<u8>, x: Seq<u8>, b: Seq<u8>, y: Seq<u8>)
    requires
        a.len() < 0x1_0000_0000,
        b.len() < 0x1_0000_0000,
        rlp_string(a) + x == rlp_string(b) + y,
    ensures
        a == b,
        x == y,
{
    lemma_rlp_string_shape(a);
    lemma_rlp_string_shape(b);
    let ea = rlp_string(a);
    let eb = rlp_string(b);
    let m = ea + x;
    assert(m[0] == ea[0]);
    assert(m[0] == eb[0]);
    let sa = contents_start(a);
    let sb = contents_start(b);
    if a.len() > 55 {
        assert(b.len() > 55);
        assert(ea.subrange(1, sa) =~= m.subrange(1, sa));
        assert(eb.subrange(1, sb) =~= m.subrange(1, sb));
        lemma_length_bytes_value(a.len());
        lemma_length_bytes_value(b.len());
    }
    assert(sa == sb && a.len() == b.len());
    assert(ea.subrange(sa, ea.len() as int) =~= m.subrange(sa, sa + a.len()));
    assert(eb.subrange(sb, eb.len() as int) =~= m.subrange(sb, sb + b.len()));
    assert(a == b);
    assert(x =~= m.subrange(ea.len() as int, m.len() as int));
    assert(y =~= m.subrange(eb.len() as int, m.len() as int));
}

/// The payload read from the front: the first item's encoding, then the rest.
proof fn lemma_payload_front(f: Seq<Seq<u8>>)
    requires
        f.len() > 0,
    ensures
        rlp_payload(f) == rlp_string(f[0]) + rlp_payload(f.drop_first()),
    decreases f.len(),
{
    if f.len() == 1 {
        assert(f.drop_last() =~= Seq::<Seq<u8>>::empty());
        assert(f.drop_first() =~= Seq::<Seq<u8>>::empty());
        assert(rlp_payload(f) =~= rlp_string(f[0]) + rlp_payload(f.drop_first()));
    } else {
        lemma_payload_front(f.drop_last());
        assert(f.drop_first().drop_last() =~= f.drop_last().drop_first());
        assert(rlp_payload(f) =~= rlp_string(f[0]) + rlp_payload(f.drop_first()));
    }
}

/// Payloads of equally many items, each short enough, are equal only for
/// equal items.
proof fn lemma_payload_injective(f: Seq<Seq<u8>>, g: Seq<Seq<u8>>)
    requires
        f.len() == g.len(),
        forall|i: int| 0 <= i < f.len() ==> (#[trigger] f[i]).len() < 0x1_0000_0000,
        forall|i: int| 0 <= i < g.len() ==> (#[trigger] g[i]).len() < 0x1_0000_0000,
        rlp_payload(f) == rlp_payload(g),
    ensures
        f == g,
    decreases f.len(),
{
    if f.len() > 0 {
        lemma_payload_front(f);
        lemma_payload_front(g);
        lemma_rlp_string_prefix(f[0], rlp_payload(f.drop_first()), g[0], rlp_payload(g.drop_first()));
        lemma_payload_injective(f.drop_first(), g.drop_first());
        assert(f =~= seq![f[0]] + f.drop_first());
        assert(g =~= seq![g[0]] + g.drop_first());
    } else {
        assert(f =~= g);
    }
}

/// A list encoding gives back its payload, as long as the payload's length
/// fits in 32 bits.
proof fn lemma_rlp_list_payload(f: Seq<Seq<u8>>, g: Seq<Seq<u8>>)
    requires
        rlp_payload(f).len() < 0x1_0000_0000,
        rlp_payload(g).len() < 0x1_0000_0000,
        rlp_list(f) == rlp_list(g),
    ensures
        rlp_payload(f) == rlp_payload(g),
{
    let pf = rlp_payload(f);
    let pg = rlp_payload(g);
    lemma_length_bytes_len(pf.len());
    lemma_length_bytes_len(pg.len());
    lemma_length_bytes_value(pf.len());
    lemma_length_bytes_value(pg.len());
    let m = rlp_list(f);
    let kf: int = if pf.len() <= 55 { 0 } else { length_bytes(pf.len()).len() as int };
    let kg: int = if pg.len() <= 55 { 0 } else { length_bytes(pg.len()).len() as int };
    assert(m.len() == 1 + kf + pf.len());
    assert(m.len() == 1 + kg + pg.len());
    if pf.len() <= 55 {
        assert(m[0] == 0xc0 + pf.len());
    } else {
        assert(m[0] == 0xf7 + kf);
    }
    if pg.len() <= 55 {
        assert(m[0] == 0xc0 + pg.len());
    } else {
        assert(m[0] == 0xf7 + kg);
    }
    assert(kf == kg);
    assert(pf =~= m.subrange(1 + kf, m.len() as int));
    assert(pg =~= m.subrange(1 + kg, m.len() as int));
}

/// The canonical encoding is injective: requests that differ in any field
/// (nonce, token, amount, settlement amount or user, field order included)
/// are hashed from different byte sequences.
pub proof fn lemma_canonical_message_injective(
    nonce: u64,
    token_address: Seq<char>,
    amount: u128,
    settlement_amount: u128,
    user_address: Seq<char>,
    other_nonce: u64,
    other_token_address: Seq<char>,
    other_amount: u128,
    other_settlement_amount: u128,
    other_user_address: Seq<char>,
)
    requires
        addresses_fit(token_address, user_address),
        addresses_fit(other_token_address, other_user_address),
        canonical_message(nonce, token_address, amount, settlement_amount, user_address)
            == canonical_message(
            other_nonce,
            other_token_address,
            other_amount,
            other_settlement_amount,
            other_user_address,
        ),
    ensures
        nonce == other_nonce,
        token_address == other_token_address,
        amount == other_amount,
        settlement_amount == other_settlement_amount,
        user_address == other_user_address,
{
    let f = canonical_fields(nonce, token_address, amount, settlement_amount, user_address);
    let g = canonical_fields(
        other_nonce,
        other_token_address,
        other_amount,
        other_settlement_amount,
        other_user_address,
    );
    crate::bytes::lemma_be_bytes_len(nonce as nat, 8);
    crate::bytes::lemma_be_bytes_len(amount as nat, 16);
    crate::bytes::lemma_be_bytes_len(settlement_amount as nat, 16);
    crate::bytes::lemma_be_bytes_len(other_nonce as nat, 8);
    crate::bytes::lemma_be_bytes_len(other_amount as nat, 16);
    crate::bytes::lemma_be_bytes_len(other_settlement_amount as nat, 16);
    reveal_with_fuel(rlp_payload, 6);
    lemma_rlp_string_len(f[0]);
    lemma_rlp_string_len(f[1]);
    lemma_rlp_string_len(f[2]);
    lemma_rlp_string_len(f[3]);
    lemma_rlp_string_len(f[4]);
    lemma_rlp_string_len(g[0]);
    lemma_rlp_string_len(g[1]);
    lemma_rlp_string_len(g[2]);
    lemma_rlp_string_len(g[3]);
    lemma_rlp_string_len(g[4]);
    assert(f.drop_last().drop_last().drop_last().drop_last() =~= seq![f[0]]);
    assert(f.drop_last().drop_last().drop_last() =~= seq![f[0], f[1]]);
    assert(f.drop_last().drop_last() =~= seq![f[0], f[1], f[2]]);
    assert(f.drop_last() =~= seq![f[0], f[1], f[2], f[3]]);
    assert(g.drop_last().drop_last().drop_last().drop_last() =~= seq![g[0]]);
    assert(g.drop_last().drop_last().drop_last() =~= seq![g[0], g[1]]);
    assert(g.drop_last().drop_last() =~= seq![g[0], g[1], g[2]]);
    assert(g.drop_last() =~= seq![g[0], g[1], g[2], g[3]]);
    lemma_rlp_list_payload(f, g);
    lemma_payload_injective(f, g);
    assert(f[0] == g[0] && f[1] == g[1] && f[2] == g[2] && f[3] == g[3] && f[4] == g[4]);
    reveal_with_fuel(pow256, 17);
    lemma_be_bytes_injective(nonce as nat, other_nonce as nat, 8);
    lemma_be_bytes_injective(amount as nat, other_amount as nat, 16);
    lemma_be_bytes_injective(settlement_amount as nat, other_settlement_amount as nat, 16);
    vstd::utf8::encode_utf8_decode_utf8(token_address);
    vstd::utf8::encode_utf8_decode_utf8(other_token_address);
    vstd::utf8::encode_utf8_decode_utf8(user_address);
    vstd::utf8::encode_utf8_decode_utf8(other_user_address);
}

/// Two digests of the same five fields are identical.
pub proof fn lemma_digest_is_deterministic(
    nonce: u64,
    token_address: Seq<char>,
    amount: u128,
    settlement_amount: u128,
    user_address: Seq<char>,
    first: Seq<u8>,
    second: Seq<u8>,
)
    requires
        first == asset_digest(nonce, token_address, amount, settlement_amount, user_address),
        second == asset_digest(nonce, token_address, amount, settlement_amount, user_address),
    ensures
        first == second,
{
}

} // verus!
