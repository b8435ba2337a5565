use vstd::prelude::*;
use vstd::string::StringExecFns;
use crate::conversion::{PriceData, USDF_COEFFICIENT};

verus! {

/// The store key reserved for the nonce counter; every other key names a token.
pub const LAST_NONCE_KEY: &'static str = "last_nonce";

/// One token of the published list of quotes.
#[derive(Clone, Debug)]
pub struct WhitelistEntry {
    pub token: String,
    pub price: String,
    pub coefficient: u128,
    pub decimals: u8,
}

/// Whether a store key names a token (rather than the nonce counter).
pub fn is_token_key(key: &String) -> (r: bool)
    ensures
        r == (key@ != LAST_NONCE_KEY@),
{
    let reserved = String::from_str(LAST_NONCE_KEY);
    !(*key == reserved)
}

/// `keys` without the reserved key, order kept.
pub open spec fn without_reserved(keys: Seq<Seq<char>>) -> Seq<Seq<char>>
    decreases keys.len(),
{
    if keys.len() == 0 {
        keys
    } else if keys.last() == LAST_NONCE_KEY@ {
        without_reserved(keys.drop_last())
    } else {
        without_reserved(keys.drop_last()).push(keys.last())
    }
}

/// The token keys among all store keys, in their order.
pub fn token_keys(keys: &Vec<String>) -> (r: Vec<String>)
    ensures
        r@.map_values(|k: String| k@) == without_reserved(keys@.map_values(|k: String| k@)),
{
    let ghost spec_keys = keys@.map_values(|k: String| k@);
    let mut r: Vec<String> = Vec::new();
    let mut i: usize = 0;
    while i < keys.len()
        invariant
            i <= keys@.len(),
            spec_keys == keys@.map_values(|k: String| k@),
            r@.map_values(|k: String| k@) == without_reserved(spec_keys.subrange(0, i as int)),
        decreases keys@.len() - i,
    {
        let ghost before = r@;
        assert(spec_keys.subrange(0, i + 1).drop_last() =~= spec_keys.subrange(0, i as int));
        if is_token_key(&keys[i]) {
            r.push(keys[i].clone());
            assert(r@.map_values(|k: String| k@) =~= before.map_values(|k: String| k@).push(
                keys@[i as int]@,
            ));
        }
        i = i + 1;
    }
    assert(spec_keys.subrange(0, keys@.len() as int) =~= spec_keys);
    r
}

/// The published entry for a token and its stored quote.
pub fn whitelist_entry(token: String, quote: PriceData) -> (r: WhitelistEntry)
    ensures
        r.token == token,
        r.price == quote.price,
        r.coefficient == USDF_COEFFICIENT,
        r.decimals == quote.decimals,
{
    WhitelistEntry {
        token,
        price: quote.price,
        coefficient: USDF_COEFFICIENT,
        decimals: quote.decimals,
    }
}

} // verus!
