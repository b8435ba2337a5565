use vstd::prelude::*;
use crate::error::SigningError;

verus! {

/// Percentage-scaled protocol factor applied to every conversion.
pub const USDF_COEFFICIENT: u128 = 30;

/// Radix of the quote's decimal exponent.
pub const BASE: u128 = 10;

/// A token's price: `price / 10^decimals` settlement units per whole token.
#[derive(Clone, Debug)]
pub struct PriceData {
    /// Unsigned decimal integer, as text.
    pub price: String,
    pub decimals: u8,
}

pub open spec fn is_digit(c: char) -> bool {
    '0' <= c && c <= '9'
}

pub open spec fn all_digits(s: Seq<char>) -> bool {
    forall|i: int| 0 <= i < s.len() ==> is_digit(#[trigger] s[i])
}

/// The number written by a string of decimal digits.
pub open spec fn digits_value(s: Seq<char>) -> nat
    decreases s.len(),
{
    if s.len() == 0 {
        0
    } else {
        digits_value(s.drop_last()) * 10 + ((s.last() as nat) - ('0' as nat)) as nat
    }
}

/// The digits of an unsigned number: an optional leading `+` is dropped.
pub open spec fn unsigned_digits(s: Seq<char>) -> Seq<char> {
    if s.len() > 0 && s[0] == '+' {
        s.drop_first()
    } else {
        s
    }
}

/// The unsigned integer that `s` writes, if it writes one.
pub open spec fn number_of(s: Seq<char>) -> Option<nat> {
    let d = unsigned_digits(s);
    if d.len() > 0 && all_digits(d) {
        Some(digits_value(d))
    } else {
        None
    }
}

pub open spec fn pow10(n: nat) -> nat
    decreases n,
{
    if n == 0 {
        1
    } else {
        10 * pow10((n - 1) as nat)
    }
}

/// The settlement amount before any width limit: multiplication first,
/// then truncating divisions by 100 and by the scale.
pub open spec fn settlement_of(raw: nat, price: nat, decimals: nat) -> nat {
    raw * price * (USDF_COEFFICIENT as nat) / 100 / pow10(decimals)
}

/// What converting `raw` tokens under `quote` yields (`None`: no quote stored).
pub open spec fn conversion(quote: Option<PriceData>, raw: u128) -> Result<u128, SigningError> {
    match quote {
        None => Err(SigningError::UnknownToken),
        Some(q) => match number_of(q.price@) {
            None => Err(SigningError::MalformedQuote),
            Some(p) => if p > u128::MAX {
                Err(SigningError::MalformedQuote)
            } else if raw * p * (USDF_COEFFICIENT as nat) > u128::MAX || pow10(q.decimals as nat)
                > u128::MAX {
                Err(SigningError::ArithmeticOverflow)
            } else {
                Ok(settlement_of(raw as nat, p, q.decimals as nat) as u128)
            },
        },
    }
}

proof fn lemma_digits_prefix_grows(s: Seq<char>, j: int, k: int)
    requires
        0 <= j <= k <= s.len(),
        all_digits(s),
    ensures
        digits_value(s.subrange(0, j)) <= digits_value(s.subrange(0, k)),
    decreases k - j,
{
    if j < k {
        lemma_digits_prefix_grows(s, j, k - 1);
        assert(s.subrange(0, k).drop_last() =~= s.subrange(0, k - 1));
    }
}

/// Parses an unsigned decimal integer (optional `+`, then at least one
/// digit); `None` when the text is not one or the value exceeds `u128`.
pub fn parse_price(s: &String) -> (r: Option<u128>)
    ensures
        r matches Some(v) ==> number_of(s@) == Some(v as nat),
        r is None ==> !(number_of(s@) matches Some(n) && n <= u128::MAX),
{
    let text = s.as_str();
    let len = text.unicode_len();
    let ghost d = unsigned_digits(s@);
    let start: usize = if len > 0 && text.get_char(0) == '+' { 1 } else { 0 };
    if start >= len {
        return None;
    }
    let mut acc: u128 = 0;
    let mut i: usize = start;
    while i < len
        invariant
            start <= i <= len,
            len == s@.len(),
            text@ == s@,
            d == s@.subrange(start as int, len as int),
            d == unsigned_digits(s@),
            all_digits(d.subrange(0, i - start)),
            acc as nat == digits_value(d.subrange(0, i - start)),
        decreases len - i,
    {
        let c = text.get_char(i);
        assert(d[i - start] == c);
        if c < '0' || c > '9' {
            assert(!is_digit(d[i - start]));
            return None;
        }
        let digit: u128 = (c as u32 - '0' as u32) as u128;
        assert(d.subrange(0, i + 1 - start).drop_last() =~= d.subrange(0, i - start));
        assert(digits_value(d.subrange(0, i + 1 - start)) == acc as nat * 10 + digit as nat);
        match acc.checked_mul(10) {
            None => {
                proof {
                    if all_digits(d) {
                        lemma_digits_prefix_grows(d, i + 1 - start, d.len() as int);
                        assert(d.subrange(0, d.len() as int) =~= d);
                    }
                }
                return None;
            },
            Some(m) => match m.checked_add(digit) {
                None => {
                    proof {
                        if all_digits(d) {
                            lemma_digits_prefix_grows(d, i + 1 - start, d.len() as int);
                            assert(d.subrange(0, d.len() as int) =~= d);
                        }
                    }
                    return None;
                },
                Some(v) => {
                    acc = v;
                },
            },
        }
        i = i + 1;
    }
    assert(d.subrange(0, len - start) =~= d);
    Some(acc)
}

/// `10^n`, or `None` when it exceeds `u128`.
pub fn checked_pow10(n: u8) -> (r: Option<u128>)
    ensures
        r matches Some(v) ==> v as nat == pow10(n as nat),
        r is None ==> pow10(n as nat) > u128::MAX,
{
    let mut acc: u128 = 1;
    let mut i: u8 = 0;
    while i < n
        invariant
            i <= n,
            acc as nat == pow10(i as nat),
        decreases n - i,
    {
        match acc.checked_mul(BASE) {
            None => {
                proof { lemma_pow10_grows(i as nat + 1, n as nat); }
                return None;
            },
            Some(v) => {
                acc = v;
            },
        }
        i = i + 1;
    }
    Some(acc)
}

proof fn lemma_pow10_grows(j: nat, k: nat)
    requires
        j <= k,
    ensures
        pow10(j) <= pow10(k),
    decreases k - j,
{
    if j < k {
        lemma_pow10_grows(j, (k - 1) as nat);
    }
}

/// Converts `amount` raw token units into settlement units under `quote`,
/// the stored quote of the token (`None` when the token is unknown).
pub fn convert(quote: &Option<PriceData>, amount: u128) -> (r: Result<u128, SigningError>)
    ensures
        r == conversion(*quote, amount),
{
    let q = match quote {
        None => return Err(SigningError::UnknownToken),
        Some(q) => q,
    };
    let price = match parse_price(&q.price) {
        None => return Err(SigningError::MalformedQuote),
        Some(p) => p,
    };
    let scale = match checked_pow10(q.decimals) {
        None => return Err(SigningError::ArithmeticOverflow),
        Some(s) => s,
    };
    let product = match amount.checked_mul(price) {
        None => {
            proof {
                assert(amount as nat * price as nat * 30 > u128::MAX) by (nonlinear_arith)
                    requires amount as nat * price as nat > u128::MAX;
            }
            return Err(SigningError::ArithmeticOverflow);
        },
        Some(p) => p,
    };
    let scaled = match product.checked_mul(USDF_COEFFICIENT) {
        None => return Err(SigningError::ArithmeticOverflow),
        Some(p) => p,
    };
    proof { lemma_pow10_grows(0, q.decimals as nat); }
    Ok(scaled / 100 / scale)
}

/// Two conversions of the same amount under an unchanged quote agree.
pub proof fn lemma_conversion_is_deterministic(
    quote: Option<PriceData>,
    amount: u128,
    first: Result<u128, SigningError>,
    second: Result<u128, SigningError>,
)
    requires
        first == conversion(quote, amount),
        second == conversion(quote, amount),
    ensures
        first == second,
{
}

} // verus!
