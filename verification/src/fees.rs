use vstd::prelude::*;
use vstd::string::*;
use vstd::utf8::*;

use crate::types::account_id::AccountId;
use crate::utils::first_dot;
use crate::wire::{
    all_dec_digits, bytes_to_string, dec_bytes, dec_value, is_dec_digit, lemma_ascii_valid_utf8,
    lemma_dec_bytes_value, parse_dec_number, push_dec,
};

verus! {

/// The least fee share that can be configured: a hundredth of a percent,
/// counted in hundredths of a percent.
pub const MIN_FEE_PERCENT: u64 = 1;

/// The greatest fee share that can be configured: ten percent, counted in
/// hundredths of a percent.
pub const MAX_FEE_PERCENT: u64 = 1000;

/// The share a fresh calculator starts with: five percent.
pub const DEFAULT_PERCENT: u64 = 500;

/// The divisor that turns hundredths of a percent into a share.
pub const PERCENT_BASIS: u64 = 10000;

/// Why a percent string was rejected.
#[derive(Debug, Clone, Copy, PartialEq, Eq)]
pub enum ParseError {
    /// The text is not a plain decimal number.
    ParseFloat,
    /// The share is under the least that can be configured.
    TooLowPercent,
    /// The share is over the greatest that can be configured.
    TooHighPercent,
    /// More than two digits follow the decimal point.
    TooManyDecimals,
}

/// The value spelled by the fraction digits, scaled to hundredths.
pub open spec fn fraction_value(frac: Seq<u8>) -> int {
    if frac.len() == 0 {
        0
    } else if frac.len() == 1 {
        (frac[0] - 48) * 10
    } else {
        (frac[0] - 48) * 10 + (frac[1] - 48)
    }
}

/// The digits before and after the first decimal point of `s`.
pub open spec fn int_part(s: Seq<u8>) -> Seq<u8> {
    s.subrange(0, first_dot(s))
}

pub open spec fn frac_part(s: Seq<u8>) -> Seq<u8> {
    if first_dot(s) < s.len() {
        s.subrange(first_dot(s) + 1, s.len() as int)
    } else {
        Seq::empty()
    }
}

/// True when `s` spells a plain unsigned decimal, with at most one point and
/// at least one digit.
pub open spec fn percent_grammar_ok(s: Seq<u8>) -> bool {
    &&& all_dec_digits(int_part(s))
    &&& all_dec_digits(frac_part(s))
    &&& int_part(s).len() + frac_part(s).len() > 0
}

/// The share spelled by `s`, in hundredths of a percent.
pub open spec fn percent_value(s: Seq<u8>) -> int {
    dec_value(int_part(s)) * 100 + fraction_value(frac_part(s))
}

/// What parsing a percent string returns: nothing for an absent or zero
/// share, the basis value for a share within bounds, and the exact rejection
/// otherwise.
pub open spec fn parse_percent_spec(p: Option<Seq<u8>>) -> Result<Option<u64>, ParseError> {
    match p {
        None => Ok(None),
        Some(s) => if first_dot(s) < s.len() && s.len() - first_dot(s) - 1 > 2 {
            Err(ParseError::TooManyDecimals)
        } else if !percent_grammar_ok(s) {
            Err(ParseError::ParseFloat)
        } else {
            let v = percent_value(s);
            if v == 0 {
                Ok(None)
            } else if v < MIN_FEE_PERCENT {
                Err(ParseError::TooLowPercent)
            } else if v > MAX_FEE_PERCENT {
                Err(ParseError::TooHighPercent)
            } else {
                Ok(Some(v as u64))
            }
        },
    }
}

/// Checks that at most two digits follow the first decimal point.
pub fn validate_decimal_part(percent: &str) -> (r: Result<(), ParseError>)
    ensures
        ({
            let s = percent.spec_bytes();
            match r {
                Ok(()) => !(first_dot(s) < s.len() && s.len() - first_dot(s) - 1 > 2),
                Err(e) => first_dot(s) < s.len() && s.len() - first_dot(s) - 1 > 2 && e
                    == ParseError::TooManyDecimals,
            }
        }),
{
    let bytes = percent.as_bytes();
    let blen: usize = bytes.len();
    let dot = crate::utils::find_first_dot(bytes);
    if dot < blen && blen - dot - 1 > 2 {
        Err(ParseError::TooManyDecimals)
    } else {
        Ok(())
    }
}

/// Parses a percent string into its fixed-point basis value: at most two
/// decimals, between a hundredth of a percent and ten percent, with zero
/// meaning that the fee is disabled.
#[verifier::loop_isolation(false)]
pub fn parse_percent(percent: Option<&str>) -> (r: Result<Option<u64>, ParseError>)
    ensures
        ({
            let p = match percent {
                Some(s) => Some(s.spec_bytes()),
                None => None,
            };
            r == parse_percent_spec(p)
        }),
{
    let s = match percent {
        Some(s) => s,
        None => {
            return Ok(None);
        },
    };
    let bytes = s.as_bytes();
    let blen: usize = bytes.len();
    let dot = crate::utils::find_first_dot(bytes);
    let ghost sv = s.spec_bytes();
    proof {
        assert(int_part(sv) == bytes@.subrange(0, dot as int));
        if dot < blen {
            assert(frac_part(sv) == bytes@.subrange(dot + 1, blen as int));
            assert(forall|j: int|
                0 <= j < blen - dot - 1 ==> frac_part(sv)[j] == #[trigger] bytes@[dot + 1 + j]);
        } else {
            assert(frac_part(sv) =~= Seq::<u8>::empty());
        }
        assert(forall|j: int| 0 <= j < dot ==> int_part(sv)[j] == #[trigger] bytes@[j]);
    }
    if dot < blen && blen - dot - 1 > 2 {
        return Err(ParseError::TooManyDecimals);
    }
    // every byte before the point must be a digit
    let mut k: usize = 0;
    while k < dot
        invariant
            k <= dot,
            forall|j: int| 0 <= j < k ==> is_dec_digit(#[trigger] bytes@[j]),
        decreases dot - k,
    {
        let b = bytes[k];
        if b < 48 || b > 57 {
            proof {
                assert(int_part(sv)[k as int] == bytes@[k as int]);
                assert(!all_dec_digits(int_part(sv)));
            }
            return Err(ParseError::ParseFloat);
        }
        k = k + 1;
    }
    proof {
        assert forall|j: int| 0 <= j < int_part(sv).len() implies is_dec_digit(
            #[trigger] int_part(sv)[j],
        ) by {
            assert(int_part(sv)[j] == bytes@[j]);
        }
        assert(all_dec_digits(int_part(sv)));
    }
    // at most two digits follow the point; read them directly
    let mut frac_scaled: u64 = 0;
    let mut frac_len: usize = 0;
    if dot < blen {
        frac_len = blen - dot - 1;
        if frac_len >= 1 {
            let b = bytes[dot + 1];
            if b < 48 || b > 57 {
                proof {
                    assert(frac_part(sv)[0] == bytes@[dot + 1]);
                    assert(!all_dec_digits(frac_part(sv)));
                }
                return Err(ParseError::ParseFloat);
            }
            frac_scaled = (b - 48) as u64 * 10;
        }
        if frac_len == 2 {
            let b = bytes[dot + 2];
            if b < 48 || b > 57 {
                proof {
                    assert(frac_part(sv)[1] == bytes@[dot + 2]);
                    assert(!all_dec_digits(frac_part(sv)));
                }
                return Err(ParseError::ParseFloat);
            }
            frac_scaled = frac_scaled + (b - 48) as u64;
        }
    }
    proof {
        assert forall|j: int| 0 <= j < frac_part(sv).len() implies is_dec_digit(
            #[trigger] frac_part(sv)[j],
        ) by {
            assert(frac_part(sv)[j] == bytes@[dot + 1 + j]);
        }
        assert(all_dec_digits(frac_part(sv)));
        assert(frac_scaled == fraction_value(frac_part(sv)));
        assert(0 <= fraction_value(frac_part(sv)) <= 99);
    }
    if dot == 0 && frac_len == 0 {
        proof {
            assert(int_part(sv).len() + frac_part(sv).len() == 0);
        }
        return Err(ParseError::ParseFloat);
    }
    proof {
        assert(percent_grammar_ok(sv));
    }
    // the digits before the point, or zero when there are none
    let int_val: u128 = if dot == 0 {
        proof {
            assert(int_part(sv) =~= Seq::<u8>::empty());
        }
        0
    } else {
        match parse_dec_number(bytes, 0, dot) {
            Some(v) => {
                proof {
                    let ip = int_part(sv);
                    assert(is_dec_digit(ip[0]));
                    assert(crate::wire::sign_body(ip) == ip);
                }
                v
            },
            None => {
                // the digit run before the point overflows the number space,
                // which is far over the greatest configurable share
                proof {
                    let ip = int_part(sv);
                    assert(is_dec_digit(ip[0]));
                    assert(crate::wire::sign_body(ip) == ip);
                    assert(crate::wire::is_dec_number(ip));
                    assert(dec_value(ip) > u128::MAX);
                    assert(dec_value(ip) * 100 >= dec_value(ip)) by (nonlinear_arith)
                        requires
                            dec_value(ip) >= 0,
                    ;
                    assert(percent_value(sv) > MAX_FEE_PERCENT);
                }
                return Err(ParseError::TooHighPercent);
            },
        }
    };
    proof {
        assert(int_val == dec_value(int_part(sv)));
    }
    let v = match int_val.checked_mul(100) {
        Some(x) => match x.checked_add(frac_scaled as u128) {
            Some(y) => y,
            None => {
                proof {
                    assert(percent_value(sv) > MAX_FEE_PERCENT);
                }
                return Err(ParseError::TooHighPercent);
            },
        },
        None => {
            proof {
                assert(int_val * 100 > u128::MAX);
                assert(percent_value(sv) > MAX_FEE_PERCENT);
            }
            return Err(ParseError::TooHighPercent);
        },
    };
    proof {
        assert(v == percent_value(sv));
    }
    if v == 0 {
        Ok(None)
    } else if v < MIN_FEE_PERCENT as u128 {
        Err(ParseError::TooLowPercent)
    } else if v > MAX_FEE_PERCENT as u128 {
        Err(ParseError::TooHighPercent)
    } else {
        Ok(Some(v as u64))
    }
}

// ---------------------------------------------------------------------------
// The pricing actor
// ---------------------------------------------------------------------------

/// The fee taken from `amount` at `percent` hundredths of a percent: the
/// floored share, and conservatively nothing when the product would not fit.
pub open spec fn fee_amount(percent: u64, amount: u128) -> u128 {
    if percent * amount > u128::MAX {
        0
    } else {
        (((percent * amount) as u128) / (PERCENT_BASIS as u128)) as u128
    }
}

/// The pricing actor: a validated share and the set of tokens it prices.
pub struct FeesCalculator {
    percent: Option<u64>,
    owner: AccountId,
    supported_tokens: Vec<AccountId>,
}

impl FeesCalculator {
    /// The configured share, in hundredths of a percent.
    pub closed spec fn spec_percent(self) -> Option<u64> {
        self.percent
    }

    /// The account that may change the configuration.
    pub closed spec fn spec_owner(self) -> Seq<u8> {
        self.owner@
    }

    /// The identifiers of the supported tokens, in insertion order.
    pub closed spec fn tokens_view(self) -> Seq<Seq<u8>> {
        self.supported_tokens@.map_values(|t: AccountId| t@)
    }

    /// True when `token` is a supported token.
    pub open spec fn spec_supports(self, token: Seq<u8>) -> bool {
        self.tokens_view().contains(token)
    }

    /// The fee this calculator quotes for `token` and `amount`.
    pub open spec fn fee_spec(self, token: Seq<u8>, amount: u128) -> u128 {
        match self.spec_percent() {
            None => 0,
            Some(p) => if self.spec_supports(token) {
                fee_amount(p, amount)
            } else {
                0
            },
        }
    }

    /// True when the configured share is within its bounds and no token is
    /// listed twice.
    pub closed spec fn wf(self) -> bool {
        &&& (self.percent matches Some(p) ==> MIN_FEE_PERCENT <= p <= MAX_FEE_PERCENT)
        &&& forall|i: int, j: int|
            0 <= i < j < self.tokens_view().len() ==> #[trigger] self.tokens_view()[i]
                != #[trigger] self.tokens_view()[j]
    }

    /// A calculator pricing the given tokens for `owner`, at the default
    /// share; a token named twice is kept once.
    pub fn new(tokens: Vec<AccountId>, owner: AccountId) -> (r: FeesCalculator)
        ensures
            r.wf(),
            r.spec_percent() == Some(DEFAULT_PERCENT),
            r.spec_owner() == owner@,
            forall|t: Seq<u8>|
                #[trigger] r.spec_supports(t) == tokens@.map_values(
                    |x: AccountId| x@,
                ).contains(t),
    {
        let mut calc = FeesCalculator {
            percent: Some(DEFAULT_PERCENT),
            owner,
            supported_tokens: Vec::new(),
        };
        let n: usize = tokens.len();
        let ghost all = tokens@;
        let mut rest = tokens;
        let mut i: usize = 0;
        proof {
            assert(calc.tokens_view() =~= Seq::<Seq<u8>>::empty());
        }
        while i < n
            invariant
                i <= n,
                n == all.len(),
                rest@ == all.skip(i as int),
                calc.percent == Some(DEFAULT_PERCENT),
                calc.spec_owner() == owner@,
                calc.wf(),
                forall|t: Seq<u8>|
                    #[trigger] calc.spec_supports(t) == all.subrange(0, i as int).map_values(
                        |x: AccountId| x@,
                    ).contains(t),
            decreases n - i,
        {
            let tok = rest.remove(0);
            proof {
                assert(tok == all[i as int]);
                assert(rest@ =~= all.skip(i + 1 as int));
            }
            let ghost before = calc;
            if !calc.contains_token(&tok) {
                let ghost pre = calc.tokens_view();
                calc.add_supported_token(tok);
                proof {
                    assert(calc.tokens_view() =~= pre.push(tok@));
                    assert forall|t: Seq<u8>| #[trigger] calc.spec_supports(t) implies all
                        .subrange(0, i + 1 as int).map_values(|x: AccountId| x@).contains(t) by {
                        let m = all.subrange(0, i + 1 as int).map_values(|x: AccountId| x@);
                        if t == tok@ {
                            assert(m[i as int] == t);
                        } else {
                            assert(before.spec_supports(t));
                            let pm = all.subrange(0, i as int).map_values(|x: AccountId| x@);
                            let k = choose|k: int| 0 <= k < pm.len() && pm[k] == t;
                            assert(m[k] == t);
                        }
                    }
                    assert forall|t: Seq<u8>|
                        all.subrange(0, i + 1 as int).map_values(|x: AccountId| x@).contains(
                            t,
                        ) implies #[trigger] calc.spec_supports(t) by {
                        let m = all.subrange(0, i + 1 as int).map_values(|x: AccountId| x@);
                        let k = choose|k: int| 0 <= k < m.len() && m[k] == t;
                        if k < i {
                            let pm = all.subrange(0, i as int).map_values(|x: AccountId| x@);
                            assert(pm[k] == t);
                            assert(before.spec_supports(t));
                            let j = choose|j: int|
                                0 <= j < before.tokens_view().len() && before.tokens_view()[j]
                                    == t;
                            assert(calc.tokens_view()[j] == t);
                        } else {
                            assert(calc.tokens_view().last() == tok@);
                        }
                    }
                }
            } else {
                proof {
                    assert forall|t: Seq<u8>| #[trigger] calc.spec_supports(t) == all.subrange(
                        0,
                        i + 1 as int,
                    ).map_values(|x: AccountId| x@).contains(t) by {
                        let m = all.subrange(0, i + 1 as int).map_values(|x: AccountId| x@);
                        let pm = all.subrange(0, i as int).map_values(|x: AccountId| x@);
                        if calc.spec_supports(t) {
                            if t == tok@ {
                                assert(m[i as int] == t);
                            } else {
                                let k = choose|k: int| 0 <= k < pm.len() && pm[k] == t;
                                assert(m[k] == t);
                            }
                        }
                        if m.contains(t) {
                            let k = choose|k: int| 0 <= k < m.len() && m[k] == t;
                            if k < i {
                                assert(pm[k] == t);
                            } else {
                                assert(t == tok@);
                                assert(calc.spec_supports(tok@));
                            }
                        }
                    }
                }
            }
            i = i + 1;
        }
        proof {
            assert(all.subrange(0, n as int) =~= all);
        }
        calc
    }

    /// Whether `token` is among the supported tokens.
    fn contains_token(&self, token: &AccountId) -> (r: bool)
        ensures
            r == self.spec_supports(token@),
    {
        let n: usize = self.supported_tokens.len();
        let mut i: usize = 0;
        while i < n
            invariant
                i <= n,
                n == self.tokens_view().len(),
                forall|k: int| 0 <= k < i ==> #[trigger] self.tokens_view()[k] != token@,
            decreases n - i,
        {
            if crate::wire::bytes_eq(self.supported_tokens[i].as_bytes(), token.as_bytes()) {
                proof {
                    assert(self.tokens_view()[i as int] == token@);
                }
                return true;
            }
            proof {
                assert(self.tokens_view()[i as int] == self.supported_tokens@[i as int]@);
            }
            i = i + 1;
        }
        proof {
            if self.spec_supports(token@) {
                let k = choose|k: int|
                    0 <= k < self.tokens_view().len() && self.tokens_view()[k] == token@;
                assert(false);
            }
        }
        false
    }

    /// Calculates and returns the fee for the given token and amount; the
    /// network and address do not enter the price.
    pub fn calculate_fees(
        &self,
        amount: u128,
        token_id: &AccountId,
        target_network: &AccountId,
        target_address: String,
    ) -> (r: u128)
        ensures
            r == self.fee_spec(token_id@, amount),
    {
        let supported = self.contains_token(token_id);
        match self.percent {
            None => 0,
            Some(p) => {
                if !supported {
                    0
                } else {
                    match (p as u128).checked_mul(amount) {
                        Some(product) => product / (PERCENT_BASIS as u128),
                        None => 0,
                    }
                }
            },
        }
    }

    /// Replaces the configured share with the parsed percent, rejecting
    /// anything outside the bounds; the token set stays as it is.
    pub fn set_fee_percent(&mut self, percent: Option<String>) -> (r: Result<(), ParseError>)
        requires
            old(self).wf(),
        ensures
            final(self).wf(),
            final(self).spec_owner() == old(self).spec_owner(),
            final(self).tokens_view() == old(self).tokens_view(),
            ({
                let p = match percent {
                    Some(s) => Some(encode_utf8(s@)),
                    None => None,
                };
                match r {
                    Ok(()) => parse_percent_spec(p) == Ok::<Option<u64>, ParseError>(
                        final(self).spec_percent(),
                    ),
                    Err(e) => parse_percent_spec(p) == Err::<Option<u64>, ParseError>(e)
                        && final(self).spec_percent() == old(self).spec_percent(),
                }
            }),
    {
        let parsed = match &percent {
            Some(s) => parse_percent(Some(s.as_str())),
            None => parse_percent(None),
        };
        match parsed {
            Ok(value) => {
                proof {
                    match value {
                        Some(v) => {
                            assert(MIN_FEE_PERCENT <= v <= MAX_FEE_PERCENT);
                        },
                        None => {},
                    }
                }
                self.percent = value;
                proof {
                    assert(self.supported_tokens == old(self).supported_tokens);
                    assert(self.tokens_view() == old(self).tokens_view());
                    assert(self.wf());
                }
                Ok(())
            },
            Err(e) => Err(e),
        }
    }

    /// The configured share, rendered with two decimals, or nothing when the
    /// fee is disabled.
    pub fn get_fee_percent(&self) -> (r: Option<String>)
        requires
            self.wf(),
        ensures
            match r {
                Some(t) => self.spec_percent() matches Some(p) && encode_utf8(t@)
                    == percent_str_bytes(p),
                None => self.spec_percent() is None,
            },
    {
        let p = match self.percent {
            Some(p) => p,
            None => {
                return None;
            },
        };
        let mut out: Vec<u8> = Vec::new();
        push_dec(&mut out, (p / 100) as u128);
        out.push(46);
        out.push(48 + ((p % 100) / 10) as u8);
        out.push(48 + ((p % 100) % 10) as u8);
        proof {
            assert(out@ =~= percent_str_bytes(p));
            lemma_dec_bytes_value((p / 100) as nat);
            assert forall|i: int| 0 <= i < out@.len() implies out@[i] < 128 by {
                if i < dec_bytes((p / 100) as nat).len() {
                    assert(is_dec_digit(out@[i]));
                }
            }
            lemma_ascii_valid_utf8(out@);
        }
        match bytes_to_string(out.as_slice()) {
            Some(t) => Some(t),
            None => {
                proof {
                    assert(false);
                }
                None
            },
        }
    }

    /// The supported tokens, in insertion order.
    pub fn supported_tokens(&self) -> (r: Vec<AccountId>)
        ensures
            r@.map_values(|t: AccountId| t@) == self.tokens_view(),
    {
        let n: usize = self.supported_tokens.len();
        let mut out: Vec<AccountId> = Vec::new();
        let mut i: usize = 0;
        while i < n
            invariant
                i <= n,
                n == self.tokens_view().len(),
                out@.len() == i,
                forall|k: int|
                    0 <= k < i ==> #[trigger] out@[k]@ == self.tokens_view()[k],
            decreases n - i,
        {
            out.push(self.supported_tokens[i].clone());
            proof {
                assert(self.tokens_view()[i as int] == self.supported_tokens@[i as int]@);
            }
            i = i + 1;
        }
        proof {
            assert(out@.map_values(|t: AccountId| t@) =~= self.tokens_view());
        }
        out
    }

    /// Adds a supported token, which must not be present yet.
    pub fn add_supported_token(&mut self, token_id: AccountId)
        requires
            old(self).wf(),
            !old(self).spec_supports(token_id@),
        ensures
            final(self).wf(),
            final(self).spec_percent() == old(self).spec_percent(),
            final(self).spec_owner() == old(self).spec_owner(),
            final(self).tokens_view() == old(self).tokens_view().push(token_id@),
    {
        let ghost pre = self.tokens_view();
        self.supported_tokens.push(token_id);
        proof {
            assert(self.tokens_view() =~= pre.push(token_id@));
            assert forall|i: int, j: int|
                0 <= i < j < self.tokens_view().len() implies #[trigger] self.tokens_view()[i]
                != #[trigger] self.tokens_view()[j] by {
                if j == self.tokens_view().len() - 1 {
                    if self.tokens_view()[i] == token_id@ {
                        assert(pre[i] == token_id@);
                        assert(pre.contains(token_id@));
                    }
                }
            }
        }
    }

    /// Removes a supported token, which must be present.
    pub fn remove_supported_token(&mut self, token_id: &AccountId)
        requires
            old(self).wf(),
            old(self).spec_supports(token_id@),
        ensures
            final(self).wf(),
            final(self).spec_percent() == old(self).spec_percent(),
            final(self).spec_owner() == old(self).spec_owner(),
            forall|t: Seq<u8>|
                #[trigger] final(self).spec_supports(t) == (old(self).spec_supports(t) && t
                    != token_id@),
    {
        let n: usize = self.supported_tokens.len();
        let mut i: usize = 0;
        while i < n
            invariant
                i <= n,
                *self == *old(self),
                self.wf(),
                n == self.tokens_view().len(),
                forall|k: int| 0 <= k < i ==> #[trigger] self.tokens_view()[k] != token_id@,
            decreases n - i,
        {
            if crate::wire::bytes_eq(self.supported_tokens[i].as_bytes(), token_id.as_bytes()) {
                proof {
                    assert(self.tokens_view()[i as int] == token_id@);
                }
                let ghost pre = self.tokens_view();
                let _ = self.supported_tokens.remove(i);
                proof {
                    assert(self.tokens_view() =~= pre.remove(i as int));
                    assert forall|t: Seq<u8>| #[trigger] self.spec_supports(t) == (old(
                        self,
                    ).spec_supports(t) && t != token_id@) by {
                        let cur = self.tokens_view();
                        if self.spec_supports(t) {
                            let k = choose|k: int| 0 <= k < cur.len() && cur[k] == t;
                            if k < i {
                                assert(pre[k] == t);
                            } else {
                                assert(pre[k + 1] == t);
                            }
                            assert(t != token_id@);
                        }
                        if old(self).spec_supports(t) && t != token_id@ {
                            let k = choose|k: int| 0 <= k < pre.len() && pre[k] == t;
                            if k < i {
                                assert(cur[k] == t);
                            } else {
                                assert(k != i);
                                assert(cur[k - 1] == t);
                            }
                        }
                    }
                    assert forall|a: int, b: int|
                        0 <= a < b < self.tokens_view().len() implies #[trigger] self.tokens_view()[a]
                        != #[trigger] self.tokens_view()[b] by {
                        let cur = self.tokens_view();
                        if a < i {
                            assert(cur[a] == pre[a]);
                        } else {
                            assert(cur[a] == pre[a + 1]);
                        }
                        if b < i {
                            assert(cur[b] == pre[b]);
                        } else {
                            assert(cur[b] == pre[b + 1]);
                        }
                    }
                }
                return ;
            }
            proof {
                assert(self.tokens_view()[i as int] == self.supported_tokens@[i as int]@);
            }
            i = i + 1;
        }
        proof {
            if old(self).spec_supports(token_id@) {
                let k = choose|k: int|
                    0 <= k < self.tokens_view().len() && self.tokens_view()[k] == token_id@;
                assert(false);
            }
        }
    }
}

/// The share `p`, in hundredths of a percent, rendered with two decimals.
pub open spec fn percent_str_bytes(p: u64) -> Seq<u8> {
    dec_bytes((p / 100) as nat) + seq![46u8, (48 + (p % 100) / 10) as u8, (48 + (p % 100) % 10) as u8]
}

// ---------------------------------------------------------------------------
// Laws of the pricing function
// ---------------------------------------------------------------------------

/// The fee never exceeds the amount it is taken from, and is never negative:
/// the quote always leaves something to forward.
pub proof fn lemma_fee_within_amount(c: FeesCalculator, token: Seq<u8>, amount: u128)
    requires
        c.wf(),
    ensures
        0 <= c.fee_spec(token, amount) <= amount,
{
    match c.spec_percent() {
        Some(p) => {
            if c.spec_supports(token) && p * amount <= u128::MAX {
                assert(p * amount <= 10000 * amount) by (nonlinear_arith)
                    requires
                        p <= 1000,
                ;
                assert((p * amount) as u128 / 10000 <= (10000 * amount) as int / 10000) by {
                    vstd::arithmetic::div_mod::lemma_div_is_ordered(
                        (p * amount) as int,
                        (10000 * amount) as int,
                        10000,
                    );
                }
                assert((10000 * amount) as int / 10000 == amount) by (nonlinear_arith);
            }
        },
        None => {},
    }
}

/// For a supported token, the fee grows with the amount: pricing is monotone
/// wherever the share times the larger amount still fits the number space.
pub proof fn lemma_fee_monotonic(c: FeesCalculator, token: Seq<u8>, a1: u128, a2: u128)
    requires
        c.wf(),
        a1 <= a2,
        c.spec_percent() is Some ==> c.spec_percent()->Some_0 * a2 <= u128::MAX,
    ensures
        c.fee_spec(token, a1) <= c.fee_spec(token, a2),
{
    match c.spec_percent() {
        Some(p) => {
            if c.spec_supports(token) {
                assert(p * a1 <= p * a2) by (nonlinear_arith)
                    requires
                        a1 <= a2,
                        p >= 0,
                ;
                vstd::arithmetic::div_mod::lemma_div_is_ordered(
                    (p * a1) as int,
                    (p * a2) as int,
                    10000,
                );
            }
        },
        None => {},
    }
}

} // verus!
