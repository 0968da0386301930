use vstd::prelude::*;
use vstd::string::*;
use vstd::utf8::*;

verus! {

// ---------------------------------------------------------------------------
// Little-endian integers
// ---------------------------------------------------------------------------

/// 256 raised to the power `n`.
pub open spec fn pow256(n: nat) -> nat
    decreases n,
{
    if n == 0 {
        1
    } else {
        256 * pow256((n - 1) as nat)
    }
}

pub proof fn lemma_pow256_pos(n: nat)
    ensures
        pow256(n) >= 1,
    decreases n,
{
    if n > 0 {
        lemma_pow256_pos((n - 1) as nat);
    }
}

/// The `n` little-endian bytes of the integer `v` (low byte first).
pub open spec fn le_bytes(v: nat, n: nat) -> Seq<u8> {
    Seq::new(n, |i: int| ((v / pow256(i as nat)) % 256) as u8)
}

/// The integer whose little-endian bytes are `s`.
pub open spec fn le_value(s: Seq<u8>) -> nat
    decreases s.len(),
{
    if s.len() == 0 {
        0
    } else {
        (s[0] + 256 * le_value(s.drop_first())) as nat
    }
}

pub proof fn lemma_le_value_bound(s: Seq<u8>)
    ensures
        le_value(s) < pow256(s.len()),
    decreases s.len(),
{
    if s.len() > 0 {
        lemma_le_value_bound(s.drop_first());
    }
}

proof fn lemma_div_by_256_pow(v: nat, i: nat)
    ensures
        v / pow256(i) / 256 == v / pow256(i + 1),
{
    lemma_pow256_pos(i);
    vstd::arithmetic::div_mod::lemma_div_denominator(v as int, pow256(i) as int, 256);
    assert(pow256(i + 1) == pow256(i) * 256) by {
        reveal_with_fuel(pow256, 1);
        assert(pow256(i + 1) == 256 * pow256(i));
    }
}

pub proof fn lemma_le_round_trip(v: nat, n: nat)
    requires
        v < pow256(n),
    ensures
        le_value(le_bytes(v, n)) == v,
    decreases n,
{
    if n == 0 {
    } else {
        let s = le_bytes(v, n);
        assert(s.drop_first() =~= le_bytes(v / 256, (n - 1) as nat)) by {
            assert forall|i: int| 0 <= i < n - 1 implies s.drop_first()[i] == le_bytes(
                v / 256,
                (n - 1) as nat,
            )[i] by {
                lemma_div_by_256_pow(v, i as nat);
                assert(v / pow256((i + 1) as nat) == v / 256 / pow256(i as nat)) by {
                    lemma_pow256_pos(i as nat);
                    vstd::arithmetic::div_mod::lemma_div_denominator(
                        v as int,
                        256,
                        pow256(i as nat) as int,
                    );
                    vstd::arithmetic::div_mod::lemma_div_denominator(
                        v as int,
                        pow256(i as nat) as int,
                        256,
                    );
                }
            }
        }
        assert(v / 256 < pow256((n - 1) as nat)) by {
            lemma_pow256_pos((n - 1) as nat);
            assert(pow256(n) == 256 * pow256((n - 1) as nat));
            vstd::arithmetic::div_mod::lemma_div_is_ordered(
                v as int,
                (pow256(n) - 1) as int,
                256,
            );
            assert((256 * pow256((n - 1) as nat) - 1) as int / 256 == pow256((n - 1) as nat) - 1)
                by (nonlinear_arith);
        }
        lemma_le_round_trip(v / 256, (n - 1) as nat);
        assert(pow256(0) == 1);
        assert(s[0] == ((v / pow256(0)) % 256) as u8);
        assert(v / pow256(0) == v / 1 == v);
        assert(s[0] == v % 256);
        assert(le_value(s) == v % 256 + 256 * (v / 256));
        vstd::arithmetic::div_mod::lemma_fundamental_div_mod(v as int, 256);
    }
}

/// Appends the `width` little-endian bytes of `v` to `out`.
pub fn push_le_bytes(out: &mut Vec<u8>, v: u128, width: usize)
    requires
        (v as nat) < pow256(width as nat),
    ensures
        final(out)@ == old(out)@ + le_bytes(v as nat, width as nat),
{
    let ghost base = out@;
    let mut cur: u128 = v;
    let mut i: usize = 0;
    proof {
        assert(pow256(0) == 1);
        assert(out@ =~= base + le_bytes(v as nat, 0));
    }
    while i < width
        invariant
            i <= width,
            cur as nat == (v as nat) / pow256(i as nat),
            out@ == base + le_bytes(v as nat, i as nat),
        decreases width - i,
    {
        out.push((cur % 256) as u8);
        proof {
            assert(le_bytes(v as nat, (i + 1) as nat) =~= le_bytes(v as nat, i as nat).push(
                ((v as nat / pow256(i as nat)) % 256) as u8,
            ));
            lemma_div_by_256_pow(v as nat, i as nat);
        }
        cur = cur / 256;
        i = i + 1;
    }
    proof {
        assert(out@ =~= base + le_bytes(v as nat, width as nat));
    }
}

/// The integer held by `bytes[start .. start + n]` in little-endian order.
pub fn le_chunk_value(bytes: &[u8], start: usize, n: usize) -> (r: u128)
    requires
        start + n <= bytes@.len(),
        n <= 16,
    ensures
        r as nat == le_value(bytes@.subrange(start as int, (start + n) as int)),
{
    let blen: usize = bytes.len();
    let mut acc: u128 = 0;
    let mut j: usize = n;
    proof {
        assert(bytes@.subrange((start + n) as int, (start + n) as int) =~= Seq::<u8>::empty());
    }
    while j > 0
        invariant
            j <= n,
            n <= 16,
            start + n <= blen,
            blen == bytes@.len(),
            acc as nat == le_value(bytes@.subrange((start + j) as int, (start + n) as int)),
            (acc as nat) < pow256((n - j) as nat),
        decreases j,
    {
        let ghost prev = bytes@.subrange((start + j) as int, (start + n) as int);
        j = j - 1;
        proof {
            let cur = bytes@.subrange((start + j) as int, (start + n) as int);
            assert(cur.drop_first() =~= prev);
            assert(le_value(cur) == cur[0] + 256 * le_value(prev));
            lemma_pow256_pos((n - j - 1) as nat);
            assert(pow256((n - j) as nat) == 256 * pow256((n - j - 1) as nat));
            assert(pow256((n - j) as nat) <= pow256(16)) by {
                lemma_pow256_le((n - j) as nat, 16);
            }
            lemma_pow256_16();
        }
        acc = bytes[start + j] as u128 + 256 * acc;
    }
    acc
}

pub proof fn lemma_pow256_16()
    ensures
        pow256(16) == 0x100000000000000000000000000000000,
{
    reveal_with_fuel(pow256, 17);
}

pub proof fn lemma_pow256_le(a: nat, b: nat)
    requires
        a <= b,
    ensures
        pow256(a) <= pow256(b),
    decreases b,
{
    if a < b {
        lemma_pow256_le(a, (b - 1) as nat);
        lemma_pow256_pos((b - 1) as nat);
    }
}

// ---------------------------------------------------------------------------
// Decimal rendering and parsing
// ---------------------------------------------------------------------------

/// The shortest decimal rendering of `n`, as ASCII digit bytes.
pub open spec fn dec_bytes(n: nat) -> Seq<u8>
    decreases n,
{
    if n < 10 {
        seq![(48 + n) as u8]
    } else {
        dec_bytes(n / 10) + seq![(48 + n % 10) as u8]
    }
}

/// Appends the decimal rendering of `v` to `out`.
pub fn push_dec(out: &mut Vec<u8>, v: u128)
    ensures
        final(out)@ == old(out)@ + dec_bytes(v as nat),
    decreases v,
{
    if v < 10 {
        out.push((48 + v) as u8);
        proof {
            assert(out@ =~= old(out)@ + dec_bytes(v as nat));
        }
    } else {
        push_dec(out, v / 10);
        out.push((48 + v % 10) as u8);
        proof {
            assert(out@ =~= old(out)@ + dec_bytes(v as nat));
        }
    }
}

/// True when `b` is an ASCII decimal digit.
pub open spec fn is_dec_digit(b: u8) -> bool {
    48 <= b <= 57
}

/// True when every byte of `s` is an ASCII decimal digit.
pub open spec fn all_dec_digits(s: Seq<u8>) -> bool {
    forall|i: int| 0 <= i < s.len() ==> is_dec_digit(#[trigger] s[i])
}

/// The integer denoted by the ASCII digit bytes `s`, most significant first.
pub open spec fn dec_value(s: Seq<u8>) -> int
    decreases s.len(),
{
    if s.len() == 0 {
        0
    } else {
        dec_value(s.drop_last()) * 10 + s.last() - 48
    }
}

pub proof fn lemma_dec_value_nonneg(s: Seq<u8>)
    requires
        all_dec_digits(s),
    ensures
        dec_value(s) >= 0,
    decreases s.len(),
{
    if s.len() > 0 {
        assert(all_dec_digits(s.drop_last())) by {
            assert(forall|i: int|
                0 <= i < s.len() - 1 ==> #[trigger] s.drop_last()[i] == s[i]);
        }
        lemma_dec_value_nonneg(s.drop_last());
    }
}


pub proof fn lemma_all_dec_digits_subrange(s: Seq<u8>, i: int, j: int)
    requires
        all_dec_digits(s),
        0 <= i <= j <= s.len(),
    ensures
        all_dec_digits(s.subrange(i, j)),
{
    assert(forall|k: int| 0 <= k < j - i ==> #[trigger] s.subrange(i, j)[k] == s[i + k]);
}

/// A longer run of digits never denotes a smaller number.
pub proof fn lemma_dec_value_prefix(s: Seq<u8>, i: int)
    requires
        all_dec_digits(s),
        0 <= i <= s.len(),
    ensures
        dec_value(s) >= dec_value(s.subrange(0, i)),
        dec_value(s) >= 0,
    decreases s.len() - i,
{
    lemma_dec_value_nonneg(s);
    if i == s.len() {
        assert(s.subrange(0, s.len() as int) =~= s);
    } else {
        lemma_dec_value_prefix(s, i + 1);
        let p = s.subrange(0, i);
        let q = s.subrange(0, i + 1);
        assert(q.drop_last() =~= p);
        assert(dec_value(q) == dec_value(p) * 10 + s[i] - 48);
        lemma_all_dec_digits_subrange(s, 0, i);
        lemma_dec_value_nonneg(p);
        assert(is_dec_digit(s[i]));
        assert(dec_value(q) >= dec_value(p));
    }
}

/// The decimal rendering of `n` denotes `n`.
pub proof fn lemma_dec_bytes_value(n: nat)
    ensures
        dec_value(dec_bytes(n)) == n,
        all_dec_digits(dec_bytes(n)),
        dec_bytes(n).len() >= 1,
    decreases n,
{
    if n < 10 {
        let s = dec_bytes(n);
        assert(s.drop_last() =~= Seq::<u8>::empty());
        assert(s[0] == (48 + n) as u8);
        assert(is_dec_digit(s[0]));
        assert(s.len() == 1);
        assert(s.last() == s[0]);
        assert(dec_value(s) == dec_value(s.drop_last()) * 10 + s.last() - 48);
        assert(dec_value(Seq::<u8>::empty()) == 0);
        assert(dec_value(s) == n);
    } else {
        lemma_dec_bytes_value(n / 10);
        let s = dec_bytes(n);
        let p = dec_bytes(n / 10);
        assert(s.drop_last() =~= p);
        assert(s.last() == (48 + n % 10) as u8);
        assert(dec_value(s) == dec_value(p) * 10 + (48 + n % 10) - 48);
        assert((n / 10) * 10 + n % 10 == n) by {
            vstd::arithmetic::div_mod::lemma_fundamental_div_mod(n as int, 10);
        }
        assert forall|k: int| 0 <= k < s.len() implies is_dec_digit(s[k]) by {
            if k < p.len() {
                assert(s[k] == p[k]);
            } else {
                assert(s[k] == s.last());
            }
        }
    }
}

/// The digits of a number, after one optional leading plus sign.
pub open spec fn sign_body(s: Seq<u8>) -> Seq<u8> {
    if s.len() > 0 && s[0] == 43 {
        s.drop_first()
    } else {
        s
    }
}

/// True when `s` spells an unsigned decimal integer: an optional plus sign
/// followed by one or more digits.
pub open spec fn is_dec_number(s: Seq<u8>) -> bool {
    sign_body(s).len() > 0 && all_dec_digits(sign_body(s))
}

/// The value spelled by `s`, when `is_dec_number(s)` holds.
pub open spec fn dec_number_value(s: Seq<u8>) -> int {
    dec_value(sign_body(s))
}

/// What parsing an unsigned decimal integer out of `s` must return: the
/// spelled value where `s` is a number that fits, and nothing otherwise.
pub open spec fn dec_number_result(s: Seq<u8>, r: Option<u128>) -> bool {
    match r {
        Some(v) => is_dec_number(s) && dec_number_value(s) == v,
        None => !(is_dec_number(s) && dec_number_value(s) <= u128::MAX),
    }
}

/// Parses the given range of `bytes` as an unsigned decimal integer.
pub fn parse_dec_number(bytes: &[u8], lo: usize, hi: usize) -> (r: Option<u128>)
    requires
        lo <= hi,
        hi <= bytes@.len(),
    ensures
        dec_number_result(bytes@.subrange(lo as int, hi as int), r),
{
    let ghost s = bytes@.subrange(lo as int, hi as int);
    let blen: usize = bytes.len();
    let mut i: usize = lo;
    if i < hi && bytes[i] == 43 {
        i = i + 1;
    }
    let ghost body = sign_body(s);
    proof {
        assert(body =~= bytes@.subrange(i as int, hi as int));
    }
    if i == hi {
        return None;
    }
    let mut acc: u128 = 0;
    proof {
        assert(bytes@.subrange(i as int, i as int) =~= Seq::<u8>::empty());
    }
    let ghost body_lo = i as int;
    while i < hi
        invariant
            0 <= body_lo <= i <= hi <= blen,
            blen == bytes@.len(),
            s == bytes@.subrange(lo as int, hi as int),
            body == sign_body(s),
            body == bytes@.subrange(body_lo, hi as int),
            all_dec_digits(bytes@.subrange(body_lo, i as int)),
            acc == dec_value(bytes@.subrange(body_lo, i as int)),
        decreases hi - i,
    {
        let b = bytes[i];
        proof {
            assert(bytes@.subrange(body_lo, hi as int)[i - body_lo] == bytes@[i as int]);
            assert(body[i - body_lo] == b);
        }
        if b < 48 || b > 57 {
            proof {
                assert(!is_dec_digit(body[i - body_lo]));
                assert(!all_dec_digits(body));
            }
            return None;
        }
        let ghost pre = bytes@.subrange(body_lo, i as int);
        let ghost ext = bytes@.subrange(body_lo, i + 1 as int);
        proof {
            assert(ext.drop_last() =~= pre);
            assert(ext.last() == b);
            assert(dec_value(ext) == dec_value(pre) * 10 + b - 48);
            assert(all_dec_digits(ext)) by {
                assert(forall|k: int|
                    0 <= k < i + 1 - body_lo ==> #[trigger] ext[k] == bytes@[body_lo + k]);
            }
        }
        let step = match acc.checked_mul(10) {
            Some(m) => m.checked_add((b - 48) as u128),
            None => None,
        };
        match step {
            Some(next) => {
                acc = next;
            },
            None => {
                proof {
                    if all_dec_digits(body) {
                        lemma_dec_value_prefix(body, i + 1 - body_lo);
                        assert(body.subrange(0, i + 1 - body_lo) =~= ext);
                        assert(dec_value(body) >= dec_value(ext));
                        assert(dec_value(ext) > u128::MAX);
                    }
                }
                return None;
            },
        }
        i = i + 1;
    }
    proof {
        assert(bytes@.subrange(body_lo, hi as int) =~= body);
    }
    Some(acc)
}

// ---------------------------------------------------------------------------
// Byte-sequence helpers
// ---------------------------------------------------------------------------

/// Appends all of `s` to `out`.
pub fn push_slice(out: &mut Vec<u8>, s: &[u8])
    ensures
        final(out)@ == old(out)@ + s@,
{
    let slen: usize = s.len();
    let mut i: usize = 0;
    proof {
        assert(out@ =~= old(out)@ + s@.subrange(0, 0));
    }
    while i < slen
        invariant
            i <= slen,
            slen == s@.len(),
            out@ == old(out)@ + s@.subrange(0, i as int),
        decreases slen - i,
    {
        out.push(s[i]);
        proof {
            assert(s@.subrange(0, i + 1 as int) =~= s@.subrange(0, i as int).push(s@[i as int]));
        }
        i = i + 1;
    }
    proof {
        assert(s@.subrange(0, slen as int) =~= s@);
    }
}

// ---------------------------------------------------------------------------
// Quote trimming
// ---------------------------------------------------------------------------

/// `s` with every leading quote byte removed.
pub open spec fn trim_quotes_front(s: Seq<u8>) -> Seq<u8>
    decreases s.len(),
{
    if s.len() > 0 && s[0] == 34 {
        trim_quotes_front(s.drop_first())
    } else {
        s
    }
}

/// `s` with every trailing quote byte removed.
pub open spec fn trim_quotes_back(s: Seq<u8>) -> Seq<u8>
    decreases s.len(),
{
    if s.len() > 0 && s.last() == 34 {
        trim_quotes_back(s.drop_last())
    } else {
        s
    }
}

/// `s` with every leading and trailing quote byte removed.
pub open spec fn trim_quotes(s: Seq<u8>) -> Seq<u8> {
    trim_quotes_back(trim_quotes_front(s))
}

/// The bounds of `bytes` once quotes are trimmed from both ends.
pub fn trim_quotes_range(bytes: &[u8]) -> (r: (usize, usize))
    ensures
        r.0 <= r.1 <= bytes@.len(),
        bytes@.subrange(r.0 as int, r.1 as int) == trim_quotes(bytes@),
{
    let blen: usize = bytes.len();
    let mut lo: usize = 0;
    let mut hi: usize = blen;
    proof {
        assert(bytes@.subrange(0, blen as int) =~= bytes@);
    }
    while lo < hi && bytes[lo] == 34
        invariant
            lo <= hi <= blen,
            blen == bytes@.len(),
            trim_quotes_front(bytes@.subrange(lo as int, hi as int)) == trim_quotes_front(bytes@),
            hi == blen,
        decreases hi - lo,
    {
        proof {
            let cur = bytes@.subrange(lo as int, hi as int);
            assert(cur[0] == bytes@[lo as int]);
            assert(cur.drop_first() =~= bytes@.subrange(lo + 1 as int, hi as int));
        }
        lo = lo + 1;
    }
    proof {
        let cur = bytes@.subrange(lo as int, hi as int);
        if cur.len() > 0 {
            assert(cur[0] == bytes@[lo as int]);
        }
        assert(trim_quotes_front(cur) == cur);
        assert(cur == trim_quotes_front(bytes@));
    }
    let ghost front = bytes@.subrange(lo as int, hi as int);
    while lo < hi && bytes[hi - 1] == 34
        invariant
            lo <= hi <= blen,
            blen == bytes@.len(),
            trim_quotes_back(bytes@.subrange(lo as int, hi as int)) == trim_quotes_back(front),
            front == trim_quotes_front(bytes@),
        decreases hi - lo,
    {
        proof {
            let cur = bytes@.subrange(lo as int, hi as int);
            assert(cur.last() == bytes@[hi - 1]);
            assert(cur.drop_last() =~= bytes@.subrange(lo as int, hi - 1));
        }
        hi = hi - 1;
    }
    proof {
        let cur = bytes@.subrange(lo as int, hi as int);
        if cur.len() > 0 {
            assert(cur.last() == bytes@[hi - 1]);
        }
        assert(trim_quotes_back(cur) == cur);
    }
    (lo, hi)
}

// ---------------------------------------------------------------------------
// Hexadecimal
// ---------------------------------------------------------------------------

/// The lowercase hexadecimal digit for the value `n` (at most fifteen).
pub open spec fn hex_digit(n: int) -> u8 {
    if n < 10 {
        (48 + n) as u8
    } else {
        (87 + n) as u8
    }
}

/// The lowercase hexadecimal rendering of `s`, two digits for each byte.
pub open spec fn hex_bytes(s: Seq<u8>) -> Seq<u8> {
    Seq::new(
        2 * s.len(),
        |i: int|
            if i % 2 == 0 {
                hex_digit(s[i / 2] as int / 16)
            } else {
                hex_digit(s[i / 2] as int % 16)
            },
    )
}

/// Appends the lowercase hexadecimal rendering of `s` to `out`.
pub fn push_hex(out: &mut Vec<u8>, s: &[u8])
    ensures
        final(out)@ == old(out)@ + hex_bytes(s@),
{
    let slen: usize = s.len();
    let mut i: usize = 0;
    proof {
        assert(out@ =~= old(out)@ + hex_bytes(s@.subrange(0, 0)));
    }
    while i < slen
        invariant
            i <= slen,
            slen == s@.len(),
            out@ == old(out)@ + hex_bytes(s@.subrange(0, i as int)),
        decreases slen - i,
    {
        let b = s[i];
        let d_hi = b / 16;
        let d_lo = b % 16;
        let c_hi = if d_hi < 10 {
            48 + d_hi
        } else {
            87 + d_hi
        };
        let c_lo = if d_lo < 10 {
            48 + d_lo
        } else {
            87 + d_lo
        };
        out.push(c_hi);
        out.push(c_lo);
        proof {
            let pre = s@.subrange(0, i as int);
            let ext = s@.subrange(0, i + 1 as int);
            assert(c_hi == hex_digit(s@[i as int] as int / 16));
            assert(c_lo == hex_digit(s@[i as int] as int % 16));
            assert(hex_bytes(ext) =~= hex_bytes(pre).push(hex_digit(s@[i as int] as int / 16)).push(
                hex_digit(s@[i as int] as int % 16),
            ));
        }
        i = i + 1;
    }
    proof {
        assert(s@.subrange(0, slen as int) =~= s@);
    }
}

/// The value of the hexadecimal digit `b`, if it is one.
pub open spec fn hex_value(b: u8) -> Option<int> {
    if 48 <= b <= 57 {
        Some((b - 48) as int)
    } else if 97 <= b <= 102 {
        Some((b - 87) as int)
    } else if 65 <= b <= 70 {
        Some((b - 55) as int)
    } else {
        None
    }
}

/// True when every byte of `s` is a hexadecimal digit, upper or lower case.
pub open spec fn all_hex_digits(s: Seq<u8>) -> bool {
    forall|i: int| 0 <= i < s.len() ==> #[trigger] hex_value(s[i]) is Some
}

/// The bytes denoted by the hexadecimal digits `s`, two digits for each byte.
pub open spec fn hex_decoded(s: Seq<u8>) -> Seq<u8> {
    Seq::new(
        s.len() / 2,
        |i: int| (hex_value(s[2 * i]).unwrap() * 16 + hex_value(s[2 * i + 1]).unwrap()) as u8,
    )
}

/// What decoding hexadecimal digits out of `s` must return.
pub open spec fn hex_decode_result(s: Seq<u8>, n: nat, r: Option<Vec<u8>>) -> bool {
    match r {
        Some(v) => s.len() == 2 * n && all_hex_digits(s) && v@ == hex_decoded(s),
        None => !(s.len() == 2 * n && all_hex_digits(s)),
    }
}

/// Decodes the given range of `bytes` as exactly `n` hexadecimal byte pairs.
pub fn parse_hex(bytes: &[u8], lo: usize, hi: usize, n: usize) -> (r: Option<Vec<u8>>)
    requires
        lo <= hi,
        hi <= bytes@.len(),
        n <= usize::MAX / 2,
    ensures
        hex_decode_result(bytes@.subrange(lo as int, hi as int), n as nat, r),
{
    let ghost s = bytes@.subrange(lo as int, hi as int);
    if hi - lo != 2 * n {
        return None;
    }
    let mut out: Vec<u8> = Vec::new();
    let mut i: usize = 0;
    while i < n
        invariant
            i <= n,
            lo + 2 * n == hi,
            hi <= bytes@.len(),
            s == bytes@.subrange(lo as int, hi as int),
            out@.len() == i,
            forall|k: int| 0 <= k < 2 * i ==> #[trigger] hex_value(s[k]) is Some,
            forall|k: int|
                0 <= k < i ==> #[trigger] out@[k] == (hex_value(s[2 * k]).unwrap() * 16
                    + hex_value(s[2 * k + 1]).unwrap()) as u8,
        decreases n - i,
    {
        let b_hi = bytes[lo + 2 * i];
        let b_lo = bytes[lo + 2 * i + 1];
        proof {
            assert(s[2 * i as int] == bytes@[lo + 2 * i]);
            assert(s[2 * i + 1 as int] == bytes@[lo + 2 * i + 1]);
        }
        let v_hi = match hex_digit_value(b_hi) {
            Some(v) => v,
            None => {
                return None;
            },
        };
        let v_lo = match hex_digit_value(b_lo) {
            Some(v) => v,
            None => {
                return None;
            },
        };
        out.push(v_hi * 16 + v_lo);
        i = i + 1;
    }
    proof {
        assert(out@ =~= hex_decoded(s));
    }
    Some(out)
}

/// The value of one hexadecimal digit byte.
fn hex_digit_value(b: u8) -> (r: Option<u8>)
    ensures
        match r {
            Some(v) => hex_value(b) == Some(v as int) && v < 16,
            None => hex_value(b) is None,
        },
{
    if 48 <= b && b <= 57 {
        Some(b - 48)
    } else if 97 <= b && b <= 102 {
        Some(b - 87)
    } else if 65 <= b && b <= 70 {
        Some(b - 55)
    } else {
        None
    }
}

// ---------------------------------------------------------------------------
// ASCII case folding
// ---------------------------------------------------------------------------

/// `b` folded to lowercase when it is an ASCII capital letter.
pub open spec fn lower_byte(b: u8) -> u8 {
    if 65 <= b <= 90 {
        (b + 32) as u8
    } else {
        b
    }
}

/// `s` with every ASCII capital letter folded to lowercase.
pub open spec fn lower_bytes(s: Seq<u8>) -> Seq<u8> {
    Seq::new(s.len(), |i: int| lower_byte(s[i]))
}

/// Folds every ASCII capital letter of `s` to lowercase.
pub fn to_lower_bytes(s: &[u8]) -> (r: Vec<u8>)
    ensures
        r@ == lower_bytes(s@),
{
    let slen: usize = s.len();
    let mut out: Vec<u8> = Vec::new();
    let mut i: usize = 0;
    while i < slen
        invariant
            i <= slen,
            slen == s@.len(),
            out@ == lower_bytes(s@.subrange(0, i as int)),
        decreases slen - i,
    {
        let b = s[i];
        let c = if 65 <= b && b <= 90 {
            b + 32
        } else {
            b
        };
        out.push(c);
        proof {
            assert(lower_bytes(s@.subrange(0, i + 1 as int)) =~= lower_bytes(
                s@.subrange(0, i as int),
            ).push(lower_byte(s@[i as int])));
        }
        i = i + 1;
    }
    proof {
        assert(s@.subrange(0, slen as int) =~= s@);
    }
    out
}

// ---------------------------------------------------------------------------
// Leading "0x" stripping
// ---------------------------------------------------------------------------

/// `s` with every leading "0x" pair of bytes removed.
pub open spec fn strip_hex_prefix(s: Seq<u8>) -> Seq<u8>
    decreases s.len(),
{
    if s.len() >= 2 && s[0] == 48 && s[1] == 120 {
        strip_hex_prefix(s.subrange(2, s.len() as int))
    } else {
        s
    }
}

/// The offset of `bytes` at which every leading "0x" pair has been passed.
pub fn strip_hex_prefix_start(bytes: &[u8]) -> (r: usize)
    ensures
        r <= bytes@.len(),
        bytes@.subrange(r as int, bytes@.len() as int) == strip_hex_prefix(bytes@),
{
    let blen: usize = bytes.len();
    let mut lo: usize = 0;
    proof {
        assert(bytes@.subrange(0, blen as int) =~= bytes@);
    }
    while blen - lo >= 2 && bytes[lo] == 48 && bytes[lo + 1] == 120
        invariant
            lo <= blen,
            blen == bytes@.len(),
            strip_hex_prefix(bytes@.subrange(lo as int, blen as int)) == strip_hex_prefix(bytes@),
        decreases blen - lo,
    {
        proof {
            let cur = bytes@.subrange(lo as int, blen as int);
            assert(cur[0] == bytes@[lo as int]);
            assert(cur[1] == bytes@[lo + 1]);
            assert(cur.subrange(2, cur.len() as int) =~= bytes@.subrange(lo + 2 as int, blen as int));
        }
        lo = lo + 2;
    }
    proof {
        let cur = bytes@.subrange(lo as int, blen as int);
        if cur.len() >= 2 {
            assert(cur[0] == bytes@[lo as int]);
            assert(cur[1] == bytes@[lo + 1]);
        }
        assert(strip_hex_prefix(cur) == cur);
    }
    lo
}

// ---------------------------------------------------------------------------
// UTF-8 and strings
// ---------------------------------------------------------------------------

#[verifier::external_type_specification]
#[verifier::external_body]
pub struct ExUtf8Error(core::str::Utf8Error);

/// Relies on `core::str::from_utf8`: it succeeds exactly on valid UTF-8 and
/// then returns a view of the same bytes.
pub assume_specification[ core::str::from_utf8 ](v: &[u8]) -> (r: Result<
    &str,
    core::str::Utf8Error,
>)
    ensures
        r is Ok <==> valid_utf8(v@),
        r matches Ok(s) ==> s.spec_bytes() == v@,
;

/// True when every byte of `s` is ASCII.
pub open spec fn all_ascii(s: Seq<u8>) -> bool {
    forall|i: int| 0 <= i < s.len() ==> #[trigger] s[i] < 128
}

/// A sequence of ASCII bytes is valid UTF-8.
pub proof fn lemma_ascii_valid_utf8(s: Seq<u8>)
    requires
        all_ascii(s),
    ensures
        valid_utf8(s),
{
    assert(s.subrange(0, 0) =~= Seq::<u8>::empty());
    assert(partial_valid_utf8(s, 0));
    assert forall|i: int| 0 <= i < s.len() implies is_leading_byte_width_1(s[i]) by {
        assert(s[i] < 128);
    }
    partial_valid_utf8_extend_ascii_block(s, 0, s.len() as int);
    assert(s.subrange(0, s.len() as int) =~= s);
}

/// Whether `bytes` holds valid UTF-8 text.
pub fn is_utf8(bytes: &[u8]) -> (r: bool)
    ensures
        r == valid_utf8(bytes@),
{
    match core::str::from_utf8(bytes) {
        Ok(_) => true,
        Err(_) => false,
    }
}

/// The bytes of `bytes` as an owned string, when they are valid UTF-8.
pub fn bytes_to_string(bytes: &[u8]) -> (r: Option<String>)
    ensures
        match r {
            Some(t) => valid_utf8(bytes@) && vstd::utf8::encode_utf8(t@) == bytes@,
            None => !valid_utf8(bytes@),
        },
{
    match core::str::from_utf8(bytes) {
        Ok(t) => Some(t.to_owned()),
        Err(_) => None,
    }
}

/// Whether two byte slices hold the same bytes.
pub fn bytes_eq(a: &[u8], b: &[u8]) -> (r: bool)
    ensures
        r == (a@ == b@),
{
    let alen: usize = a.len();
    let blen: usize = b.len();
    if alen != blen {
        proof {
            assert(a@ != b@);
        }
        return false;
    }
    let mut i: usize = 0;
    while i < alen
        invariant
            i <= alen,
            alen == a@.len(),
            alen == b@.len(),
            forall|k: int| 0 <= k < i ==> a@[k] == #[trigger] b@[k],
        decreases alen - i,
    {
        if a[i] != b[i] {
            proof {
                assert(a@[i as int] != b@[i as int]);
            }
            return false;
        }
        i = i + 1;
    }
    proof {
        assert(a@ =~= b@);
    }
    true
}

} // verus!
