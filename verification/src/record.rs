//! The text record of a call, and its strict parser.
//!
//! A record is one object in the shape
//! `{ "target": "0x<40 hex digits>", "allowFailure": true|false,
//!    "value": "<0x-hex or decimal, below 2^256>", "callData": "0x<hex pairs>" }`
//! with the members in exactly that order, the `value` member optional (an
//! absent value counts as zero), whitespace allowed between tokens, and
//! nothing after the closing brace. The accepted language and the meaning of
//! every record are given by [`parse_call_record`]; the canonical text of a
//! call, the one [`Call3::to_record_string`] writes, is [`record_text`].

use vstd::prelude::*;
use vstd::string::StringExecFns;
use vstd::string::StrSliceExecFns;
use crate::address::Address;
use crate::calls::Call3;
use crate::calls::CallView;
use crate::errors::FlashloanError;
use crate::hex::all_dec;
use crate::hex::all_hex;
use crate::hex::bytes_of_hex;
use crate::hex::dec_value;
use crate::hex::hex_char_str;
use crate::hex::hex_val;
use crate::hex::hex_val_of;
use crate::hex::dec_val;
use crate::hex::dec_val_of;
use crate::hex::is_hex_digit;
use crate::hex::is_dec_digit;
use crate::hex::lemma_hex_prefix_le;
use crate::hex::lemma_dec_prefix_le;
use crate::hex::hex_of_bytes;
use crate::hex::hex_of_nat;
use crate::hex::hex_value;
use crate::uint256::pow2_256;
use crate::uint256::U256;
use vstd::arithmetic::div_mod::lemma_fundamental_div_mod;

verus! {

/// The whitespace the record format allows between tokens.
pub open spec fn is_ws(c: char) -> bool {
    c == ' ' || c == '\t' || c == '\n' || c == '\r'
}

/// The first position at or after `i` that does not hold whitespace.
pub open spec fn skip_ws(s: Seq<char>, i: int) -> int
    decreases s.len() - i,
{
    if i < 0 || i >= s.len() {
        i
    } else if is_ws(s[i]) {
        skip_ws(s, i + 1)
    } else {
        i
    }
}

/// The first position at or after `i` that ends a quoted string's body: a
/// quote, a backslash, or the end of the text.
pub open spec fn scan_string_body(s: Seq<char>, i: int) -> int
    decreases s.len() - i,
{
    if i < 0 || i >= s.len() {
        i
    } else if s[i] == '"' || s[i] == '\\' {
        i
    } else {
        scan_string_body(s, i + 1)
    }
}

/// A quoted string with no escapes at `i`: its content and the position after
/// the closing quote.
pub open spec fn parse_string(s: Seq<char>, i: int) -> Option<(Seq<char>, int)> {
    if 0 <= i < s.len() && s[i] == '"' {
        let e = scan_string_body(s, i + 1);
        if e < s.len() && s[e] == '"' {
            Some((s.subrange(i + 1, e), e + 1))
        } else {
            None
        }
    } else {
        None
    }
}

/// A member key at `i`: the quoted key itself, then a colon; gives the
/// position of the member's value.
pub open spec fn parse_key(s: Seq<char>, i: int, key: Seq<char>) -> Option<int> {
    match parse_string(s, i) {
        Some((k, j)) => if k == key {
            let j2 = skip_ws(s, j);
            if j2 < s.len() && s[j2] == ':' {
                Some(skip_ws(s, j2 + 1))
            } else {
                None
            }
        } else {
            None
        },
        None => None,
    }
}

/// A quoted byte string at `i`: `0x` followed by an even run of hexadecimal
/// digits; gives the bytes and the position after the closing quote.
pub open spec fn parse_bytes_value(s: Seq<char>, i: int) -> Option<(Seq<u8>, int)> {
    match parse_string(s, i) {
        Some((c, j)) => if c.len() >= 2 && c[0] == '0' && c[1] == 'x' && c.len() % 2 == 0
            && all_hex(c.subrange(2, c.len() as int)) {
            Some((bytes_of_hex(c.subrange(2, c.len() as int)), j))
        } else {
            None
        },
        None => None,
    }
}

/// A quoted target address at `i`: a byte string of exactly 20 bytes.
pub open spec fn parse_target(s: Seq<char>, i: int) -> Option<(Seq<u8>, int)> {
    match parse_bytes_value(s, i) {
        Some((bytes, j)) => if bytes.len() == 20 {
            Some((bytes, j))
        } else {
            None
        },
        None => None,
    }
}

/// A quoted quantity at `i`: `0x` and hexadecimal digits, or decimal digits,
/// denoting a number below 2^256.
pub open spec fn parse_quantity(s: Seq<char>, i: int) -> Option<(nat, int)> {
    match parse_string(s, i) {
        Some((c, j)) => {
            let digits = c.subrange(2, c.len() as int);
            if c.len() >= 3 && c[0] == '0' && c[1] == 'x' && all_hex(digits) && hex_value(digits)
                < pow2_256() {
                Some((hex_value(digits), j))
            } else if c.len() >= 1 && all_dec(c) && dec_value(c) < pow2_256() {
                Some((dec_value(c), j))
            } else {
                None
            }
        },
        None => None,
    }
}

/// A bare boolean at `i`.
pub open spec fn parse_bool(s: Seq<char>, i: int) -> Option<(bool, int)> {
    if 0 <= i && i + 4 <= s.len() && s.subrange(i, i + 4) == "true"@ {
        Some((true, i + 4))
    } else if 0 <= i && i + 5 <= s.len() && s.subrange(i, i + 5) == "false"@ {
        Some((false, i + 5))
    } else {
        None
    }
}

/// The `callData` member at `i` and the closing brace, with the earlier
/// members' results handed through.
pub open spec fn parse_data_and_close(
    s: Seq<char>,
    i: int,
    target: Seq<u8>,
    allow_failure: bool,
    value: nat,
) -> Option<CallView> {
    match parse_key(s, i, "callData"@) {
        Some(j) => match parse_bytes_value(s, j) {
            Some((data, j2)) => {
                let j3 = skip_ws(s, j2);
                if j3 < s.len() && s[j3] == '}' && skip_ws(s, j3 + 1) == s.len() {
                    Some(CallView { target, allow_failure, value, data })
                } else {
                    None
                }
            },
            None => None,
        },
        None => None,
    }
}

/// The optional `value` member at `i`, then the rest of the record; an absent
/// value counts as zero.
pub open spec fn parse_value_and_data(
    s: Seq<char>,
    i: int,
    target: Seq<u8>,
    allow_failure: bool,
) -> Option<CallView> {
    match parse_key(s, i, "value"@) {
        Some(j) => match parse_quantity(s, j) {
            Some((v, j2)) => {
                let j3 = skip_ws(s, j2);
                if j3 < s.len() && s[j3] == ',' {
                    parse_data_and_close(s, skip_ws(s, j3 + 1), target, allow_failure, v)
                } else {
                    None
                }
            },
            None => None,
        },
        None => parse_data_and_close(s, i, target, allow_failure, 0),
    }
}

/// The call a text record denotes, or `None` where the text is not a record.
pub open spec fn parse_call_record(s: Seq<char>) -> Option<CallView> {
    let i = skip_ws(s, 0);
    if i < s.len() && s[i] == '{' {
        match parse_key(s, skip_ws(s, i + 1), "target"@) {
            Some(j) => match parse_target(s, j) {
                Some((target, j2)) => {
                    let j3 = skip_ws(s, j2);
                    if j3 < s.len() && s[j3] == ',' {
                        match parse_key(s, skip_ws(s, j3 + 1), "allowFailure"@) {
                            Some(j4) => match parse_bool(s, j4) {
                                Some((af, j5)) => {
                                    let j6 = skip_ws(s, j5);
                                    if j6 < s.len() && s[j6] == ',' {
                                        parse_value_and_data(s, skip_ws(s, j6 + 1), target, af)
                                    } else {
                                        None
                                    }
                                },
                                None => None,
                            },
                            None => None,
                        }
                    } else {
                        None
                    }
                },
                None => None,
            },
            None => None,
        }
    } else {
        None
    }
}

/// The canonical text record of a call: the members in their fixed order, no
/// whitespace, the value written in hexadecimal.
pub open spec fn record_text(c: CallView) -> Seq<char> {
    "{\"target\":\"0x"@ + hex_of_bytes(c.target) + "\",\"allowFailure\":"@ + (if c.allow_failure {
        "true"@
    } else {
        "false"@
    }) + ",\"value\":\"0x"@ + hex_of_nat(c.value) + "\",\"callData\":\"0x"@ + hex_of_bytes(c.data)
        + "\"}"@
}

/// Appends the hexadecimal text of the bytes, two digits a byte.
fn append_hex_of_bytes(out: &mut String, v: &Vec<u8>)
    ensures
        final(out)@ == old(out)@ + hex_of_bytes(v@),
{
    let mut i: usize = 0;
    while i < v.len()
        invariant
            i <= v.len(),
            out@ == old(out)@ + hex_of_bytes(v@.subrange(0, i as int)),
        decreases v.len() - i,
    {
        let b = v[i];
        let hi: u64 = (b / 16) as u64;
        let lo: u64 = (b % 16) as u64;
        out.append(hex_char_str(hi));
        out.append(hex_char_str(lo));
        proof {
            let pre = v@.subrange(0, i as int);
            let cur = v@.subrange(0, i + 1);
            assert(cur.drop_last() =~= pre);
            assert(cur.last() == v@[i as int]);
            assert(hex_of_bytes(cur) == hex_of_bytes(pre) + seq![
                crate::hex::hex_char_of((b / 16) as nat),
                crate::hex::hex_char_of((b % 16) as nat),
            ]);
            assert(out@ =~= old(out)@ + hex_of_bytes(cur));
        }
        i = i + 1;
    }
    proof {
        assert(v@.subrange(0, v@.len() as int) =~= v@);
    }
}

/// Appends the minimal hexadecimal text of the quantity.
fn append_hex_of_u256(out: &mut String, v: U256)
    ensures
        final(out)@ == old(out)@ + hex_of_nat(v.as_nat()),
    decreases v.as_nat(),
{
    let (q, d) = v.div_rem_16();
    proof {
        lemma_fundamental_div_mod(v.as_nat() as int, 16);
    }
    if q.is_zero() {
        out.append(hex_char_str(d));
        proof {
            assert(v.as_nat() < 16);
            assert(hex_of_nat(v.as_nat()) == seq![crate::hex::hex_char_of(v.as_nat())]);
        }
    } else {
        append_hex_of_u256(out, q);
        out.append(hex_char_str(d));
        proof {
            assert(v.as_nat() >= 16);
            assert(hex_of_nat(v.as_nat()) == hex_of_nat(v.as_nat() / 16).push(
                crate::hex::hex_char_of(v.as_nat() % 16),
            ));
            assert(out@ =~= old(out)@ + hex_of_nat(v.as_nat()));
        }
    }
}

/// The text of an optional quantity, an absent one written as zero: `0x`
/// followed by the minimal hexadecimal digits.
pub fn serialize_optional_u256(optional_uint: &Option<U256>) -> (r: String)
    ensures
        r@ == "0x"@ + hex_of_nat(
            match *optional_uint {
                Some(v) => v.as_nat(),
                None => 0,
            },
        ),
{
    let mut out = String::new();
    out.append("0x");
    let v = match optional_uint {
        Some(v) => *v,
        None => U256::zero(),
    };
    append_hex_of_u256(&mut out, v);
    out
}

impl Call3 {
    /// Writes the call as its canonical text record.
    pub fn to_record_string(&self) -> (r: String)
        ensures
            r@ == record_text(self@),
    {
        let mut out = String::new();
        out.append("{\"target\":\"0x");
        append_hex_of_bytes(&mut out, self.target.as_bytes());
        out.append("\",\"allowFailure\":");
        if self.allow_failure {
            out.append("true");
        } else {
            out.append("false");
        }
        out.append(",\"value\":\"0x");
        let v = match &self.value {
            Some(v) => *v,
            None => U256::zero(),
        };
        append_hex_of_u256(&mut out, v);
        out.append("\",\"callData\":\"0x");
        append_hex_of_bytes(&mut out, &self.data);
        out.append("\"}");
        proof {
            assert(out@ =~= record_text(self@));
        }
        out
    }
}

/// Whether the character is record whitespace.
fn ws_char(c: char) -> (r: bool)
    ensures
        r == is_ws(c),
{
    c == ' ' || c == '\t' || c == '\n' || c == '\r'
}

/// The first position at or after `i` without whitespace.
fn ws_end(v: &Vec<char>, i: usize) -> (r: usize)
    requires
        i <= v@.len(),
    ensures
        r == skip_ws(v@, i as int),
        i <= r <= v@.len(),
{
    let mut j = i;
    while j < v.len() && ws_char(v[j])
        invariant
            i <= j <= v@.len(),
            skip_ws(v@, i as int) == skip_ws(v@, j as int),
        decreases v@.len() - j,
    {
        j = j + 1;
    }
    j
}

/// Whether the characters in `[lo, hi)` spell exactly `w`.
fn chars_match(v: &Vec<char>, lo: usize, hi: usize, w: &str) -> (r: bool)
    requires
        lo <= hi <= v@.len(),
    ensures
        r == (v@.subrange(lo as int, hi as int) == w@),
{
    let n = w.unicode_len();
    if hi - lo != n {
        proof {
            assert(v@.subrange(lo as int, hi as int).len() != w@.len());
        }
        return false;
    }
    let mut k: usize = 0;
    while k < n
        invariant
            k <= n,
            n == w@.len(),
            lo + n <= hi <= v@.len(),
            hi - lo == n,
            forall|t: int| 0 <= t < k ==> v@[lo + t] == w@[t],
        decreases n - k,
    {
        if v[lo + k] != w.get_char(k) {
            proof {
                assert(v@.subrange(lo as int, hi as int)[k as int] != w@[k as int]);
            }
            return false;
        }
        k = k + 1;
    }
    proof {
        assert(v@.subrange(lo as int, hi as int) =~= w@);
    }
    true
}

/// A quoted string with no escapes at `i`: the bounds of its content.
fn parse_string_at(v: &Vec<char>, i: usize) -> (r: Option<(usize, usize)>)
    requires
        i <= v@.len(),
    ensures
        match r {
            Some((lo, hi)) => lo == i + 1 && i + 1 <= hi < v@.len() && parse_string(v@, i as int)
                == Some((v@.subrange(lo as int, hi as int), (hi + 1) as int)),
            None => parse_string(v@, i as int) is None,
        },
{
    if i >= v.len() {
        return None;
    }
    if v[i] != '"' {
        return None;
    }
    let mut j = i + 1;
    while j < v.len() && v[j] != '"' && v[j] != '\\'
        invariant
            i + 1 <= j <= v@.len(),
            i < v@.len(),
            v@[i as int] == '"',
            scan_string_body(v@, (i + 1) as int) == scan_string_body(v@, j as int),
        decreases v@.len() - j,
    {
        j = j + 1;
    }
    if j < v.len() && v[j] == '"' {
        Some((i + 1, j))
    } else {
        None
    }
}

/// A member key at `i`: the quoted key, a colon, and the whitespace around
/// them; gives the position of the member's value.
fn parse_key_at(v: &Vec<char>, i: usize, key: &str) -> (r: Option<usize>)
    requires
        i <= v@.len(),
    ensures
        match r {
            Some(j) => parse_key(v@, i as int, key@) == Some(j as int) && j <= v@.len(),
            None => parse_key(v@, i as int, key@) is None,
        },
{
    let (lo, hi) = match parse_string_at(v, i) {
        Some(p) => p,
        None => {
            return None;
        },
    };
    if !chars_match(v, lo, hi, key) {
        return None;
    }
    let n = v.len();
    let j2 = ws_end(v, hi + 1);
    if j2 < n {
        if v[j2] == ':' {
            return Some(ws_end(v, j2 + 1));
        }
    }
    None
}

/// A bare boolean at `i`.
fn parse_bool_at(v: &Vec<char>, i: usize) -> (r: Option<(bool, usize)>)
    requires
        i <= v@.len(),
    ensures
        match r {
            Some((b, j)) => parse_bool(v@, i as int) == Some((b, j as int)) && j <= v@.len(),
            None => parse_bool(v@, i as int) is None,
        },
{
    if v.len() - i >= 4 && chars_match(v, i, i + 4, "true") {
        return Some((true, i + 4));
    }
    if v.len() - i >= 5 && chars_match(v, i, i + 5, "false") {
        return Some((false, i + 5));
    }
    None
}

/// The bytes an even run of hexadecimal digits in `[lo, hi)` denotes.
fn decode_hex(v: &Vec<char>, lo: usize, hi: usize) -> (r: Vec<u8>)
    requires
        lo <= hi <= v@.len(),
        (hi - lo) % 2 == 0,
        all_hex(v@.subrange(lo as int, hi as int)),
    ensures
        r@ == bytes_of_hex(v@.subrange(lo as int, hi as int)),
{
    let ghost digits = v@.subrange(lo as int, hi as int);
    let mut out: Vec<u8> = Vec::new();
    let mut k = lo;
    while k < hi
        invariant
            lo <= k <= hi <= v@.len(),
            (hi - lo) % 2 == 0,
            (k - lo) % 2 == 0,
            digits == v@.subrange(lo as int, hi as int),
            all_hex(digits),
            out@.len() == (k - lo) as int / 2,
            forall|t: int| 0 <= t < out@.len() ==> out@[t] == (hex_val_of(v@[lo + 2 * t]) * 16
                + hex_val_of(v@[lo + 2 * t + 1])) as u8,
        decreases hi - k,
    {
        proof {
            assert(((hi - k) % 2) == 0) by {
                assert(hi - k == (hi - lo) - (k - lo));
            }
            assert(hi - k >= 2);
            assert(is_hex_digit(digits[(k - lo) as int]));
            assert(is_hex_digit(digits[(k - lo + 1) as int]));
            assert(v@[k as int] == digits[(k - lo) as int]);
            assert(v@[(k + 1) as int] == digits[(k - lo + 1) as int]);
        }
        let d1 = hex_val(v[k]);
        let d2 = hex_val(v[k + 1]);
        let b: u64 = d1 * 16 + d2;
        out.push(b as u8);
        k = k + 2;
    }
    proof {
        assert(out@ =~= bytes_of_hex(digits));
    }
    out
}

/// A quoted byte string at `i`: the bytes and the position after it.
fn parse_bytes_value_at(v: &Vec<char>, i: usize) -> (r: Option<(Vec<u8>, usize)>)
    requires
        i <= v@.len(),
    ensures
        match r {
            Some((bytes, j)) => parse_bytes_value(v@, i as int) == Some((bytes@, j as int)) && j
                <= v@.len(),
            None => parse_bytes_value(v@, i as int) is None,
        },
{
    let (lo, hi) = match parse_string_at(v, i) {
        Some(p) => p,
        None => {
            return None;
        },
    };
    let n = v.len();
    let ghost c = v@.subrange(lo as int, hi as int);
    proof {
        assert(c.len() == hi - lo);
        if hi - lo >= 1 {
            assert(c[0] == v@[lo as int]);
        }
        if hi - lo >= 2 {
            assert(c[1] == v@[(lo + 1) as int]);
        }
    }
    if hi - lo < 2 {
        return None;
    }
    if v[lo] != '0' || v[lo + 1] != 'x' {
        return None;
    }
    if (hi - lo) % 2 != 0 {
        return None;
    }
    let mut k = lo + 2;
    while k < hi
        invariant
            lo + 2 <= k <= hi <= v@.len(),
            c == v@.subrange(lo as int, hi as int),
            parse_string(v@, i as int) == Some((c, (hi + 1) as int)),
            forall|t: int| lo + 2 <= t < k ==> is_hex_digit(#[trigger] v@[t]),
        decreases hi - k,
    {
        if hex_val(v[k]) == 16 {
            proof {
                assert(c.subrange(2, c.len() as int)[(k - lo - 2) as int] == c[(k - lo) as int]);
                assert(c[(k - lo) as int] == v@[k as int]);
                assert(!all_hex(c.subrange(2, c.len() as int)));
            }
            return None;
        }
        k = k + 1;
    }
    proof {
        assert(c.subrange(2, c.len() as int) =~= v@.subrange((lo + 2) as int, hi as int));
        assert(all_hex(c.subrange(2, c.len() as int)));
    }
    let bytes = decode_hex(v, lo + 2, hi);
    proof {
        assert(parse_bytes_value(v@, i as int) == Some((bytes@, (hi + 1) as int)));
    }
    Some((bytes, hi + 1))
}

/// A quoted quantity at `i`: the number and the position after it.
fn parse_quantity_at(v: &Vec<char>, i: usize) -> (r: Option<(U256, usize)>)
    requires
        i <= v@.len(),
    ensures
        match r {
            Some((u, j)) => parse_quantity(v@, i as int) == Some((u.as_nat(), j as int)) && j
                <= v@.len(),
            None => parse_quantity(v@, i as int) is None,
        },
{
    let (lo, hi) = match parse_string_at(v, i) {
        Some(p) => p,
        None => {
            return None;
        },
    };
    let n = v.len();
    let ghost c = v@.subrange(lo as int, hi as int);
    proof {
        assert(c.len() == hi - lo);
        if hi - lo >= 1 {
            assert(c[0] == v@[lo as int]);
        }
        if hi - lo >= 2 {
            assert(c[1] == v@[(lo + 1) as int]);
        }
    }
    if hi - lo >= 3 && v[lo] == '0' && v[lo + 1] == 'x' {
        let ghost digits = c.subrange(2, c.len() as int);
        proof {
            assert(digits =~= v@.subrange((lo + 2) as int, hi as int));
            assert(c[1] == 'x');
            assert(!is_dec_digit('x'));
            assert(!all_dec(c));
        }
        let mut acc = U256::zero();
        let mut k = lo + 2;
        while k < hi
            invariant
                lo + 2 <= k <= hi <= v@.len(),
                c == v@.subrange(lo as int, hi as int),
                digits == c.subrange(2, c.len() as int),
                digits == v@.subrange((lo + 2) as int, hi as int),
                parse_string(v@, i as int) == Some((c, (hi + 1) as int)),
                c.len() >= 3 && c[0] == '0' && c[1] == 'x',
                !all_dec(c),
                forall|t: int| lo + 2 <= t < k ==> is_hex_digit(#[trigger] v@[t]),
                acc.as_nat() == hex_value(v@.subrange((lo + 2) as int, k as int)),
                acc.as_nat() < pow2_256(),
            decreases hi - k,
        {
            let d = hex_val(v[k]);
            if d == 16 {
                proof {
                    assert(digits[(k - lo - 2) as int] == c[(k - lo) as int]);
                    assert(c[(k - lo) as int] == v@[k as int]);
                    assert(!all_hex(digits));
                }
                return None;
            }
            let ghost pre = v@.subrange((lo + 2) as int, k as int);
            let ghost cur = v@.subrange((lo + 2) as int, (k + 1) as int);
            proof {
                assert(cur.drop_last() =~= pre);
                assert(cur.last() == v@[k as int]);
                assert(hex_value(cur) == hex_value(pre) * 16 + hex_val_of(v@[k as int]));
            }
            match acc.checked_mul_small_add(16, d) {
                Some(a) => {
                    acc = a;
                },
                None => {
                    proof {
                        assert(hex_value(cur) >= pow2_256());
                        assert(cur =~= digits.subrange(0, (k + 1 - lo - 2) as int));
                        lemma_hex_prefix_le(digits, (k + 1 - lo - 2) as int);
                        assert(hex_value(digits) >= pow2_256());
                    }
                    return None;
                },
            }
            k = k + 1;
        }
        proof {
            assert(v@.subrange((lo + 2) as int, hi as int) =~= digits);
            assert(all_hex(digits));
            assert(parse_quantity(v@, i as int) == Some((acc.as_nat(), (hi + 1) as int)));
        }
        Some((acc, hi + 1))
    } else {
        proof {
            assert(!(c.len() >= 3 && c[0] == '0' && c[1] == 'x'));
        }
        if hi - lo < 1 {
            return None;
        }
        let mut acc = U256::zero();
        let mut k = lo;
        while k < hi
            invariant
                lo <= k <= hi <= v@.len(),
                c == v@.subrange(lo as int, hi as int),
                parse_string(v@, i as int) == Some((c, (hi + 1) as int)),
                hi - lo >= 1,
                !(c.len() >= 3 && c[0] == '0' && c[1] == 'x'),
                forall|t: int| lo <= t < k ==> is_dec_digit(#[trigger] v@[t]),
                acc.as_nat() == dec_value(v@.subrange(lo as int, k as int)),
                acc.as_nat() < pow2_256(),
            decreases hi - k,
        {
            let d = dec_val(v[k]);
            if d == 10 {
                proof {
                    assert(c[(k - lo) as int] == v@[(lo + (k - lo)) as int]);
                    assert(c[(k - lo) as int] == v@[k as int]);
                    assert(!all_dec(c));
                }
                return None;
            }
            let ghost pre = v@.subrange(lo as int, k as int);
            let ghost cur = v@.subrange(lo as int, (k + 1) as int);
            proof {
                assert(cur.drop_last() =~= pre);
                assert(cur.last() == v@[k as int]);
                assert(dec_value(cur) == dec_value(pre) * 10 + dec_val_of(v@[k as int]));
            }
            match acc.checked_mul_small_add(10, d) {
                Some(a) => {
                    acc = a;
                },
                None => {
                    proof {
                        assert(dec_value(cur) >= pow2_256());
                        assert(cur =~= c.subrange(0, (k + 1 - lo) as int));
                        lemma_dec_prefix_le(c, (k + 1 - lo) as int);
                        assert(dec_value(c) >= pow2_256());
                    }
                    return None;
                },
            }
            k = k + 1;
        }
        proof {
            assert(v@.subrange(lo as int, hi as int) =~= c);
            assert(all_dec(c));
            assert(parse_quantity(v@, i as int) == Some((acc.as_nat(), (hi + 1) as int)));
        }
        Some((acc, hi + 1))
    }
}

/// The call the characters denote, or `None` where they are no record.
fn parse_record_chars(v: &Vec<char>) -> (r: Option<Call3>)
    ensures
        match r {
            Some(c) => parse_call_record(v@) == Some(c@) && c.wf(),
            None => parse_call_record(v@) is None,
        },
{
    let i = ws_end(v, 0);
    if i >= v.len() {
        return None;
    }
    if v[i] != '{' {
        return None;
    }
    let j = match parse_key_at(v, ws_end(v, i + 1), "target") {
        Some(j) => j,
        None => {
            return None;
        },
    };
    let (target_bytes, j2) = match parse_bytes_value_at(v, j) {
        Some(p) => p,
        None => {
            return None;
        },
    };
    if target_bytes.len() != 20 {
        return None;
    }
    let target = match Address::from_bytes(target_bytes) {
        Some(a) => a,
        // twenty bytes always form an address
        None => {
            proof {
                assert(false);
            }
            return None;
        },
    };
    let j3 = ws_end(v, j2);
    if j3 >= v.len() {
        return None;
    }
    if v[j3] != ',' {
        return None;
    }
    let j4 = match parse_key_at(v, ws_end(v, j3 + 1), "allowFailure") {
        Some(j) => j,
        None => {
            return None;
        },
    };
    let (af, j5) = match parse_bool_at(v, j4) {
        Some(p) => p,
        None => {
            return None;
        },
    };
    let j6 = ws_end(v, j5);
    if j6 >= v.len() {
        return None;
    }
    if v[j6] != ',' {
        return None;
    }
    let j7 = ws_end(v, j6 + 1);
    let (value_field, j8): (Option<U256>, usize) = match parse_key_at(v, j7, "value") {
        Some(jv) => {
            let (u, jv2) = match parse_quantity_at(v, jv) {
                Some(p) => p,
                None => {
                    return None;
                },
            };
            let jv3 = ws_end(v, jv2);
            if jv3 >= v.len() {
                return None;
            }
            if v[jv3] != ',' {
                return None;
            }
            (Some(u), ws_end(v, jv3 + 1))
        },
        None => (None, j7),
    };
    let j9 = match parse_key_at(v, j8, "callData") {
        Some(j) => j,
        None => {
            return None;
        },
    };
    let (data, j10) = match parse_bytes_value_at(v, j9) {
        Some(p) => p,
        None => {
            return None;
        },
    };
    let j11 = ws_end(v, j10);
    if j11 >= v.len() {
        return None;
    }
    if v[j11] != '}' {
        return None;
    }
    if ws_end(v, j11 + 1) != v.len() {
        return None;
    }
    Some(Call3 { target, allow_failure: af, value: value_field, data })
}

/// The characters of the text, in order.
fn str_to_chars(s: &str) -> (r: Vec<char>)
    ensures
        r@ == s@,
{
    let n = s.unicode_len();
    let mut out: Vec<char> = Vec::new();
    let mut i: usize = 0;
    while i < n
        invariant
            i <= n,
            n == s@.len(),
            out@ == s@.subrange(0, i as int),
        decreases n - i,
    {
        out.push(s.get_char(i));
        proof {
            assert(out@ =~= s@.subrange(0, (i + 1) as int));
        }
        i = i + 1;
    }
    proof {
        assert(s@.subrange(0, s@.len() as int) =~= s@);
    }
    out
}

impl Call3 {
    /// Parses a call from its text record; failure carries the offending
    /// input and never panics.
    pub fn try_from(text: &str) -> (r: Result<Call3, FlashloanError>)
        ensures
            match r {
                Ok(c) => parse_call_record(text@) == Some(c@) && c.wf(),
                Err(e) => parse_call_record(text@) is None && (e matches
                    FlashloanError::CallConstructionError(t) && t@ == text@),
            },
    {
        let chars = str_to_chars(text);
        match parse_record_chars(&chars) {
            Some(c) => Ok(c),
            None => Err(FlashloanError::CallConstructionError(text.to_owned())),
        }
    }
}


/// Scanning a string body of plain characters stops at the closing quote.
proof fn lemma_scan_body(s: Seq<char>, i: int, e: int)
    requires
        0 <= i <= e < s.len(),
        forall|j: int| i <= j < e ==> s[j] != '"' && s[j] != '\\',
        s[e] == '"',
    ensures
        scan_string_body(s, i) == e,
    decreases e - i,
{
    if i < e {
        lemma_scan_body(s, i + 1, e);
    }
}

/// Parsing a quoted run of plain characters gives exactly that content and
/// stops right after the closing quote.
proof fn lemma_parse_string_exact(s: Seq<char>, i: int, content: Seq<char>)
    requires
        0 <= i,
        i + content.len() + 2 <= s.len(),
        s[i] == '"',
        s[i + content.len() + 1] == '"',
        forall|j: int| 0 <= j < content.len() ==> s[i + 1 + j] == content[j],
        forall|j: int| 0 <= j < content.len() ==> content[j] != '"' && content[j] != '\\',
    ensures
        parse_string(s, i) == Some((content, i + content.len() + 2)),
{
    let e = i + 1 + content.len();
    assert forall|j: int| i + 1 <= j < e implies s[j] != '"' && s[j] != '\\' by {
        assert(s[j] == content[j - i - 1]);
    }
    lemma_scan_body(s, i + 1, e);
    assert(s.subrange(i + 1, e) =~= content);
}

/// The width of the boolean's text.
pub open spec fn bool_text_len(allow_failure: bool) -> int {
    if allow_failure {
        4
    } else {
        5
    }
}

/// The front of a canonical record parses as written: the brace, the target
/// member, and the allow-failure member, each at its fixed position.
#[verifier::rlimit(100)]
proof fn lemma_round_trip_head(c: CallView)
    requires
        c.target.len() == 20,
    ensures
        ({
            let s = record_text(c);
            &&& s.len() > 54
            &&& skip_ws(s, 0) == 0
            &&& s[0] == '{'
            &&& skip_ws(s, 1) == 1
            &&& parse_key(s, 1, "target"@) == Some(10int)
            &&& parse_target(s, 10) == Some((c.target, 54int))
            &&& skip_ws(s, 54) == 54
            &&& s[54] == ','
            &&& skip_ws(s, 55) == 55
            &&& parse_key(s, 55, "allowFailure"@) == Some(70int)
            &&& parse_bool(s, 70) == Some((c.allow_failure, 70 + bool_text_len(c.allow_failure)))
        }),
{
    let s = record_text(c);
    let a1 = "{\"target\":\"0x"@;
    let a2 = "\",\"allowFailure\":"@;
    let a3 = ",\"value\":\"0x"@;
    let a4 = "\",\"callData\":\"0x"@;
    let a5 = "\"}"@;
    let t = hex_of_bytes(c.target);
    let b: Seq<char> = if c.allow_failure { "true"@ } else { "false"@ };
    let w = hex_of_nat(c.value);
    let d = hex_of_bytes(c.data);
    crate::hex::lemma_hex_of_bytes(c.target);
    crate::hex::lemma_hex_of_nat(c.value);
    reveal_strlit("{\"target\":\"0x");
    reveal_strlit("\",\"allowFailure\":");
    reveal_strlit("true");
    reveal_strlit("false");
    reveal_strlit(",\"value\":\"0x");
    reveal_strlit("\",\"callData\":\"0x");
    reveal_strlit("\"}");
    reveal_strlit("target");
    reveal_strlit("allowFailure");
    assert(a1.len() == 13);
    assert(a2.len() == 17);
    assert(a3.len() == 12);
    assert(a4.len() == 16);
    assert(a5.len() == 2);
    assert(t.len() == 40);
    let tb = bool_text_len(c.allow_failure);
    assert(b.len() == tb);
    assert(s == a1 + t + a2 + b + a3 + w + a4 + d + a5);
    assert(s.len() == 70 + tb + 12 + w.len() + 16 + d.len() + 2);
    assert forall|j: int| 0 <= j < 13 implies s[j] == a1[j] by {}
    assert forall|j: int| 0 <= j < 40 implies s[13 + j] == t[j] by {}
    assert forall|j: int| 0 <= j < 17 implies s[53 + j] == a2[j] by {}
    assert forall|j: int| 0 <= j < tb implies s[70 + j] == b[j] by {}
    // the opening brace
    assert(s[0] == '{');
    assert(skip_ws(s, 0) == 0);
    assert(skip_ws(s, 1) == 1);
    // the target member
    assert(s[1] == '"');
    assert(s[8] == '"');
    assert forall|j: int| 0 <= j < 6 implies s[2 + j] == "target"@[j] by {
        assert(s[2 + j] == a1[2 + j]);
    }
    lemma_parse_string_exact(s, 1, "target"@);
    assert(s[9] == ':');
    assert(skip_ws(s, 9) == 9);
    assert(s[10] == '"');
    assert(skip_ws(s, 10) == 10);
    assert(parse_key(s, 1, "target"@) == Some(10int));
    // the target value: a quoted byte string
    let ct = seq!['0', 'x'] + t;
    assert(s[53] == '"');
    assert forall|j: int| 0 <= j < 42 implies s[11 + j] == ct[j] by {
        if j == 0 {
            assert(s[11] == a1[11]);
        } else if j == 1 {
            assert(s[12] == a1[12]);
        } else {
            assert(s[11 + j] == t[j - 2]);
        }
    }
    assert forall|j: int| 0 <= j < 42 implies ct[j] != '"' && ct[j] != '\\' by {
        if j >= 2 {
            assert(ct[j] == t[j - 2]);
        }
    }
    lemma_parse_string_exact(s, 10, ct);
    assert(ct.subrange(2, 42) =~= t);
    assert(parse_bytes_value(s, 10) == Some((bytes_of_hex(t), 54int)));
    assert(bytes_of_hex(t) == c.target);
    assert(parse_target(s, 10) == Some((c.target, 54int)));
    // the comma and the allowFailure member
    assert(s[54] == ',');
    assert(skip_ws(s, 54) == 54);
    assert(s[55] == '"');
    assert(skip_ws(s, 55) == 55);
    assert(s[68] == '"');
    assert forall|j: int| 0 <= j < 12 implies s[56 + j] == "allowFailure"@[j] by {
        assert(s[56 + j] == a2[3 + j]);
    }
    lemma_parse_string_exact(s, 55, "allowFailure"@);
    assert(s[69] == ':');
    assert(skip_ws(s, 69) == 69);
    assert(s[70] == b[0]);
    assert(skip_ws(s, 70) == 70);
    assert(parse_key(s, 55, "allowFailure"@) == Some(70int));
    // the boolean
    if c.allow_failure {
        assert(s.subrange(70, 74) =~= "true"@);
        assert(parse_bool(s, 70) == Some((true, 74int)));
    } else {
        let fr = s.subrange(70, 74);
        assert(fr[0] == 'f');
        assert(fr != "true"@);
        assert(s.subrange(70, 75) =~= "false"@);
        assert(parse_bool(s, 70) == Some((false, 75int)));
    }
}

/// The back of a canonical record parses as written: the value member, the
/// payload member, and the closing brace.
#[verifier::rlimit(100)]
proof fn lemma_round_trip_tail(c: CallView)
    requires
        c.target.len() == 20,
        c.value < pow2_256(),
    ensures
        ({
            let s = record_text(c);
            let q0 = 70 + bool_text_len(c.allow_failure);
            &&& q0 < s.len()
            &&& skip_ws(s, q0) == q0
            &&& s[q0] == ','
            &&& skip_ws(s, q0 + 1) == q0 + 1
            &&& parse_value_and_data(s, q0 + 1, c.target, c.allow_failure) == Some(c)
        }),
{
    let s = record_text(c);
    let a1 = "{\"target\":\"0x"@;
    let a2 = "\",\"allowFailure\":"@;
    let a3 = ",\"value\":\"0x"@;
    let a4 = "\",\"callData\":\"0x"@;
    let a5 = "\"}"@;
    let t = hex_of_bytes(c.target);
    let b: Seq<char> = if c.allow_failure { "true"@ } else { "false"@ };
    let w = hex_of_nat(c.value);
    let d = hex_of_bytes(c.data);
    crate::hex::lemma_hex_of_bytes(c.target);
    crate::hex::lemma_hex_of_nat(c.value);
    crate::hex::lemma_hex_of_bytes(c.data);
    reveal_strlit("{\"target\":\"0x");
    reveal_strlit("\",\"allowFailure\":");
    reveal_strlit("true");
    reveal_strlit("false");
    reveal_strlit(",\"value\":\"0x");
    reveal_strlit("\",\"callData\":\"0x");
    reveal_strlit("\"}");
    reveal_strlit("value");
    reveal_strlit("callData");
    assert(a1.len() == 13);
    assert(a2.len() == 17);
    assert(a3.len() == 12);
    assert(a4.len() == 16);
    assert(a5.len() == 2);
    assert(t.len() == 40);
    let tb = bool_text_len(c.allow_failure);
    assert(b.len() == tb);
    let dv = w.len() as int;
    let dl = d.len() as int;
    let q0 = 70 + tb;
    let q1 = q0 + 12 + dv;
    let q2 = q1 + 16 + dl;
    assert(s == a1 + t + a2 + b + a3 + w + a4 + d + a5);
    assert(s.len() == q2 + 2);
    assert forall|j: int| 0 <= j < 12 implies s[q0 + j] == a3[j] by {}
    assert forall|j: int| 0 <= j < dv implies s[q0 + 12 + j] == w[j] by {}
    assert forall|j: int| 0 <= j < 16 implies s[q1 + j] == a4[j] by {}
    assert forall|j: int| 0 <= j < dl implies s[q1 + 16 + j] == d[j] by {}
    assert forall|j: int| 0 <= j < 2 implies s[q2 + j] == a5[j] by {}
    // the comma and the value member
    assert(s[q0] == ',');
    assert(skip_ws(s, q0) == q0);
    assert(s[q0 + 1] == '"');
    assert(skip_ws(s, q0 + 1) == q0 + 1);
    assert(s[q0 + 7] == '"');
    assert forall|j: int| 0 <= j < 5 implies s[q0 + 2 + j] == "value"@[j] by {
        assert(s[q0 + 2 + j] == a3[2 + j]);
    }
    lemma_parse_string_exact(s, q0 + 1, "value"@);
    assert(s[q0 + 8] == ':');
    assert(skip_ws(s, q0 + 8) == q0 + 8);
    assert(s[q0 + 9] == '"');
    assert(skip_ws(s, q0 + 9) == q0 + 9);
    assert(parse_key(s, q0 + 1, "value"@) == Some(q0 + 9));
    // the quantity
    let cw = seq!['0', 'x'] + w;
    assert(s[q0 + 12 + dv] == '"') by {
        assert(s[q1] == a4[0]);
    }
    assert forall|j: int| 0 <= j < cw.len() implies s[q0 + 10 + j] == cw[j] by {
        if j == 0 {
            assert(s[q0 + 10] == a3[10]);
        } else if j == 1 {
            assert(s[q0 + 11] == a3[11]);
        } else {
            assert(s[q0 + 10 + j] == w[j - 2]);
        }
    }
    assert forall|j: int| 0 <= j < cw.len() implies cw[j] != '"' && cw[j] != '\\' by {
        if j >= 2 {
            assert(cw[j] == w[j - 2]);
        }
    }
    lemma_parse_string_exact(s, q0 + 9, cw);
    assert(cw.subrange(2, cw.len() as int) =~= w);
    assert(all_hex(w));
    assert(hex_value(w) == c.value);
    assert(cw[0] == '0' && cw[1] == 'x');
    assert(parse_quantity(s, q0 + 9) == Some((c.value, q1 + 1)));
    // the comma and the callData member
    assert(s[q1 + 1] == ',');
    assert(skip_ws(s, q1 + 1) == q1 + 1);
    assert(s[q1 + 2] == '"');
    assert(skip_ws(s, q1 + 2) == q1 + 2);
    assert(s[q1 + 11] == '"');
    assert forall|j: int| 0 <= j < 8 implies s[q1 + 3 + j] == "callData"@[j] by {
        assert(s[q1 + 3 + j] == a4[3 + j]);
    }
    lemma_parse_string_exact(s, q1 + 2, "callData"@);
    assert(s[q1 + 12] == ':');
    assert(skip_ws(s, q1 + 12) == q1 + 12);
    assert(s[q1 + 13] == '"');
    assert(skip_ws(s, q1 + 13) == q1 + 13);
    assert(parse_key(s, q1 + 2, "callData"@) == Some(q1 + 13));
    // the payload: a quoted byte string
    let cd = seq!['0', 'x'] + d;
    assert(s[q1 + 16 + dl] == '"') by {
        assert(s[q2] == a5[0]);
    }
    assert forall|j: int| 0 <= j < cd.len() implies s[q1 + 14 + j] == cd[j] by {
        if j == 0 {
            assert(s[q1 + 14] == a4[14]);
        } else if j == 1 {
            assert(s[q1 + 15] == a4[15]);
        } else {
            assert(s[q1 + 14 + j] == d[j - 2]);
        }
    }
    assert forall|j: int| 0 <= j < cd.len() implies cd[j] != '"' && cd[j] != '\\' by {
        if j >= 2 {
            assert(cd[j] == d[j - 2]);
        }
    }
    lemma_parse_string_exact(s, q1 + 13, cd);
    assert(cd.subrange(2, cd.len() as int) =~= d);
    assert(cd.len() % 2 == 0);
    assert(parse_bytes_value(s, q1 + 13) == Some((bytes_of_hex(d), q2 + 1)));
    assert(bytes_of_hex(d) == c.data);
    // the closing brace and the end
    assert(s[q2 + 1] == '}');
    assert(skip_ws(s, q2 + 1) == q2 + 1);
    assert(skip_ws(s, q2 + 2) == s.len());
    assert(parse_data_and_close(s, q1 + 2, c.target, c.allow_failure, c.value) == Some(
        CallView { target: c.target, allow_failure: c.allow_failure, value: c.value, data: c.data },
    ));
    assert(CallView {
        target: c.target,
        allow_failure: c.allow_failure,
        value: c.value,
        data: c.data,
    } == c);
}

/// A call serialized as its canonical record parses back to exactly the call
/// it came from: target, allow-failure flag, value, and payload all read back
/// unchanged. Twenty target bytes and a value below 2^256 are what a
/// well-formed call holds.
pub proof fn lemma_record_round_trip(c: CallView)
    requires
        c.target.len() == 20,
        c.value < pow2_256(),
    ensures
        parse_call_record(record_text(c)) == Some(c),
{
    let s = record_text(c);
    lemma_round_trip_head(c);
    lemma_round_trip_tail(c);
    let q0 = 70 + bool_text_len(c.allow_failure);
    assert(parse_bool(s, 70) == Some((c.allow_failure, q0)));
    assert(parse_value_and_data(s, q0 + 1, c.target, c.allow_failure) == Some(c));
    assert(parse_call_record(s) == Some(c));
}

} // verus!
