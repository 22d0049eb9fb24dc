//! Hexadecimal and decimal digits, and the text form of byte strings and
//! quantities, as the call record format uses them.

use vstd::prelude::*;
use vstd::arithmetic::div_mod::lemma_fundamental_div_mod;
use vstd::arithmetic::div_mod::lemma_div_decreases;

verus! {

/// The lowercase hexadecimal digit of a value below 16 (and of nothing else).
pub open spec fn hex_char_of(d: nat) -> char {
    if d == 0 {
        '0'
    } else if d == 1 {
        '1'
    } else if d == 2 {
        '2'
    } else if d == 3 {
        '3'
    } else if d == 4 {
        '4'
    } else if d == 5 {
        '5'
    } else if d == 6 {
        '6'
    } else if d == 7 {
        '7'
    } else if d == 8 {
        '8'
    } else if d == 9 {
        '9'
    } else if d == 10 {
        'a'
    } else if d == 11 {
        'b'
    } else if d == 12 {
        'c'
    } else if d == 13 {
        'd'
    } else if d == 14 {
        'e'
    } else {
        'f'
    }
}

/// The value of a hexadecimal digit, either case; 16 for any other character.
pub open spec fn hex_val_of(c: char) -> nat {
    let n = c as int;
    if 48 <= n <= 57 {
        (n - 48) as nat
    } else if 97 <= n <= 102 {
        (n - 87) as nat
    } else if 65 <= n <= 70 {
        (n - 55) as nat
    } else {
        16
    }
}

/// Whether the character is a hexadecimal digit.
pub open spec fn is_hex_digit(c: char) -> bool {
    hex_val_of(c) < 16
}

/// The value of a decimal digit; 10 for any other character.
pub open spec fn dec_val_of(c: char) -> nat {
    let n = c as int;
    if 48 <= n <= 57 {
        (n - 48) as nat
    } else {
        10
    }
}

/// Whether the character is a decimal digit.
pub open spec fn is_dec_digit(c: char) -> bool {
    dec_val_of(c) < 10
}

/// Whether every character of the sequence is a hexadecimal digit.
pub open spec fn all_hex(s: Seq<char>) -> bool {
    forall|i: int| 0 <= i < s.len() ==> is_hex_digit(#[trigger] s[i])
}

/// Whether every character of the sequence is a decimal digit.
pub open spec fn all_dec(s: Seq<char>) -> bool {
    forall|i: int| 0 <= i < s.len() ==> is_dec_digit(#[trigger] s[i])
}

/// The number a run of hexadecimal digits denotes, most significant first.
pub open spec fn hex_value(s: Seq<char>) -> nat
    decreases s.len(),
{
    if s.len() == 0 {
        0
    } else {
        hex_value(s.drop_last()) * 16 + hex_val_of(s.last())
    }
}

/// The number a run of decimal digits denotes, most significant first.
pub open spec fn dec_value(s: Seq<char>) -> nat
    decreases s.len(),
{
    if s.len() == 0 {
        0
    } else {
        dec_value(s.drop_last()) * 10 + dec_val_of(s.last())
    }
}

/// The hexadecimal text of a byte string: two digits for each byte, in order.
pub open spec fn hex_of_bytes(s: Seq<u8>) -> Seq<char>
    decreases s.len(),
{
    if s.len() == 0 {
        Seq::empty()
    } else {
        hex_of_bytes(s.drop_last()) + seq![
            hex_char_of((s.last() / 16) as nat),
            hex_char_of((s.last() % 16) as nat),
        ]
    }
}

/// The byte string a run of hexadecimal digit pairs denotes.
pub open spec fn bytes_of_hex(s: Seq<char>) -> Seq<u8> {
    Seq::new(s.len() / 2, |k: int| (hex_val_of(s[2 * k]) * 16 + hex_val_of(s[2 * k + 1])) as u8)
}

/// The minimal hexadecimal text of a number: no leading zero except for the
/// number zero itself.
pub open spec fn hex_of_nat(n: nat) -> Seq<char>
    decreases n,
{
    if n < 16 {
        seq![hex_char_of(n)]
    } else {
        hex_of_nat(n / 16).push(hex_char_of(n % 16))
    }
}

/// A digit below 16 reads back as itself, and its character is a plain
/// hexadecimal digit: not a quote, a backslash, or a whitespace character.
pub proof fn lemma_hex_char_of(d: nat)
    requires
        d < 16,
    ensures
        hex_val_of(hex_char_of(d)) == d,
        is_hex_digit(hex_char_of(d)),
        hex_char_of(d) != '"',
        hex_char_of(d) != '\\',
{
}

/// The hexadecimal text of a byte string is twice as long, made of plain
/// hexadecimal digits, and reads back as the bytes it came from.
pub proof fn lemma_hex_of_bytes(s: Seq<u8>)
    ensures
        hex_of_bytes(s).len() == 2 * s.len(),
        all_hex(hex_of_bytes(s)),
        forall|i: int| 0 <= i < 2 * s.len() ==> #[trigger] hex_of_bytes(s)[i] != '"'
            && hex_of_bytes(s)[i] != '\\',
        bytes_of_hex(hex_of_bytes(s)) =~= s,
    decreases s.len(),
{
    if s.len() == 0 {
    } else {
        let pre = s.drop_last();
        lemma_hex_of_bytes(pre);
        let b = s.last();
        lemma_fundamental_div_mod(b as int, 16);
        lemma_hex_char_of((b / 16) as nat);
        lemma_hex_char_of((b % 16) as nat);
        let h = hex_of_bytes(s);
        assert(forall|i: int| 0 <= i < 2 * pre.len() ==> h[i] == #[trigger] hex_of_bytes(pre)[i]);
        assert forall|k: int| 0 <= k < s.len() implies bytes_of_hex(h)[k] == s[k] by {
            if k < pre.len() {
                assert(bytes_of_hex(hex_of_bytes(pre))[k] == pre[k]);
            } else {
                assert(h[2 * k] == hex_char_of((b / 16) as nat));
                assert(h[2 * k + 1] == hex_char_of((b % 16) as nat));
            }
        }
    }
}

/// The minimal hexadecimal text of a number is nonempty, made of plain
/// hexadecimal digits, and reads back as the number itself.
pub proof fn lemma_hex_of_nat(n: nat)
    ensures
        hex_of_nat(n).len() >= 1,
        all_hex(hex_of_nat(n)),
        forall|i: int| 0 <= i < hex_of_nat(n).len() ==> #[trigger] hex_of_nat(n)[i] != '"'
            && hex_of_nat(n)[i] != '\\',
        hex_value(hex_of_nat(n)) == n,
    decreases n,
{
    if n < 16 {
        lemma_hex_char_of(n);
        let h = hex_of_nat(n);
        assert(h.drop_last() =~= Seq::<char>::empty());
        assert(hex_value(h.drop_last()) == 0);
        assert(hex_value(h) == hex_val_of(hex_char_of(n)));
    } else {
        lemma_div_decreases(n as int, 16);
        lemma_hex_of_nat(n / 16);
        lemma_hex_char_of(n % 16);
        lemma_fundamental_div_mod(n as int, 16);
        let h = hex_of_nat(n);
        assert(h.drop_last() =~= hex_of_nat(n / 16));
        assert(h.last() == hex_char_of(n % 16));
        assert(hex_value(h) == hex_value(h.drop_last()) * 16 + hex_val_of(h.last()));
        assert(hex_value(h) == (n / 16) * 16 + (n % 16));
    }
}

/// The value of a run of decimal digits never shrinks as digits are appended:
/// the number a prefix denotes is at most the number the whole run denotes.
pub proof fn lemma_dec_prefix_le(s: Seq<char>, k: int)
    requires
        0 <= k <= s.len(),
    ensures
        dec_value(s.subrange(0, k)) <= dec_value(s),
    decreases s.len() - k,
{
    if k == s.len() {
        assert(s.subrange(0, k) =~= s);
    } else {
        lemma_dec_prefix_le(s, k + 1);
        let p = s.subrange(0, k + 1);
        assert(p.drop_last() =~= s.subrange(0, k));
        assert(dec_value(p) == dec_value(s.subrange(0, k)) * 10 + dec_val_of(s[k]));
    }
}

/// The same for hexadecimal digit runs.
pub proof fn lemma_hex_prefix_le(s: Seq<char>, k: int)
    requires
        0 <= k <= s.len(),
    ensures
        hex_value(s.subrange(0, k)) <= hex_value(s),
    decreases s.len() - k,
{
    if k == s.len() {
        assert(s.subrange(0, k) =~= s);
    } else {
        lemma_hex_prefix_le(s, k + 1);
        let p = s.subrange(0, k + 1);
        assert(p.drop_last() =~= s.subrange(0, k));
        assert(hex_value(p) == hex_value(s.subrange(0, k)) * 16 + hex_val_of(s[k]));
    }
}

/// The one-character text of a digit below 16.
pub fn hex_char_str(d: u64) -> (r: &'static str)
    requires
        d < 16,
    ensures
        r@ == seq![hex_char_of(d as nat)],
{
    proof {
        reveal_strlit("0");
        reveal_strlit("1");
        reveal_strlit("2");
        reveal_strlit("3");
        reveal_strlit("4");
        reveal_strlit("5");
        reveal_strlit("6");
        reveal_strlit("7");
        reveal_strlit("8");
        reveal_strlit("9");
        reveal_strlit("a");
        reveal_strlit("b");
        reveal_strlit("c");
        reveal_strlit("d");
        reveal_strlit("e");
        reveal_strlit("f");
    }
    let r: &'static str = if d == 0 {
        "0"
    } else if d == 1 {
        "1"
    } else if d == 2 {
        "2"
    } else if d == 3 {
        "3"
    } else if d == 4 {
        "4"
    } else if d == 5 {
        "5"
    } else if d == 6 {
        "6"
    } else if d == 7 {
        "7"
    } else if d == 8 {
        "8"
    } else if d == 9 {
        "9"
    } else if d == 10 {
        "a"
    } else if d == 11 {
        "b"
    } else if d == 12 {
        "c"
    } else if d == 13 {
        "d"
    } else if d == 14 {
        "e"
    } else {
        "f"
    };
    proof {
        assert(r@ =~= seq![hex_char_of(d as nat)]);
    }
    r
}

/// The value of a character read as a hexadecimal digit; 16 when it is none.
pub fn hex_val(c: char) -> (r: u64)
    ensures
        r == hex_val_of(c),
{
    let n = c as u32;
    if 48 <= n && n <= 57 {
        (n - 48) as u64
    } else if 97 <= n && n <= 102 {
        (n - 87) as u64
    } else if 65 <= n && n <= 70 {
        (n - 55) as u64
    } else {
        16
    }
}

/// The value of a character read as a decimal digit; 10 when it is none.
pub fn dec_val(c: char) -> (r: u64)
    ensures
        r == dec_val_of(c),
{
    let n = c as u32;
    if 48 <= n && n <= 57 {
        (n - 48) as u64
    } else {
        10
    }
}

} // verus!
