//! Numbers and keys as text, for the names of subscriptions.

use vstd::prelude::*;
use vstd::string::StringExecFns;
use crate::keys::{Id, PublicKey};

verus! {

/// The digit for `d`, which is below 16.
pub open spec fn digit_text(d: int) -> Seq<char> {
    if d == 0 {
        "0"@
    } else if d == 1 {
        "1"@
    } else if d == 2 {
        "2"@
    } else if d == 3 {
        "3"@
    } else if d == 4 {
        "4"@
    } else if d == 5 {
        "5"@
    } else if d == 6 {
        "6"@
    } else if d == 7 {
        "7"@
    } else if d == 8 {
        "8"@
    } else if d == 9 {
        "9"@
    } else if d == 10 {
        "a"@
    } else if d == 11 {
        "b"@
    } else if d == 12 {
        "c"@
    } else if d == 13 {
        "d"@
    } else if d == 14 {
        "e"@
    } else {
        "f"@
    }
}

/// The digit for `d`.
pub fn digit(d: u8) -> (r: &'static str)
    requires
        d < 16,
    ensures
        r@ == digit_text(d as int),
{
    if d == 0 {
        "0"
    } else if d == 1 {
        "1"
    } else if d == 2 {
        "2"
    } else if d == 3 {
        "3"
    } else if d == 4 {
        "4"
    } else if d == 5 {
        "5"
    } else if d == 6 {
        "6"
    } else if d == 7 {
        "7"
    } else if d == 8 {
        "8"
    } else if d == 9 {
        "9"
    } else if d == 10 {
        "a"
    } else if d == 11 {
        "b"
    } else if d == 12 {
        "c"
    } else if d == 13 {
        "d"
    } else if d == 14 {
        "e"
    } else {
        "f"
    }
}

/// `n` in decimal digits.
pub open spec fn decimal_text(n: nat) -> Seq<char>
    decreases n,
{
    if n < 10 {
        digit_text(n as int)
    } else {
        decimal_text(n / 10) + digit_text((n % 10) as int)
    }
}

/// `n` in decimal digits.
pub fn decimal(n: u32) -> (r: String)
    ensures
        r@ == decimal_text(n as nat),
    decreases n,
{
    if n < 10 {
        digit(n as u8).to_owned()
    } else {
        let mut s = decimal(n / 10);
        s.append(digit((n % 10) as u8));
        s
    }
}

/// The lowest `digits` hexadecimal digits of `w`, the highest first.
pub open spec fn hex_text(w: nat, digits: nat) -> Seq<char>
    decreases digits,
{
    if digits == 0 {
        Seq::empty()
    } else {
        hex_text(w / 16, (digits - 1) as nat) + digit_text((w % 16) as int)
    }
}

/// Appends to `out` the lowest `digits` hexadecimal digits of `w`.
fn push_hex(out: &mut String, w: u64, digits: u8)
    ensures
        final(out)@ == old(out)@ + hex_text(w as nat, digits as nat),
    decreases digits,
{
    if digits == 0 {
        assert(out@ =~= old(out)@ + hex_text(w as nat, 0));
    } else {
        push_hex(out, w / 16, digits - 1);
        out.append(digit((w % 16) as u8));
        assert(out@ =~= old(out)@ + hex_text(w as nat, digits as nat));
    }
}

/// The key in 64 hexadecimal digits.
pub open spec fn key_hex(p: PublicKey) -> Seq<char> {
    hex_text(p.w0 as nat, 16) + hex_text(p.w1 as nat, 16) + hex_text(p.w2 as nat, 16) + hex_text(
        p.w3 as nat,
        16,
    )
}

impl PublicKey {
    /// The key in 64 hexadecimal digits.
    pub fn as_hex_string(&self) -> (r: String)
        ensures
            r@ == key_hex(*self),
    {
        let mut out = String::new();
        push_hex(&mut out, self.w0, 16);
        push_hex(&mut out, self.w1, 16);
        push_hex(&mut out, self.w2, 16);
        push_hex(&mut out, self.w3, 16);
        assert(out@ =~= key_hex(*self));
        out
    }
}

/// The id in 64 hexadecimal digits.
pub open spec fn id_hex(id: Id) -> Seq<char> {
    hex_text(id.w0 as nat, 16) + hex_text(id.w1 as nat, 16) + hex_text(id.w2 as nat, 16)
        + hex_text(id.w3 as nat, 16)
}

impl Id {
    /// The id in 64 hexadecimal digits.
    pub fn as_hex_string(&self) -> (r: String)
        ensures
            r@ == id_hex(*self),
    {
        let mut out = String::new();
        push_hex(&mut out, self.w0, 16);
        push_hex(&mut out, self.w1, 16);
        push_hex(&mut out, self.w2, 16);
        push_hex(&mut out, self.w3, 16);
        assert(out@ =~= id_hex(*self));
        out
    }
}

/// The character that is the digit for `d`.
pub open spec fn digit_char(d: int) -> char {
    if d == 0 {
        '0'
    } else if d == 1 {
        '1'
    } else if d == 2 {
        '2'
    } else if d == 3 {
        '3'
    } else if d == 4 {
        '4'
    } else if d == 5 {
        '5'
    } else if d == 6 {
        '6'
    } else if d == 7 {
        '7'
    } else if d == 8 {
        '8'
    } else if d == 9 {
        '9'
    } else if d == 10 {
        'a'
    } else if d == 11 {
        'b'
    } else if d == 12 {
        'c'
    } else if d == 13 {
        'd'
    } else if d == 14 {
        'e'
    } else {
        'f'
    }
}

/// A digit is one character, and another for every number below 16.
pub proof fn lemma_digit_text(d: int)
    requires
        0 <= d < 16,
    ensures
        digit_text(d) == seq![digit_char(d)],
{
    reveal_strlit("0");
    reveal_strlit("1");
    reveal_strlit("2");
    reveal_strlit("3");
    reveal_strlit("4");
    reveal_strlit("5");
    reveal_strlit("6");
    reveal_strlit("7");
    reveal_strlit("8");
    reveal_strlit("9");
    reveal_strlit("a");
    reveal_strlit("b");
    reveal_strlit("c");
    reveal_strlit("d");
    reveal_strlit("e");
    reveal_strlit("f");
    assert(digit_text(d) =~= seq![digit_char(d)]);
}

/// Sixteen to the power of `n`.
pub open spec fn pow16(n: nat) -> nat
    decreases n,
{
    if n == 0 {
        1
    } else {
        16 * pow16((n - 1) as nat)
    }
}

/// `digits` digits are `digits` characters.
pub proof fn lemma_hex_len(w: nat, digits: nat)
    ensures
        hex_text(w, digits).len() == digits,
    decreases digits,
{
    if digits > 0 {
        lemma_hex_len(w / 16, (digits - 1) as nat);
        lemma_digit_text((w % 16) as int);
    }
}

/// Two numbers that fit in `digits` digits and have the same digits are
/// the same number.
pub proof fn lemma_hex_injective(v: nat, w: nat, digits: nat)
    requires
        v < pow16(digits),
        w < pow16(digits),
        hex_text(v, digits) == hex_text(w, digits),
    ensures
        v == w,
    decreases digits,
{
    if digits > 0 {
        let less = (digits - 1) as nat;
        lemma_hex_len(v / 16, less);
        lemma_hex_len(w / 16, less);
        lemma_digit_text((v % 16) as int);
        lemma_digit_text((w % 16) as int);
        let tv = hex_text(v, digits);
        let tw = hex_text(w, digits);
        assert(tv.subrange(0, less as int) =~= hex_text(v / 16, less));
        assert(tw.subrange(0, less as int) =~= hex_text(w / 16, less));
        assert(tv[less as int] == digit_char((v % 16) as int));
        assert(tw[less as int] == digit_char((w % 16) as int));
        assert(v % 16 == w % 16);
        lemma_hex_injective(v / 16, w / 16, less);
    }
}

/// The sixteenth power of sixteen is the number of the 64-bit numbers.
pub proof fn lemma_pow16_16()
    ensures
        pow16(16) == 0x1_0000_0000_0000_0000,
{
    assert(pow16(1) == 16) by {
        assert(pow16(0) == 1);
    }
    assert(pow16(2) == 0x100);
    assert(pow16(3) == 0x1000);
    assert(pow16(4) == 0x1_0000);
    assert(pow16(5) == 0x10_0000);
    assert(pow16(6) == 0x100_0000);
    assert(pow16(7) == 0x1000_0000);
    assert(pow16(8) == 0x1_0000_0000);
    assert(pow16(9) == 0x10_0000_0000);
    assert(pow16(10) == 0x100_0000_0000);
    assert(pow16(11) == 0x1000_0000_0000);
    assert(pow16(12) == 0x1_0000_0000_0000);
    assert(pow16(13) == 0x10_0000_0000_0000);
    assert(pow16(14) == 0x100_0000_0000_0000);
    assert(pow16(15) == 0x1000_0000_0000_0000);
}

/// Two ids with the same text in hexadecimal digits are the same id.
pub proof fn lemma_id_hex_injective(a: Id, b: Id)
    ensures
        id_hex(a) == id_hex(b) ==> a == b,
{
    if id_hex(a) == id_hex(b) {
        lemma_pow16_16();
        lemma_hex_len(a.w0 as nat, 16);
        lemma_hex_len(a.w1 as nat, 16);
        lemma_hex_len(a.w2 as nat, 16);
        lemma_hex_len(a.w3 as nat, 16);
        lemma_hex_len(b.w0 as nat, 16);
        lemma_hex_len(b.w1 as nat, 16);
        lemma_hex_len(b.w2 as nat, 16);
        lemma_hex_len(b.w3 as nat, 16);
        let ta = id_hex(a);
        let tb = id_hex(b);
        assert(ta.subrange(0, 16) =~= hex_text(a.w0 as nat, 16));
        assert(tb.subrange(0, 16) =~= hex_text(b.w0 as nat, 16));
        assert(ta.subrange(16, 32) =~= hex_text(a.w1 as nat, 16));
        assert(tb.subrange(16, 32) =~= hex_text(b.w1 as nat, 16));
        assert(ta.subrange(32, 48) =~= hex_text(a.w2 as nat, 16));
        assert(tb.subrange(32, 48) =~= hex_text(b.w2 as nat, 16));
        assert(ta.subrange(48, 64) =~= hex_text(a.w3 as nat, 16));
        assert(tb.subrange(48, 64) =~= hex_text(b.w3 as nat, 16));
        lemma_hex_injective(a.w0 as nat, b.w0 as nat, 16);
        lemma_hex_injective(a.w1 as nat, b.w1 as nat, 16);
        lemma_hex_injective(a.w2 as nat, b.w2 as nat, 16);
        lemma_hex_injective(a.w3 as nat, b.w3 as nat, 16);
    }
}

/// The text `prefix` followed by the text `rest`.
pub fn joined(prefix: &str, rest: &str) -> (r: String)
    ensures
        r@ == prefix@ + rest@,
{
    let mut s = prefix.to_owned();
    s.append(rest);
    s
}

} // verus!
