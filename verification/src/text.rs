use vstd::prelude::*;

use crate::primitives::Hash256;

verus! {

/// The decimal digit or lowercase hexadecimal digit for a number below 16.
pub open spec fn digit_char(n: nat) -> char {
    if n == 0 { '0' }
    else if n == 1 { '1' }
    else if n == 2 { '2' }
    else if n == 3 { '3' }
    else if n == 4 { '4' }
    else if n == 5 { '5' }
    else if n == 6 { '6' }
    else if n == 7 { '7' }
    else if n == 8 { '8' }
    else if n == 9 { '9' }
    else if n == 10 { 'a' }
    else if n == 11 { 'b' }
    else if n == 12 { 'c' }
    else if n == 13 { 'd' }
    else if n == 14 { 'e' }
    else { 'f' }
}

/// The decimal form of a number, without leading zeros (`0` for zero).
pub open spec fn decimal(n: nat) -> Seq<char>
    decreases n,
{
    if n < 10 {
        seq![digit_char(n)]
    } else {
        decimal(n / 10).push(digit_char(n % 10))
    }
}

/// The last `k` hexadecimal digits of a number, most significant first.
pub open spec fn hex_digits(n: nat, k: nat) -> Seq<char>
    decreases k,
{
    if k == 0 {
        Seq::empty()
    } else {
        hex_digits(n / 16, (k - 1) as nat).push(digit_char(n % 16))
    }
}

/// The debug form of a hash: `0x` and its 64 lowercase hexadecimal digits.
pub open spec fn hash_hex(h: Hash256) -> Seq<char> {
    seq!['0', 'x'] + hex_digits(h.w0 as nat, 16) + hex_digits(h.w1 as nat, 16) + hex_digits(
        h.w2 as nat,
        16,
    ) + hex_digits(h.w3 as nat, 16)
}

fn digit_str(n: u64) -> (s: &'static str)
    requires
        n < 16,
    ensures
        s@ == seq![digit_char(n as nat)],
{
    proof {
        reveal_strlit("0");
        reveal_strlit("1");
        reveal_strlit("2");
        reveal_strlit("3");
        reveal_strlit("4");
        reveal_strlit("5");
        reveal_strlit("6");
        reveal_strlit("7");
        reveal_strlit("8");
        reveal_strlit("9");
        reveal_strlit("a");
        reveal_strlit("b");
        reveal_strlit("c");
        reveal_strlit("d");
        reveal_strlit("e");
        reveal_strlit("f");
    }
    if n == 0 { "0" }
    else if n == 1 { "1" }
    else if n == 2 { "2" }
    else if n == 3 { "3" }
    else if n == 4 { "4" }
    else if n == 5 { "5" }
    else if n == 6 { "6" }
    else if n == 7 { "7" }
    else if n == 8 { "8" }
    else if n == 9 { "9" }
    else if n == 10 { "a" }
    else if n == 11 { "b" }
    else if n == 12 { "c" }
    else if n == 13 { "d" }
    else if n == 14 { "e" }
    else { "f" }
}

/// Appends the decimal form of `n`.
pub fn push_decimal(s: &mut String, n: u64)
    ensures
        final(s)@ == old(s)@ + decimal(n as nat),
    decreases n,
{
    if n >= 10 {
        push_decimal(s, n / 10);
    }
    s.append(digit_str(n % 10));
    assert(final(s)@ =~= old(s)@ + decimal(n as nat)) by {
        if n >= 10 {
            assert(decimal(n as nat) == decimal((n / 10) as nat).push(digit_char((n % 10) as nat)));
        }
    }
}

/// The decimal form of `n`, as `n.to_string()` gives it.
pub fn u64_to_string(n: u64) -> (s: String)
    ensures
        s@ == decimal(n as nat),
{
    let mut s = String::new();
    push_decimal(&mut s, n);
    proof {
        assert(s@ =~= decimal(n as nat));
    }
    s
}

/// Appends the last `k` hexadecimal digits of `n`.
pub fn push_hex_digits(s: &mut String, n: u64, k: u64)
    ensures
        final(s)@ == old(s)@ + hex_digits(n as nat, k as nat),
    decreases k,
{
    if k > 0 {
        push_hex_digits(s, n / 16, k - 1);
        s.append(digit_str(n % 16));
    }
    assert(final(s)@ =~= old(s)@ + hex_digits(n as nat, k as nat));
}

/// The debug form of a hash, as `format!("{:?}", hash)` gives it.
pub fn hash_to_hex(h: &Hash256) -> (s: String)
    ensures
        s@ == hash_hex(*h),
{
    let mut s = String::from_str("0x");
    proof {
        reveal_strlit("0x");
    }
    push_hex_digits(&mut s, h.w0, 16);
    push_hex_digits(&mut s, h.w1, 16);
    push_hex_digits(&mut s, h.w2, 16);
    push_hex_digits(&mut s, h.w3, 16);
    s
}

} // verus!

verus! {

/// The last `k` bytes of a number, most significant first.
pub open spec fn be_bytes(n: nat, k: nat) -> Seq<u8>
    decreases k,
{
    if k == 0 {
        Seq::empty()
    } else {
        be_bytes(n / 256, (k - 1) as nat).push((n % 256) as u8)
    }
}

/// The 32 bytes of a hash, as `hash.as_bytes()` gives them.
pub open spec fn hash_bytes(h: Hash256) -> Seq<u8> {
    be_bytes(h.w0 as nat, 8) + be_bytes(h.w1 as nat, 8) + be_bytes(h.w2 as nat, 8) + be_bytes(
        h.w3 as nat,
        8,
    )
}

/// Appends the last `k` bytes of `n`, most significant first.
pub fn push_be_bytes(v: &mut Vec<u8>, n: u64, k: u64)
    ensures
        final(v)@ == old(v)@ + be_bytes(n as nat, k as nat),
    decreases k,
{
    if k > 0 {
        push_be_bytes(v, n / 256, k - 1);
        v.push((n % 256) as u8);
    }
    assert(final(v)@ =~= old(v)@ + be_bytes(n as nat, k as nat));
}

/// The bytes of a hash.
pub fn hash_to_bytes(h: &Hash256) -> (v: Vec<u8>)
    ensures
        v@ == hash_bytes(*h),
{
    let mut v: Vec<u8> = Vec::new();
    push_be_bytes(&mut v, h.w0, 8);
    push_be_bytes(&mut v, h.w1, 8);
    push_be_bytes(&mut v, h.w2, 8);
    push_be_bytes(&mut v, h.w3, 8);
    assert(v@ =~= hash_bytes(*h));
    v
}

/// The UTF-8 bytes of a string.
pub fn string_bytes(s: &String) -> (v: Vec<u8>)
    ensures
        v@ == vstd::utf8::encode_utf8(s@),
{
    s.as_str().as_bytes_vec()
}

} // verus!

verus! {

/// The decimal form has at least one digit, and more than one beyond 9.
pub proof fn lemma_decimal_len(n: nat)
    ensures
        decimal(n).len() >= 1,
        n >= 10 ==> decimal(n).len() >= 2,
    decreases n,
{
    if n >= 10 {
        lemma_decimal_len(n / 10);
    }
}

/// Different numbers have different decimal forms.
pub proof fn lemma_decimal_injective(a: nat, b: nat)
    requires
        decimal(a) == decimal(b),
    ensures
        a == b,
    decreases a,
{
    lemma_decimal_len(a);
    lemma_decimal_len(b);
    let da = decimal(a);
    let db = decimal(b);
    if a < 10 && b < 10 {
        assert(da[0] == db[0]);
    } else if a < 10 || b < 10 {
        assert(da.len() == db.len());
    } else {
        assert(da.last() == db.last());
        assert(digit_char(a % 10) == digit_char(b % 10));
        assert(a % 10 == b % 10);
        assert(da.drop_last() == db.drop_last());
        assert(decimal(a / 10) =~= da.drop_last());
        assert(decimal(b / 10) =~= db.drop_last());
        lemma_decimal_injective(a / 10, b / 10);
    }
}

} // verus!
