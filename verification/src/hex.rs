//! Lower-case hex encoding of bytes, and reading hex digits back.
use vstd::prelude::*;

use crate::text::string_from_chars;

verus! {

/// The lower-case hex digit (as an ASCII byte) for a nibble `n < 16`.
pub open spec fn hex_digit(n: int) -> u8 {
    if n < 10 {
        (48 + n) as u8
    } else {
        (87 + n) as u8
    }
}

/// High nibble then low nibble of every byte, as lower-case ASCII hex:
/// `[0xbe, 0x0f]` becomes the bytes of `"be0f"`.
pub open spec fn hex_ascii(bytes: Seq<u8>) -> Seq<u8> {
    Seq::new(
        2 * bytes.len(),
        |i: int|
            if i % 2 == 0 {
                hex_digit(bytes[i / 2] as int / 16)
            } else {
                hex_digit(bytes[i / 2] as int % 16)
            },
    )
}

fn nibble_digit(n: u8) -> (d: u8)
    requires
        n < 16,
    ensures
        d == hex_digit(n as int),
{
    if n < 10 {
        48 + n
    } else {
        87 + n
    }
}

/// Writes the lower-case hex encoding of `hash` into `buf`, followed by a
/// terminating zero byte; bytes after the terminator are left as they were.
pub fn hex_fmt(hash: &[u8], buf: &mut [u8; 65])
    requires
        hash@.len() <= 32,
    ensures
        final(buf)@.subrange(0, 2 * (hash@.len() as int)) == hex_ascii(hash@),
        final(buf)@[2 * (hash@.len() as int)] == 0u8,
        final(buf)@.subrange(2 * (hash@.len() as int) + 1, 65) == old(buf)@.subrange(
            2 * (hash@.len() as int) + 1,
            65,
        ),
{
    let n = hash.len();
    let mut i: usize = 0;
    while i < n
        invariant
            n == hash@.len(),
            n <= 32,
            i <= n,
            buf@.len() == 65,
            forall|k: int| 0 <= k < 2 * i ==> buf@[k] == #[trigger] hex_ascii(hash@)[k],
            forall|k: int| 2 * i <= k < 65 ==> buf@[k] == #[trigger] old(buf)@[k],
        decreases n - i,
    {
        let b = hash[i];
        let hi = b >> 4;
        let lo = b & 0x0f;
        assert(hi == b / 16 && lo == b % 16 && hi < 16 && lo < 16) by (bit_vector)
            requires
                hi == b >> 4,
                lo == b & 0x0f,
        ;
        buf[2 * i] = nibble_digit(hi);
        buf[2 * i + 1] = nibble_digit(lo);
        i = i + 1;
    }
    buf[2 * n] = 0;
    assert(buf@.subrange(0, 2 * (n as int)) =~= hex_ascii(hash@));
}

/// `char::is_ascii_hexdigit`.
pub open spec fn is_hex_char(c: char) -> bool {
    ||| '0' <= c <= '9'
    ||| 'a' <= c <= 'f'
    ||| 'A' <= c <= 'F'
}

/// The value of a hex digit, in either case.
pub open spec fn hex_char_value(c: char) -> nat {
    if '0' <= c <= '9' {
        (c as u32 - '0' as u32) as nat
    } else if 'a' <= c <= 'f' {
        (c as u32 - 'a' as u32 + 10) as nat
    } else {
        (c as u32 - 'A' as u32 + 10) as nat
    }
}

/// Every character of `s` is a hex digit.
pub open spec fn all_hex(s: Seq<char>) -> bool {
    forall|i: int| 0 <= i < s.len() ==> is_hex_char(#[trigger] s[i])
}

/// The number that the hex digits `s` spell, most significant first.
pub open spec fn hex_number(s: Seq<char>) -> nat
    decreases s.len(),
{
    if s.len() == 0 {
        0
    } else {
        hex_number(s.drop_last()) * 16 + hex_char_value(s.last())
    }
}

/// `u8::from_str_radix(s, 16)`: an optional `+`, then one or more hex digits
/// whose value fits in a byte; `None` where that function returns an error.
pub open spec fn parse_hex_u8(s: Seq<char>) -> Option<u8> {
    let digits = if s.len() > 0 && s[0] == '+' {
        s.drop_first()
    } else {
        s
    };
    if digits.len() > 0 && all_hex(digits) && hex_number(digits) <= 255 {
        Some(hex_number(digits) as u8)
    } else {
        None
    }
}

pub fn is_hex_char_exec(c: char) -> (b: bool)
    ensures
        b == is_hex_char(c),
{
    ('0' <= c && c <= '9') || ('a' <= c && c <= 'f') || ('A' <= c && c <= 'F')
}

pub fn hex_char_value_exec(c: char) -> (v: u8)
    requires
        is_hex_char(c),
    ensures
        v as nat == hex_char_value(c),
        v < 16,
{
    if '0' <= c && c <= '9' {
        ((c as u32) - ('0' as u32)) as u8
    } else if 'a' <= c && c <= 'f' {
        ((c as u32) - ('a' as u32) + 10) as u8
    } else {
        ((c as u32) - ('A' as u32) + 10) as u8
    }
}

/// `u8::from_str_radix(&s[lo..hi], 16)`, with the error reduced to `None`.
pub fn parse_hex_u8_exec(s: &Vec<char>, lo: usize, hi: usize) -> (r: Option<u8>)
    requires
        lo <= hi <= s@.len(),
    ensures
        r == parse_hex_u8(s@.subrange(lo as int, hi as int)),
{
    let ghost whole = s@.subrange(lo as int, hi as int);
    let start = if lo < hi && s[lo] == '+' {
        lo + 1
    } else {
        lo
    };
    let ghost digits = s@.subrange(start as int, hi as int);
    assert(whole.len() > 0 && whole[0] == '+' ==> whole.drop_first() =~= digits);
    assert(!(whole.len() > 0 && whole[0] == '+') ==> whole =~= digits);
    if start == hi {
        return None;
    }
    // `acc` is the value of the digits read so far, capped at 256.
    let mut acc: u32 = 0;
    let mut k = start;
    while k < hi
        invariant
            start <= k <= hi <= s@.len(),
            lo <= start,
            whole == s@.subrange(lo as int, hi as int),
            digits == s@.subrange(start as int, hi as int),
            whole.len() > 0 && whole[0] == '+' ==> whole.drop_first() == digits,
            !(whole.len() > 0 && whole[0] == '+') ==> whole == digits,
            all_hex(s@.subrange(start as int, k as int)),
            acc == if hex_number(s@.subrange(start as int, k as int)) > 255 {
                256
            } else {
                hex_number(s@.subrange(start as int, k as int))
            },
        decreases hi - k,
    {
        let c = s[k];
        if !is_hex_char_exec(c) {
            assert(digits[k - start] == c);
            return None;
        }
        let v = hex_char_value_exec(c);
        let ghost prev = s@.subrange(start as int, k as int);
        let ghost next = s@.subrange(start as int, k + 1);
        assert(next.drop_last() =~= prev);
        assert(next.last() == c);
        assert(hex_number(next) == hex_number(prev) * 16 + v);
        if acc > 255 {
            acc = 256;
        } else {
            acc = acc * 16 + v as u32;
            if acc > 255 {
                acc = 256;
            }
        }
        assert forall|i: int| 0 <= i < next.len() implies is_hex_char(#[trigger] next[i]) by {
            if i < prev.len() {
                assert(next[i] == prev[i]);
            }
        }
        k = k + 1;
    }
    if acc > 255 {
        None
    } else {
        Some(acc as u8)
    }
}

/// The lower-case hex encoding of `bytes`, as characters.
pub open spec fn hex_chars(bytes: Seq<u8>) -> Seq<char> {
    hex_ascii(bytes).map_values(|b: u8| b as char)
}

/// Appends the lower-case hex encoding of `bytes` to `out`.
pub fn push_hex_chars(out: &mut Vec<char>, bytes: &[u8])
    ensures
        final(out)@ == old(out)@ + hex_chars(bytes@),
{
    let ghost start = out@;
    let n = bytes.len();
    let mut i: usize = 0;
    while i < n
        invariant
            n == bytes@.len(),
            i <= n,
            out@ =~= start + hex_chars(bytes@).subrange(0, 2 * i as int),
        decreases n - i,
    {
        let b = bytes[i];
        let hi = b >> 4;
        let lo = b & 0x0f;
        assert(hi == b / 16 && lo == b % 16 && hi < 16 && lo < 16) by (bit_vector)
            requires
                hi == b >> 4,
                lo == b & 0x0f,
        ;
        let dh = nibble_digit(hi);
        let dl = nibble_digit(lo);
        out.push(dh as char);
        out.push(dl as char);
        assert(hex_chars(bytes@).subrange(0, 2 * (i + 1) as int) =~= hex_chars(bytes@).subrange(
            0,
            2 * i as int,
        ).push(dh as char).push(dl as char));
        i = i + 1;
    }
    assert(hex_chars(bytes@).subrange(0, 2 * n as int) =~= hex_chars(bytes@));
}

/// The lower-case hex string of a 32-byte value (64 characters).
pub fn hex_str(bytes: &[u8; 32]) -> (s: String)
    ensures
        s@ == hex_chars(bytes@),
{
    let mut out: Vec<char> = Vec::new();
    push_hex_chars(&mut out, bytes.as_slice());
    assert(out@ =~= hex_chars(bytes@));
    string_from_chars(&out)
}

/// `n` in lower-case hex digits, most significant first, as `{:x}` writes it.
pub open spec fn hex_digits(n: nat) -> Seq<char>
    decreases n,
{
    if n < 16 {
        seq![hex_digit(n as int) as char]
    } else {
        hex_digits(n / 16).push(hex_digit((n % 16) as int) as char)
    }
}

/// `n` as `{:08x}` writes it: lower-case hex, zero-padded to 8 digits.
pub open spec fn hex_padded8(n: nat) -> Seq<char> {
    let d = hex_digits(n);
    if d.len() < 8 {
        Seq::new((8 - d.len()) as nat, |i: int| '0') + d
    } else {
        d
    }
}

fn hex_digits_exec(n: usize) -> (v: Vec<char>)
    ensures
        v@ == hex_digits(n as nat),
    decreases n,
{
    if n < 16 {
        let d = nibble_digit(n as u8);
        let mut v: Vec<char> = Vec::new();
        v.push(d as char);
        v
    } else {
        let mut v = hex_digits_exec(n / 16);
        let d = nibble_digit((n % 16) as u8);
        v.push(d as char);
        v
    }
}

/// Appends `n` as `{:08x}` writes it.
pub fn push_hex_padded8(out: &mut Vec<char>, n: usize)
    ensures
        final(out)@ == old(out)@ + hex_padded8(n as nat),
{
    let ghost start = out@;
    let mut digits = hex_digits_exec(n);
    let len = digits.len();
    if len < 8 {
        let mut k: usize = 0;
        while k < 8 - len
            invariant
                len == digits@.len(),
                len < 8,
                k <= 8 - len,
                out@ == start + Seq::new(k as nat, |i: int| '0'),
            decreases 8 - len - k,
        {
            out.push('0');
            assert(Seq::new((k + 1) as nat, |i: int| '0') =~= Seq::new(k as nat, |i: int| '0').push(
                '0',
            ));
            k = k + 1;
        }
    }
    out.append(&mut digits);
    assert(out@ =~= start + hex_padded8(n as nat));
}

} // verus!
