//! Reading back a byte-array constant as it is written out in a key file.
use vstd::prelude::*;

use crate::const_array::{
    const_array_value, const_decl_prefix, hex_element, hex_elements_from, strip_hex_prefix,
    ConstArrayFault,
};
use crate::hex::{all_hex, hex_char_value, hex_chars, hex_digit, hex_number, is_hex_char, parse_hex_u8};
use crate::laws::{lemma_decimal_digits, lemma_find_from_none, lemma_hex_digit_char};
use crate::text::{
    decimal, find_from, is_whitespace, lemma_find_from, lemma_find_from_first, occurs_at, trim,
    trim_end, trim_start,
};

verus! {

broadcast use vstd::string::group_string_axioms;

/// One element as `format!("0x{:02x}", b)` writes it.
pub open spec fn hex_literal(b: u8) -> Seq<char> {
    "0x"@ + hex_chars(seq![b])
}

/// The elements joined with `", "`, as `.join(", ")` writes them.
pub open spec fn byte_list(bytes: Seq<u8>) -> Seq<char>
    decreases bytes.len(),
{
    if bytes.len() == 0 {
        Seq::empty()
    } else if bytes.len() == 1 {
        hex_literal(bytes[0])
    } else {
        byte_list(bytes.drop_last()) + ", "@ + hex_literal(bytes.last())
    }
}

/// `format!("pub const {}: [u8; {}] = [{}];", name, bytes.len(), elements)`
/// with the elements written by `byte_list`.
pub open spec fn const_array_decl(name: Seq<char>, bytes: Seq<u8>) -> Seq<char> {
    "pub const "@ + name + ": [u8; "@ + decimal(bytes.len()) + "] = ["@ + byte_list(bytes) + "];"@
}

proof fn lemma_hex_literal_chars(b: u8)
    ensures
        hex_literal(b).len() == 4,
        hex_literal(b)[0] == '0',
        hex_literal(b)[1] == 'x',
        hex_literal(b)[2] == hex_digit(b as int / 16) as char,
        hex_literal(b)[3] == hex_digit(b as int % 16) as char,
        is_hex_char(hex_literal(b)[2]),
        is_hex_char(hex_literal(b)[3]),
        hex_char_value(hex_literal(b)[2]) * 16 + hex_char_value(hex_literal(b)[3]) == b,
{
    reveal_strlit("0x");
    lemma_hex_digit_char(b as int / 16);
    lemma_hex_digit_char(b as int % 16);
}

/// Where everything stands in `byte_list(bytes)` for a non-empty array:
/// element `k` at `6k`, and a `", "` before every element but the first.
proof fn lemma_byte_list_layout(bytes: Seq<u8>)
    requires
        bytes.len() >= 1,
    ensures
        byte_list(bytes).len() == 6 * bytes.len() - 2,
        forall|k: int|
            0 <= k < bytes.len() ==> byte_list(bytes).subrange(6 * k, 6 * k + 4)
                == #[trigger] hex_literal(bytes[k]),
        forall|k: int|
            1 <= k < bytes.len() ==> #[trigger] byte_list(bytes)[6 * k - 2] == ',' && byte_list(
                bytes,
            )[6 * k - 1] == ' ',
    decreases bytes.len(),
{
    reveal_strlit(", ");
    lemma_hex_literal_chars(bytes.last());
    let s = byte_list(bytes);
    if bytes.len() == 1 {
        assert(s.subrange(0, 4) =~= hex_literal(bytes[0]));
    } else {
        let init = bytes.drop_last();
        let n = bytes.len() as int;
        lemma_byte_list_layout(init);
        let p = byte_list(init);
        assert(s == p + ", "@ + hex_literal(bytes.last()));
        assert forall|k: int| 0 <= k < n implies s.subrange(6 * k, 6 * k + 4)
            == #[trigger] hex_literal(bytes[k]) by {
            if k < n - 1 {
                assert(s.subrange(6 * k, 6 * k + 4) =~= p.subrange(6 * k, 6 * k + 4));
                assert(init[k] == bytes[k]);
            } else {
                assert(s.subrange(6 * k, 6 * k + 4) =~= hex_literal(bytes.last()));
            }
        }
        assert forall|k: int| 1 <= k < n implies #[trigger] s[6 * k - 2] == ',' && s[6 * k - 1]
            == ' ' by {
            if k < n - 1 {
                assert(s[6 * k - 2] == p[6 * k - 2]);
                assert(s[6 * k - 1] == p[6 * k - 1]);
            } else {
                assert(s[6 * k - 2] == ", "@[0]);
                assert(s[6 * k - 1] == ", "@[1]);
            }
        }
    }
}

proof fn lemma_two_digit_value(t: Seq<char>, b: u8)
    requires
        t.len() == 2,
        is_hex_char(t[0]),
        is_hex_char(t[1]),
        hex_char_value(t[0]) * 16 + hex_char_value(t[1]) == b,
    ensures
        parse_hex_u8(t) == Some(b),
{
    let first = t.drop_last();
    assert(first.drop_last() =~= Seq::<char>::empty());
    assert(hex_number(first.drop_last()) == 0);
    assert(first.last() == t[0]);
    assert(hex_number(first) == hex_char_value(t[0]));
    assert(t.last() == t[1]);
    assert(hex_number(t) == hex_char_value(t[0]) * 16 + hex_char_value(t[1]));
    assert(t[0] != '+');
    assert(all_hex(t));
}

/// An element, possibly after one space, is read as its byte.
proof fn lemma_literal_element(piece: Seq<char>, b: u8)
    requires
        piece == hex_literal(b) || piece == " "@ + hex_literal(b),
    ensures
        hex_element(piece) == Ok::<Seq<u8>, Seq<char>>(seq![b]),
{
    reveal_strlit(" ");
    lemma_hex_literal_chars(b);
    let lit = hex_literal(b);
    assert(trim_start(lit) == lit);
    if piece != lit {
        assert(piece[0] == ' ');
        assert(piece.drop_first() =~= lit);
    }
    assert(trim_start(piece) == lit);
    assert(trim_end(lit) == lit);
    assert(trim(piece) == lit);
    let digits = lit.subrange(2, 4);
    assert(digits =~= seq![lit[2], lit[3]]);
    assert(strip_hex_prefix(digits) == digits);
    assert(strip_hex_prefix(lit) == digits);
    lemma_two_digit_value(digits, b);
}

/// The element of `s` that spans `p..e` (no comma inside) is read as `b`,
/// followed by what the elements after the comma at `e` read as.
proof fn lemma_piece(s: Seq<char>, p: int, e: int, b: u8)
    requires
        0 <= p <= e <= s.len(),
        s.subrange(p, e) == hex_literal(b) || s.subrange(p, e) == " "@ + hex_literal(b),
        e == s.len() || s[e] == ',',
    ensures
        e == s.len() ==> hex_elements_from(s, p) == Ok::<Seq<u8>, Seq<char>>(seq![b]),
        e < s.len() ==> hex_elements_from(s, p) == match hex_elements_from(s, e + 1) {
            Ok(w) => Ok::<Seq<u8>, Seq<char>>(seq![b] + w),
            Err(t) => Err(t),
        },
{
    reveal_strlit(",");
    reveal_strlit(" ");
    lemma_hex_literal_chars(b);
    let piece = s.subrange(p, e);
    let lit = hex_literal(b);
    let sp = " "@;
    assert(sp.len() == 1 && sp[0] == ' ');
    assert forall|i: int| 1 <= i < 5 implies #[trigger] (sp + lit)[i] == lit[i - 1] by {}
    assert forall|m: int| p <= m < e implies #[trigger] s[m] != ',' by {
        assert(piece[m - p] == s[m]);
        if piece == lit {
            assert(piece[m - p] == lit[m - p]);
        } else if m == p {
            assert(piece == sp + lit);
            assert(piece[0] == ' ');
        } else {
            assert(piece == sp + lit);
            let i = m - p;
            assert(lit.len() == 4);
            assert((sp + lit).len() == 5);
            assert(piece.len() == e - p);
            assert(0 < i < 5);
            assert((sp + lit)[i] == lit[i - 1]);
            assert(piece[i] == lit[i - 1]);
            assert(is_hex_char(lit[2]) && is_hex_char(lit[3]));
            assert(lit[i - 1] != ',');
        }
    }
    assert forall|m: int| p <= m < e implies !occurs_at(s, ","@, m) by {
        if occurs_at(s, ","@, m) {
            assert(s.subrange(m, m + 1)[0] == s[m]);
        }
    }
    if e == s.len() {
        lemma_find_from_none(s, ","@, p);
    } else {
        assert(s.subrange(e, e + 1) =~= ","@);
        lemma_find_from_first(s, ","@, p, e);
    }
    lemma_literal_element(piece, b);
}

/// Element `k` on, the written list reads back as `bytes[k..]`.
proof fn lemma_byte_list_from(bytes: Seq<u8>, k: int)
    requires
        0 <= k < bytes.len(),
    ensures
        hex_elements_from(byte_list(bytes), if k == 0 { 0 } else { 6 * k - 1 }) == Ok::<
            Seq<u8>,
            Seq<char>,
        >(bytes.subrange(k, bytes.len() as int)),
    decreases bytes.len() - k,
{
    reveal_strlit(" ");
    let s = byte_list(bytes);
    let n = bytes.len() as int;
    lemma_byte_list_layout(bytes);
    let p = if k == 0 {
        0
    } else {
        6 * k - 1
    };
    let e = 6 * k + 4;
    assert(s.subrange(6 * k, 6 * k + 4) == hex_literal(bytes[k]));
    if k == 0 {
        assert(s.subrange(p, e) =~= hex_literal(bytes[k]));
    } else {
        assert(s[6 * k - 2] == ',');
        assert(s[6 * k - 1] == ' ');
        assert(s.subrange(p, e) =~= " "@ + hex_literal(bytes[k]));
    }
    if k == n - 1 {
        lemma_piece(s, p, e, bytes[k]);
        assert(bytes.subrange(k, n) =~= seq![bytes[k]]);
    } else {
        assert(s[6 * (k + 1) - 2] == ',');
        lemma_piece(s, p, e, bytes[k]);
        lemma_byte_list_from(bytes, k + 1);
        assert(e + 1 == 6 * (k + 1) - 1);
        assert(seq![bytes[k]] + bytes.subrange(k + 1, n) =~= bytes.subrange(k, n));
    }
}

proof fn lemma_byte_list_chars(bytes: Seq<u8>)
    requires
        bytes.len() >= 1,
    ensures
        forall|m: int|
            0 <= m < byte_list(bytes).len() ==> #[trigger] byte_list(bytes)[m] != ']'
                && byte_list(bytes)[m] != '=',
{
    let s = byte_list(bytes);
    lemma_byte_list_layout(bytes);
    assert forall|m: int| 0 <= m < s.len() implies #[trigger] s[m] != ']' && s[m] != '=' by {
        let k = m / 6;
        let r = m % 6;
        assert(m == 6 * k + r && 0 <= r < 6);
        if r < 4 {
            lemma_hex_literal_chars(bytes[k]);
            assert(s.subrange(6 * k, 6 * k + 4)[r] == s[m]);
            assert(hex_literal(bytes[k])[r] == s[m]);
        } else {
            assert(s[6 * (k + 1) - 2] == ',');
        }
    }
}

proof fn lemma_byte_list_value(bytes: Seq<u8>)
    ensures
        hex_elements_from(byte_list(bytes), 0) == Ok::<Seq<u8>, Seq<char>>(bytes),
        forall|m: int|
            0 <= m < byte_list(bytes).len() ==> #[trigger] byte_list(bytes)[m] != ']'
                && byte_list(bytes)[m] != '=',
{
    let s = byte_list(bytes);
    if bytes.len() == 0 {
        reveal_strlit(",");
        assert(s =~= Seq::<char>::empty());
        assert(bytes =~= Seq::<u8>::empty());
        lemma_find_from_none(s, ","@, 0);
        assert(hex_element(Seq::<char>::empty()) == Ok::<Seq<u8>, Seq<char>>(Seq::empty()));
        assert(s.subrange(0, 0) =~= Seq::<char>::empty());
        assert(trim_start(Seq::<char>::empty()) =~= Seq::<char>::empty());
        assert(trim(Seq::<char>::empty()) =~= Seq::<char>::empty());
    } else {
        lemma_byte_list_from(bytes, 0);
        assert(bytes.subrange(0, bytes.len() as int) =~= bytes);
        lemma_byte_list_chars(bytes);
    }
}

/// Parsing undoes writing: a byte array written out as
/// `pub const NAME: [u8; N] = [0x.., 0x..];` (each byte as `0x{:02x}`,
/// joined with `", "`, possibly none) is read back exactly, for every name
/// that holds no `=` (every Rust identifier).
pub proof fn lemma_const_array_roundtrip(name: Seq<char>, bytes: Seq<u8>)
    requires
        forall|i: int| 0 <= i < name.len() ==> name[i] != '=',
    ensures
        const_array_value(const_array_decl(name, bytes), name, bytes.len()) == Ok::<
            Seq<u8>,
            ConstArrayFault,
        >(bytes),
{
    reveal_strlit("pub const ");
    reveal_strlit(": [u8; ");
    reveal_strlit(": [u8;");
    reveal_strlit("] = [");
    reveal_strlit("= [");
    reveal_strlit("]");
    reveal_strlit("];");
    let src = const_array_decl(name, bytes);
    let d = decimal(bytes.len());
    let items = byte_list(bytes);
    let nl = name.len() as int;
    let dl = d.len() as int;
    lemma_decimal_digits(bytes.len());
    lemma_byte_list_value(bytes);
    // The declaration opens the source.
    let pre = const_decl_prefix(name);
    assert(src.subrange(0, pre.len() as int) =~= pre);
    lemma_find_from_first(src, pre, 0, 0);
    // `= [` first stands after the length.
    let e = nl + dl + 19;
    let open = e + 3;
    assert forall|m: int| 0 <= m < e implies #[trigger] src[m] != '=' by {
        if 10 <= m < 10 + nl {
            assert(src[m] == name[m - 10]);
        } else if 17 + nl <= m < 17 + nl + dl {
            assert(src[m] == d[m - 17 - nl]);
        }
    }
    assert(src.subrange(e, e + 3) =~= "= ["@);
    assert forall|m: int| 0 <= m < e implies !occurs_at(src, "= ["@, m) by {
        if occurs_at(src, "= ["@, m) {
            assert(src.subrange(m, m + 3)[0] == src[m]);
        }
    }
    lemma_find_from_first(src, "= ["@, 0, e);
    // The first `]` after the opening bracket closes the elements.
    let close = open + items.len();
    assert forall|m: int| open <= m < close implies #[trigger] src[m] == items[m - open] by {}
    assert(src[close] == ']');
    assert(src.subrange(close, close + 1) =~= "]"@);
    assert forall|m: int| e + 2 <= m < close implies !occurs_at(src, "]"@, m) by {
        if occurs_at(src, "]"@, m) {
            assert(src.subrange(m, m + 1)[0] == src[m]);
            if m >= open {
                assert(items[m - open] == src[m]);
            }
        }
    }
    lemma_find_from_first(src, "]"@, e + 2, close);
    assert(src.subrange(open, close) =~= items);
}

/// A constant is read only with the length asked for: a successful read
/// has exactly `expected_len` bytes, and a read refused for its length names
/// a length other than `expected_len`.
pub proof fn lemma_const_array_length(src: Seq<char>, name: Seq<char>, expected_len: nat)
    ensures
        const_array_value(src, name, expected_len) matches Ok(bytes) ==> bytes.len()
            == expected_len,
        const_array_value(src, name, expected_len) matches Err(ConstArrayFault::WrongLength(n))
            ==> n != expected_len,
{
}

/// `char::is_whitespace` is the Unicode `White_Space` property: it holds
/// for every `White_Space` code point (tab, line feed, vertical tab, form
/// feed, carriage return, space, next line, no-break space, ogham space
/// mark, the spaces U+2000..U+200A, line and paragraph separators, narrow
/// no-break space, medium mathematical space, ideographic space), and for
/// none of the characters a key file's array is written with.
pub proof fn lemma_white_space(c: char)
    ensures
        is_whitespace('\t'),
        is_whitespace('\n'),
        is_whitespace('\u{B}'),
        is_whitespace('\u{C}'),
        is_whitespace('\r'),
        is_whitespace(' '),
        is_whitespace('\u{85}'),
        is_whitespace('\u{A0}'),
        is_whitespace('\u{1680}'),
        '\u{2000}' <= c <= '\u{200A}' ==> is_whitespace(c),
        is_whitespace('\u{2028}'),
        is_whitespace('\u{2029}'),
        is_whitespace('\u{202F}'),
        is_whitespace('\u{205F}'),
        is_whitespace('\u{3000}'),
        is_hex_char(c) || c == 'x' || c == ',' || c == '[' || c == ']' || c == ';' ==> !is_whitespace(c),
{
}

/// A line-layout character: space, tab, carriage return or line feed.
pub open spec fn layout_char(c: char) -> bool {
    c == ' ' || c == '\t' || c == '\r' || c == '\n'
}

proof fn lemma_trim_start_layout(w: Seq<char>, t: Seq<char>)
    requires
        forall|i: int| 0 <= i < w.len() ==> is_whitespace(#[trigger] w[i]),
        t.len() > 0,
        !is_whitespace(t[0]),
    ensures
        trim_start(w + t) == t,
    decreases w.len(),
{
    if w.len() == 0 {
        assert(w + t =~= t);
    } else {
        assert((w + t)[0] == w[0]);
        assert((w + t).drop_first() =~= w.drop_first() + t);
        lemma_trim_start_layout(w.drop_first(), t);
    }
}

proof fn lemma_trim_end_layout(t: Seq<char>, w: Seq<char>)
    requires
        forall|i: int| 0 <= i < w.len() ==> is_whitespace(#[trigger] w[i]),
        t.len() > 0,
        !is_whitespace(t.last()),
    ensures
        trim_end(t + w) == t,
    decreases w.len(),
{
    if w.len() == 0 {
        assert(t + w =~= t);
    } else {
        assert((t + w).last() == w.last());
        assert((t + w).drop_last() =~= t + w.drop_last());
        lemma_trim_end_layout(t, w.drop_last());
    }
}

/// An element laid out across lines, with any spaces, tabs and line breaks
/// (`\n` or `\r\n`) before and after it, is read as its byte.
pub proof fn lemma_element_in_layout(before: Seq<char>, b: u8, after: Seq<char>)
    requires
        forall|i: int| 0 <= i < before.len() ==> layout_char(#[trigger] before[i]),
        forall|i: int| 0 <= i < after.len() ==> layout_char(#[trigger] after[i]),
    ensures
        hex_element(before + hex_literal(b) + after) == Ok::<Seq<u8>, Seq<char>>(seq![b]),
{
    lemma_hex_literal_chars(b);
    let lit = hex_literal(b);
    lemma_white_space(lit[0]);
    lemma_white_space(lit[3]);
    assert forall|i: int| 0 <= i < before.len() implies is_whitespace(#[trigger] before[i]) by {
        lemma_white_space(before[i]);
    }
    assert forall|i: int| 0 <= i < after.len() implies is_whitespace(#[trigger] after[i]) by {
        lemma_white_space(after[i]);
    }
    assert(before + lit + after =~= before + (lit + after));
    lemma_trim_start_layout(before, lit + after);
    assert((lit + after)[0] == lit[0]);
    lemma_trim_end_layout(lit, after);
    assert(trim(before + lit + after) == lit);
    let digits = lit.subrange(2, 4);
    assert(digits =~= seq![lit[2], lit[3]]);
    assert(strip_hex_prefix(digits) == digits);
    assert(strip_hex_prefix(lit) == digits);
    lemma_two_digit_value(digits, b);
}

/// Elements laid out over lines: before element `k` stands `gaps[k]`, after
/// it a comma, and `gaps[n]` closes the list (so the last element also has
/// a trailing comma, as rustfmt writes long arrays).
pub open spec fn laid_out_list(bytes: Seq<u8>, gaps: Seq<Seq<char>>) -> Seq<char>
    decreases bytes.len(),
{
    if bytes.len() == 0 || gaps.len() == 0 {
        if gaps.len() == 0 {
            Seq::empty()
        } else {
            gaps[0]
        }
    } else {
        gaps[0] + hex_literal(bytes[0]) + ","@ + laid_out_list(bytes.drop_first(), gaps.drop_first())
    }
}

/// `pub const NAME: [u8; N] = [<elements laid out over lines>];`.
pub open spec fn laid_out_decl(name: Seq<char>, bytes: Seq<u8>, gaps: Seq<Seq<char>>) -> Seq<char> {
    "pub const "@ + name + ": [u8; "@ + decimal(bytes.len()) + "] = ["@ + laid_out_list(bytes, gaps)
        + "];"@
}

/// Every gap is made of spaces, tabs and line breaks.
pub open spec fn layout_gaps(gaps: Seq<Seq<char>>) -> bool {
    forall|k: int, i: int|
        0 <= k < gaps.len() && 0 <= i < gaps[k].len() ==> layout_char(#[trigger] gaps[k][i])
}

/// Searching `a + b` from inside `b` finds what searching `b` finds, shifted.
proof fn lemma_find_shift(a: Seq<char>, b: Seq<char>, q: Seq<char>, i: int)
    requires
        0 <= i,
    ensures
        find_from(a + b, q, a.len() + i) == match find_from(b, q, i) {
            Some(k) => Some(a.len() + k),
            None => None::<int>,
        },
    decreases b.len() + 1 - i,
{
    let s = a + b;
    let al = a.len() as int;
    if i + q.len() > b.len() {
    } else {
        assert(s.subrange(al + i, al + i + q.len()) =~= b.subrange(i, i + q.len()));
        if !occurs_at(b, q, i) {
            lemma_find_shift(a, b, q, i + 1);
        }
    }
}

/// Reading elements of `a + b` from inside `b` reads what `b` holds there.
proof fn lemma_elements_shift(a: Seq<char>, b: Seq<char>, i: int)
    requires
        0 <= i <= b.len(),
    ensures
        hex_elements_from(a + b, a.len() + i) == hex_elements_from(b, i),
    decreases b.len() + 1 - i,
{
    let s = a + b;
    let al = a.len() as int;
    lemma_find_shift(a, b, ","@, i);
    lemma_find_from(b, ","@, i);
    match find_from(b, ","@, i) {
        None => {
            assert(s.subrange(al + i, s.len() as int) =~= b.subrange(i, b.len() as int));
        },
        Some(j) => {
            assert(s.subrange(al + i, al + j) =~= b.subrange(i, j));
            reveal_strlit(",");
            lemma_elements_shift(a, b, j + 1);
        },
    }
}

proof fn lemma_trim_blank(w: Seq<char>)
    requires
        forall|i: int| 0 <= i < w.len() ==> layout_char(#[trigger] w[i]),
    ensures
        trim(w) == Seq::<char>::empty(),
    decreases w.len(),
{
    if w.len() > 0 {
        lemma_white_space(w[0]);
        assert(trim_start(w) == trim_start(w.drop_first()));
        lemma_trim_blank(w.drop_first());
    } else {
        assert(trim_start(w) == w);
    }
}

proof fn lemma_laid_out_value(bytes: Seq<u8>, gaps: Seq<Seq<char>>)
    requires
        gaps.len() == bytes.len() + 1,
        layout_gaps(gaps),
    ensures
        hex_elements_from(laid_out_list(bytes, gaps), 0) == Ok::<Seq<u8>, Seq<char>>(bytes),
        forall|m: int|
            0 <= m < laid_out_list(bytes, gaps).len() ==> #[trigger] laid_out_list(bytes, gaps)[m]
                != ']' && laid_out_list(bytes, gaps)[m] != '=',
    decreases bytes.len(),
{
    reveal_strlit(",");
    let s = laid_out_list(bytes, gaps);
    let g = gaps[0];
    assert forall|i: int| 0 <= i < g.len() implies layout_char(#[trigger] g[i]) by {
        assert(layout_char(gaps[0][i]));
    }
    if bytes.len() == 0 {
        assert(s == g);
        assert forall|m: int| 0 <= m implies !occurs_at(s, ","@, m) by {
            if occurs_at(s, ","@, m) {
                assert(s.subrange(m, m + 1)[0] == s[m]);
            }
        }
        lemma_find_from_none(s, ","@, 0);
        assert(s.subrange(0, s.len() as int) =~= s);
        lemma_trim_blank(s);
        assert(bytes =~= Seq::<u8>::empty());
    } else {
        let b = bytes[0];
        let lit = hex_literal(b);
        lemma_hex_literal_chars(b);
        let rest_bytes = bytes.drop_first();
        let rest_gaps = gaps.drop_first();
        assert forall|k: int, i: int| 0 <= k < rest_gaps.len() && 0 <= i < rest_gaps[k].len()
            implies layout_char(#[trigger] rest_gaps[k][i]) by {
            assert(rest_gaps[k] == gaps[k + 1]);
            assert(layout_char(gaps[k + 1][i]));
        }
        lemma_laid_out_value(rest_bytes, rest_gaps);
        let rest = laid_out_list(rest_bytes, rest_gaps);
        let a = g + lit + ","@;
        assert(s == a + rest);
        let c = g.len() + 4int;
        assert(a.len() == c + 1);
        assert forall|m: int| 0 <= m < c implies #[trigger] s[m] != ',' by {
            if m < g.len() {
                assert(s[m] == g[m]);
            } else {
                assert(s[m] == lit[m - g.len()]);
            }
        }
        assert forall|m: int| 0 <= m < c implies !occurs_at(s, ","@, m) by {
            if occurs_at(s, ","@, m) {
                assert(s.subrange(m, m + 1)[0] == s[m]);
            }
        }
        assert(s[c] == ',');
        assert(s.subrange(c, c + 1) =~= ","@);
        lemma_find_from_first(s, ","@, 0, c);
        assert(s.subrange(0, c) =~= g + lit + Seq::<char>::empty());
        lemma_element_in_layout(g, b, Seq::<char>::empty());
        lemma_elements_shift(a, rest, 0);
        assert(seq![b] + rest_bytes =~= bytes);
        assert forall|m: int| 0 <= m < s.len() implies #[trigger] s[m] != ']' && s[m] != '=' by {
            if m < g.len() {
                assert(s[m] == g[m]);
                assert(layout_char(g[m]));
            } else if m < c {
                assert(s[m] == lit[m - g.len()]);
            } else if m > c {
                assert(s[m] == rest[m - c - 1]);
            }
        }
    }
}

/// A key file whose array is laid out over lines, with any spaces, tabs and
/// line breaks (`\n` or `\r\n`, as a checkout on Windows gives) around the
/// elements and a trailing comma, is read back exactly, for every name that
/// holds no `=`.
pub proof fn lemma_laid_out_roundtrip(name: Seq<char>, bytes: Seq<u8>, gaps: Seq<Seq<char>>)
    requires
        forall|i: int| 0 <= i < name.len() ==> name[i] != '=',
        gaps.len() == bytes.len() + 1,
        layout_gaps(gaps),
    ensures
        const_array_value(laid_out_decl(name, bytes, gaps), name, bytes.len()) == Ok::<
            Seq<u8>,
            ConstArrayFault,
        >(bytes),
{
    reveal_strlit("pub const ");
    reveal_strlit(": [u8; ");
    reveal_strlit(": [u8;");
    reveal_strlit("] = [");
    reveal_strlit("= [");
    reveal_strlit("]");
    reveal_strlit("];");
    let src = laid_out_decl(name, bytes, gaps);
    let d = decimal(bytes.len());
    let items = laid_out_list(bytes, gaps);
    let nl = name.len() as int;
    let dl = d.len() as int;
    lemma_decimal_digits(bytes.len());
    lemma_laid_out_value(bytes, gaps);
    let pre = const_decl_prefix(name);
    assert(src.subrange(0, pre.len() as int) =~= pre);
    lemma_find_from_first(src, pre, 0, 0);
    let e = nl + dl + 19;
    let open = e + 3;
    assert forall|m: int| 0 <= m < e implies #[trigger] src[m] != '=' by {
        if 10 <= m < 10 + nl {
            assert(src[m] == name[m - 10]);
        } else if 17 + nl <= m < 17 + nl + dl {
            assert(src[m] == d[m - 17 - nl]);
        }
    }
    assert(src.subrange(e, e + 3) =~= "= ["@);
    assert forall|m: int| 0 <= m < e implies !occurs_at(src, "= ["@, m) by {
        if occurs_at(src, "= ["@, m) {
            assert(src.subrange(m, m + 3)[0] == src[m]);
        }
    }
    lemma_find_from_first(src, "= ["@, 0, e);
    let close = open + items.len();
    assert forall|m: int| open <= m < close implies #[trigger] src[m] == items[m - open] by {}
    assert(src[close] == ']');
    assert(src.subrange(close, close + 1) =~= "]"@);
    assert forall|m: int| e + 2 <= m < close implies !occurs_at(src, "]"@, m) by {
        if occurs_at(src, "]"@, m) {
            assert(src.subrange(m, m + 1)[0] == src[m]);
            if m >= open {
                assert(items[m - open] == src[m]);
            }
        }
    }
    lemma_find_from_first(src, "]"@, e + 2, close);
    assert(src.subrange(open, close) =~= items);
}

} // verus!
