//! What the UART puts on the wire for printed lines: their UTF-8 bytes,
//! each line ended by `\r\n`.
use vstd::prelude::*;
use vstd::utf8::{
    encode_scalar, encode_utf8, has_width_1_encoding,
    leading_byte_width_1, leading_byte_width_2, leading_byte_width_3, leading_byte_width_4,
    last_continuation_byte, second_last_continuation_byte, third_last_continuation_byte,
};

use crate::laws::{join_lines, lemma_crlf_concat};
use crate::uart::crlf;

verus! {

broadcast use vstd::string::group_string_axioms;

/// Lines each followed by `\n`, as `println!` writes them.
pub open spec fn join_lines_lf(lines: Seq<Seq<char>>) -> Seq<char>
    decreases lines.len(),
{
    if lines.len() == 0 {
        Seq::empty()
    } else {
        join_lines_lf(lines.drop_last()) + lines.last() + "\n"@
    }
}

/// The text holds no line feed.
pub open spec fn no_line_feed(s: Seq<char>) -> bool {
    forall|i: int| 0 <= i < s.len() ==> #[trigger] s[i] != '\n'
}

proof fn lemma_encode_concat(a: Seq<char>, b: Seq<char>)
    ensures
        encode_utf8(a + b) == encode_utf8(a) + encode_utf8(b),
    decreases a.len(),
{
    if a.len() == 0 {
        assert(a + b =~= b);
        assert(encode_utf8(a) =~= Seq::<u8>::empty());
        assert(encode_utf8(a) + encode_utf8(b) =~= encode_utf8(b));
    } else {
        assert((a + b).drop_first() =~= a.drop_first() + b);
        assert((a + b)[0] == a[0]);
        lemma_encode_concat(a.drop_first(), b);
        assert(encode_scalar(a[0] as u32) + (encode_utf8(a.drop_first()) + encode_utf8(b))
            =~= encode_scalar(a[0] as u32) + encode_utf8(a.drop_first()) + encode_utf8(b));
    }
}

proof fn lemma_scalar_no_line_feed(c: char)
    requires
        c != '\n',
    ensures
        forall|i: int|
            0 <= i < encode_scalar(c as u32).len() ==> #[trigger] encode_scalar(c as u32)[i] != 10u8,
{
    let v = c as u32;
    assert(v != 10u32);
    if has_width_1_encoding(v) {
        assert((v & 0x7F) as u8 != 10u8) by (bit_vector)
            requires
                v <= 0x7F,
                v != 10u32,
        ;
        assert(leading_byte_width_1(v) != 10u8);
    } else {
        assert((0xC0u8 | ((v >> 6) & 0x1F) as u8) != 10u8) by (bit_vector);
        assert((0xE0u8 | ((v >> 12) & 0x0F) as u8) != 10u8) by (bit_vector);
        assert((0xF0u8 | ((v >> 18) & 0x7) as u8) != 10u8) by (bit_vector);
        assert((0x80u8 | (v & 0x3F) as u8) != 10u8) by (bit_vector);
        assert((0x80u8 | ((v >> 6) & 0x3F) as u8) != 10u8) by (bit_vector);
        assert((0x80u8 | ((v >> 12) & 0x3F) as u8) != 10u8) by (bit_vector);
        assert(leading_byte_width_2(v) != 10u8);
        assert(leading_byte_width_3(v) != 10u8);
        assert(leading_byte_width_4(v) != 10u8);
        assert(last_continuation_byte(v) != 10u8);
        assert(second_last_continuation_byte(v) != 10u8);
        assert(third_last_continuation_byte(v) != 10u8);
    }
}

proof fn lemma_encode_no_line_feed(s: Seq<char>)
    requires
        no_line_feed(s),
    ensures
        forall|i: int| 0 <= i < encode_utf8(s).len() ==> #[trigger] encode_utf8(s)[i] != 10u8,
    decreases s.len(),
{
    if s.len() > 0 {
        let rest = s.drop_first();
        assert(no_line_feed(rest)) by {
            assert forall|i: int| 0 <= i < rest.len() implies #[trigger] rest[i] != '\n' by {
                assert(rest[i] == s[i + 1]);
            }
        }
        lemma_encode_no_line_feed(rest);
        assert(s[0] != '\n');
        lemma_scalar_no_line_feed(s[0]);
        let e = encode_utf8(s);
        let first = encode_scalar(s[0] as u32);
        assert(e == first + encode_utf8(rest));
        assert forall|i: int| 0 <= i < e.len() implies #[trigger] e[i] != 10u8 by {
            if i < first.len() {
                assert(e[i] == first[i]);
            } else {
                assert(e[i] == encode_utf8(rest)[i - first.len()]);
            }
        }
    }
}

proof fn lemma_crlf_identity(b: Seq<u8>)
    requires
        forall|i: int| 0 <= i < b.len() ==> #[trigger] b[i] != 10u8,
    ensures
        crlf(b) == b,
    decreases b.len(),
{
    if b.len() > 0 {
        let init = b.drop_last();
        assert forall|i: int| 0 <= i < init.len() implies #[trigger] init[i] != 10u8 by {
            assert(init[i] == b[i]);
        }
        lemma_crlf_identity(init);
        assert(b.last() != 10u8);
        assert(init + seq![b.last()] =~= b);
    }
}

/// One line and its `\n` go out as the line's bytes and `\r\n`.
proof fn lemma_crlf_line(l: Seq<char>)
    requires
        no_line_feed(l),
    ensures
        crlf(encode_utf8(l + "\n"@)) == encode_utf8(l + "\r\n"@),
{
    reveal_strlit("\n");
    reveal_strlit("\r\n");
    lemma_encode_concat(l, "\n"@);
    lemma_encode_concat(l, "\r\n"@);
    lemma_encode_no_line_feed(l);
    lemma_crlf_identity(encode_utf8(l));
    lemma_crlf_concat(encode_utf8(l), encode_utf8("\n"@));
    let nl = "\n"@;
    let crnl = "\r\n"@;
    assert(nl.drop_first() =~= Seq::<char>::empty());
    assert(encode_utf8(Seq::<char>::empty()) =~= Seq::<u8>::empty());
    assert(nl[0] == '\n');
    assert(('\n' as u32) == 10u32);
    assert((10u32 & 0x7F) as u8 == 10u8) by (bit_vector);
    assert((13u32 & 0x7F) as u8 == 13u8) by (bit_vector);
    assert(encode_scalar(10u32) =~= seq![10u8]);
    assert(encode_scalar(13u32) =~= seq![13u8]);
    assert(encode_utf8(nl) =~= seq![10u8]);
    assert(crnl.drop_first() =~= nl);
    assert(crnl[0] == '\r');
    assert(encode_utf8(crnl) =~= seq![13u8, 10u8]);
    let lf = seq![10u8];
    assert(lf.drop_last() =~= Seq::<u8>::empty());
    assert(crlf(Seq::<u8>::empty()) =~= Seq::<u8>::empty());
    assert(lf.last() == 10u8);
    assert(crlf(lf) == crlf(lf.drop_last()) + seq![13u8, 10u8]);
    assert(crlf(lf) =~= seq![13u8, 10u8]);
}

/// Lines printed each with `\n` through `uart_puts` put on the wire the
/// UTF-8 bytes of the same lines each ended by `\r\n`, whatever pieces the
/// text was handed over in.
pub proof fn lemma_uart_lines(lines: Seq<Seq<char>>)
    requires
        forall|j: int| 0 <= j < lines.len() ==> no_line_feed(#[trigger] lines[j]),
    ensures
        crlf(encode_utf8(join_lines_lf(lines))) == encode_utf8(join_lines(lines)),
    decreases lines.len(),
{
    if lines.len() > 0 {
        let init = lines.drop_last();
        let l = lines.last();
        assert forall|j: int| 0 <= j < init.len() implies no_line_feed(#[trigger] init[j]) by {
            assert(init[j] == lines[j]);
        }
        lemma_uart_lines(init);
        assert(no_line_feed(lines[lines.len() - 1]));
        lemma_crlf_line(l);
        assert(join_lines_lf(lines) =~= join_lines_lf(init) + (l + "\n"@));
        assert(join_lines(lines) =~= join_lines(init) + (l + "\r\n"@));
        lemma_encode_concat(join_lines_lf(init), l + "\n"@);
        lemma_encode_concat(join_lines(init), l + "\r\n"@);
        lemma_crlf_concat(encode_utf8(join_lines_lf(init)), encode_utf8(l + "\n"@));
    }
}

/// The bytes received with the carriage return taken out of each `\r\n`
/// pair, read from the back.
pub open spec fn uncrlf(bytes: Seq<u8>) -> Seq<u8>
    decreases bytes.len(),
{
    if bytes.len() == 0 {
        Seq::empty()
    } else if bytes.len() >= 2 && bytes.last() == 10u8 && bytes[bytes.len() - 2] == 13u8 {
        uncrlf(bytes.subrange(0, bytes.len() - 2)).push(10u8)
    } else {
        uncrlf(bytes.drop_last()).push(bytes.last())
    }
}

/// Taking out the carriage return that the UART puts before each line feed
/// gives back exactly the bytes that were printed.
pub proof fn lemma_uncrlf_crlf(bytes: Seq<u8>)
    ensures
        uncrlf(crlf(bytes)) == bytes,
    decreases bytes.len(),
{
    if bytes.len() > 0 {
        let init = bytes.drop_last();
        lemma_uncrlf_crlf(init);
        let sent = crlf(bytes);
        let prev = crlf(init);
        if bytes.last() == 10u8 {
            assert(sent == prev + seq![13u8, 10u8]);
            assert(sent.subrange(0, sent.len() - 2) =~= prev);
        } else {
            assert(sent == prev + seq![bytes.last()]);
            assert(sent.drop_last() =~= prev);
        }
        assert(uncrlf(sent) =~= bytes);
    }
}

} // verus!
