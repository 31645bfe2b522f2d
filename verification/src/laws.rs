//! Properties that hold across the library's functions.
use vstd::prelude::*;

use crate::hex::{hex_char_value, hex_chars, hex_digit, is_hex_char};
use crate::uart::crlf;
use crate::report::{hex_pairs, hex_run_len, pcr_line_text, pcr_prefix, pcr_value};
use crate::text::{
    decimal, digit_char, find_from, lemma_find_from, lemma_find_from_first, occurs_at,
};

verus! {

broadcast use vstd::string::group_string_axioms;

pub(crate) proof fn lemma_hex_digit_char(n: int)
    requires
        0 <= n < 16,
    ensures
        is_hex_char(hex_digit(n) as char),
        hex_char_value(hex_digit(n) as char) == n,
{
}

/// Hex encoding is undone by reading the digits back in pairs.
pub proof fn lemma_hex_roundtrip(bytes: Seq<u8>)
    ensures
        hex_pairs(hex_chars(bytes)) == bytes,
{
    let h = hex_chars(bytes);
    assert forall|i: int| 0 <= i < bytes.len() implies #[trigger] hex_pairs(h)[i] == bytes[i] by {
        let b = bytes[i];
        lemma_hex_digit_char(b as int / 16);
        lemma_hex_digit_char(b as int % 16);
        assert(h[2 * i] == hex_digit(b as int / 16) as char);
        assert(h[2 * i + 1] == hex_digit(b as int % 16) as char);
    }
    assert(hex_pairs(h) =~= bytes);
}

pub(crate) proof fn lemma_decimal_digits(n: nat)
    ensures
        decimal(n).len() >= 1,
        forall|i: int| 0 <= i < decimal(n).len() ==> '0' <= #[trigger] decimal(n)[i] <= '9',
    decreases n,
{
    if n >= 10 {
        lemma_decimal_digits(n / 10);
    }
}

proof fn lemma_hex_run(s: Seq<char>, i: int, j: int)
    requires
        0 <= i <= j <= s.len(),
        forall|m: int| i <= m < j ==> is_hex_char(#[trigger] s[m]),
        j == s.len() || !is_hex_char(s[j]),
    ensures
        hex_run_len(s, i) == j - i,
    decreases j - i,
{
    if i < j {
        lemma_hex_run(s, i + 1, j);
    }
}

/// The host reads back what the firmware printed: in any output where the
/// text before the firmware's `PCR[index]` line does not itself hold
/// `PCR[<index>] = 0x`, and the line is followed by a line break, the end
/// of the output, or any other character that is not a hex digit, the value
/// read for `PCR[index]` is the 32-byte register the line was printed from.
pub proof fn lemma_pcr_line_roundtrip(index: nat, pcr: Seq<u8>, before: Seq<char>, after: Seq<char>)
    requires
        pcr.len() == 32,
        find_from(before, pcr_prefix(index), 0) is None,
        after.len() == 0 || !is_hex_char(after[0]),
    ensures
        pcr_value(before + pcr_line_text(index, pcr) + after, index) == Some(pcr),
{
    reveal_strlit("          ");
    reveal_strlit("PCR[");
    reveal_strlit("] = 0x");
    let p = pcr_prefix(index);
    let d = decimal(index);
    let dl = d.len() as int;
    let h = hex_chars(pcr);
    let t = before + pcr_line_text(index, pcr) + after;
    let b = before.len() as int;
    let k0 = b + 10;
    lemma_decimal_digits(index);
    assert(p.len() == d.len() + 10);
    assert(p[0] == 'P');
    assert forall|i: int| 4 <= i < 4 + dl implies #[trigger] p[i] == d[i - 4] by {}
    assert(p[4 + dl] == ']');
    assert(p[5 + dl] == ' ');
    assert(p[6 + dl] == '=');
    assert(p[7 + dl] == ' ');
    assert(p[8 + dl] == '0');
    assert(p[9 + dl] == 'x');
    assert forall|m: int| b <= m < k0 implies #[trigger] t[m] == ' ' by {}
    assert forall|m: int| k0 <= m < k0 + p.len() implies #[trigger] t[m] == p[m - k0] by {}
    assert forall|m: int| k0 + p.len() <= m < k0 + p.len() + 64 implies #[trigger] t[m] == h[m - k0 - p.len()] by {}
    // The prefix occurs where the firmware printed it ...
    assert(t.subrange(k0, k0 + p.len()) =~= p);
    assert(occurs_at(t, p, k0));
    // ... and nowhere before.
    lemma_find_from(before, p, 0);
    assert forall|m: int| 0 <= m < k0 implies !occurs_at(t, p, m) by {
        if occurs_at(t, p, m) {
            assert forall|q: int| m <= q < m + p.len() implies #[trigger] t[q] == p[q - m] by {
                assert(t.subrange(m, m + p.len())[q - m] == t[q]);
            }
            if m + p.len() <= b {
                assert(before.subrange(m, m + p.len()) =~= t.subrange(m, m + p.len()));
                assert(occurs_at(before, p, m));
            } else if m < b {
                let o = b - m;
                assert(t[m + o] == ' ');
                assert(t[m + o + 1] == ' ');
                assert(p[o] == ' ');
                if o < 4 {
                } else if o < 4 + dl {
                    assert(p[o] == d[o - 4]);
                } else {
                    assert(o == 5 + dl || o == 7 + dl);
                    assert(p[o + 1] == ' ');
                }
            } else {
                assert(t[m] == ' ');
                assert(p[0] == t[m]);
            }
        }
    }
    lemma_find_from_first(t, p, 0, k0);
    // The hex value that follows is exactly the 64 digits printed.
    let start = k0 + p.len();
    assert forall|m: int| start <= m < start + 64 implies is_hex_char(#[trigger] t[m]) by {
        let i = m - start;
        assert(t[m] == h[i]);
        let byte = pcr[i / 2];
        if i % 2 == 0 {
            lemma_hex_digit_char(byte as int / 16);
        } else {
            lemma_hex_digit_char(byte as int % 16);
        }
    }
    if after.len() > 0 {
        assert(t[start + 64] == after[0]);
    }
    lemma_hex_run(t, start, start + 64);
    assert(t.subrange(start, start + 64) =~= h);
    lemma_hex_roundtrip(pcr);
}

/// The host reads back a bare `PCR[<index>] = 0x<hex>` record: in any
/// output where the text before the record does not hold `PCR[<index>] = 0x`,
/// and the 64 hex digits are followed by the end of the output or by a
/// character that is not a hex digit, the value read for `PCR[index]` is the
/// 32-byte register the record was written from.
pub proof fn lemma_pcr_record_roundtrip(index: nat, pcr: Seq<u8>, before: Seq<char>, after: Seq<char>)
    requires
        pcr.len() == 32,
        find_from(before, pcr_prefix(index), 0) is None,
        after.len() == 0 || !is_hex_char(after[0]),
    ensures
        pcr_value(before + pcr_prefix(index) + hex_chars(pcr) + after, index) == Some(pcr),
{
    reveal_strlit("PCR[");
    reveal_strlit("] = 0x");
    let p = pcr_prefix(index);
    let d = decimal(index);
    let dl = d.len() as int;
    let h = hex_chars(pcr);
    let t = before + p + h + after;
    let b = before.len() as int;
    lemma_decimal_digits(index);
    assert(p.len() == d.len() + 10);
    assert(p[0] == 'P');
    // `P` opens the prefix and occurs nowhere else in it.
    assert forall|i: int| 1 <= i < p.len() implies #[trigger] p[i] != 'P' by {
        if 4 <= i < 4 + dl {
            assert(p[i] == d[i - 4]);
        }
    }
    assert forall|m: int| b <= m < b + p.len() implies #[trigger] t[m] == p[m - b] by {}
    assert forall|m: int| b + p.len() <= m < b + p.len() + 64 implies #[trigger] t[m] == h[m - b
        - p.len()] by {}
    // The prefix occurs where the record was written ...
    assert(t.subrange(b, b + p.len()) =~= p);
    assert(occurs_at(t, p, b));
    // ... and nowhere before: an earlier occurrence lies in `before`, or ends
    // past it with the record's `P` at a later place of the prefix.
    lemma_find_from(before, p, 0);
    assert forall|m: int| 0 <= m < b implies !occurs_at(t, p, m) by {
        if occurs_at(t, p, m) {
            assert forall|q: int| m <= q < m + p.len() implies #[trigger] t[q] == p[q - m] by {
                assert(t.subrange(m, m + p.len())[q - m] == t[q]);
            }
            if m + p.len() <= b {
                assert(before.subrange(m, m + p.len()) =~= t.subrange(m, m + p.len()));
                assert(occurs_at(before, p, m));
            } else {
                assert(t[b] == p[0]);
                assert(t[m + (b - m)] == p[b - m]);
            }
        }
    }
    lemma_find_from_first(t, p, 0, b);
    // The hex value that follows is exactly the 64 digits written.
    let start = b + p.len();
    assert forall|m: int| start <= m < start + 64 implies is_hex_char(#[trigger] t[m]) by {
        let i = m - start;
        assert(t[m] == h[i]);
        let byte = pcr[i / 2];
        if i % 2 == 0 {
            lemma_hex_digit_char(byte as int / 16);
        } else {
            lemma_hex_digit_char(byte as int % 16);
        }
    }
    if after.len() > 0 {
        assert(t[start + 64] == after[0]);
    }
    lemma_hex_run(t, start, start + 64);
    assert(t.subrange(start, start + 64) =~= h);
    lemma_hex_roundtrip(pcr);
}

/// Sending text in pieces puts the same bytes on the line as sending it
/// whole: the conversion of `\n` to `\r\n` works byte by byte.
pub proof fn lemma_crlf_concat(a: Seq<u8>, b: Seq<u8>)
    ensures
        crlf(a + b) == crlf(a) + crlf(b),
    decreases b.len(),
{
    if b.len() == 0 {
        assert(a + b =~= a);
        assert(crlf(a) + crlf(b) =~= crlf(a));
    } else {
        assert((a + b).drop_last() =~= a + b.drop_last());
        assert((a + b).last() == b.last());
        lemma_crlf_concat(a, b.drop_last());
        let tail = if b.last() == 10u8 {
            seq![13u8, 10u8]
        } else {
            seq![b.last()]
        };
        assert(crlf(a) + crlf(b.drop_last()) + tail =~= crlf(a) + (crlf(b.drop_last()) + tail));
    }
}

/// How many line feeds (10) `bytes` holds.
pub open spec fn line_feed_count(bytes: Seq<u8>) -> nat
    decreases bytes.len(),
{
    if bytes.len() == 0 {
        0
    } else {
        line_feed_count(bytes.drop_last()) + if bytes.last() == 10u8 {
            1nat
        } else {
            0nat
        }
    }
}

/// On the line, every line feed comes right after a carriage return, and
/// one byte goes out per input byte plus one per line feed.
pub proof fn lemma_crlf_line_feeds(bytes: Seq<u8>)
    ensures
        forall|i: int|
            0 <= i < crlf(bytes).len() && #[trigger] crlf(bytes)[i] == 10u8 ==> i > 0 && crlf(
                bytes,
            )[i - 1] == 13u8,
        crlf(bytes).len() == bytes.len() + line_feed_count(bytes),
    decreases bytes.len(),
{
    if bytes.len() > 0 {
        let init = bytes.drop_last();
        lemma_crlf_line_feeds(init);
        let out = crlf(bytes);
        let prev = crlf(init);
        assert forall|i: int| 0 <= i < out.len() && #[trigger] out[i] == 10u8 implies i > 0
            && out[i - 1] == 13u8 by {
            if i < prev.len() {
                assert(out[i] == prev[i]);
                assert(out[i - 1] == prev[i - 1]);
            }
        }
    }
}

/// Lines of output, each ended by `\r\n` as the UART sends it.
pub open spec fn join_lines(lines: Seq<Seq<char>>) -> Seq<char>
    decreases lines.len(),
{
    if lines.len() == 0 {
        Seq::empty()
    } else {
        join_lines(lines.drop_last()) + lines.last() + "\r\n"@
    }
}

/// The number that decimal digits spell.
spec fn digits_value(s: Seq<char>) -> int
    decreases s.len(),
{
    if s.len() == 0 {
        0
    } else {
        digits_value(s.drop_last()) * 10 + (s.last() as int - '0' as int)
    }
}

proof fn lemma_decimal_value(n: nat)
    ensures
        digits_value(decimal(n)) == n,
    decreases n,
{
    let d = (n % 10) as nat;
    assert(digit_char(d) as int == 48 + d);
    assert('0' as int == 48);
    let s = decimal(n);
    assert(digits_value(s) == digits_value(s.drop_last()) * 10 + (s.last() as int - '0' as int));
    if n >= 10 {
        lemma_decimal_value(n / 10);
        assert(decimal(n).drop_last() =~= decimal(n / 10));
        assert(decimal(n).last() == digit_char(d));
        assert((n / 10) * 10 + d == n);
    } else {
        assert(decimal(n).drop_last() =~= Seq::<char>::empty());
        assert(decimal(n).last() == digit_char(d));
    }
}

pub(crate) proof fn lemma_find_from_none(hay: Seq<char>, needle: Seq<char>, i: int)
    requires
        0 <= i,
        forall|m: int| i <= m ==> !occurs_at(hay, needle, m),
    ensures
        find_from(hay, needle, i) is None,
    decreases hay.len() + 1 - i,
{
    if i + needle.len() <= hay.len() {
        lemma_find_from_none(hay, needle, i + 1);
    }
}

/// The line printed for one register never holds the prefix of another.
pub(crate) proof fn lemma_pcr_line_other_index(line_index: nat, pcr: Seq<u8>, index: nat)
    requires
        line_index != index,
        pcr.len() == 32,
    ensures
        find_from(pcr_line_text(line_index, pcr), pcr_prefix(index), 0) is None,
{
    reveal_strlit("          ");
    reveal_strlit("PCR[");
    reveal_strlit("] = 0x");
    let line = pcr_line_text(line_index, pcr);
    let q = pcr_prefix(index);
    let dj = decimal(line_index);
    let di = decimal(index);
    let a = di.len() as int;
    let b = dj.len() as int;
    let h = hex_chars(pcr);
    lemma_decimal_digits(line_index);
    lemma_decimal_digits(index);
    assert forall|m: int| 0 <= m implies !occurs_at(line, q, m) by {
        if occurs_at(line, q, m) {
            assert(line.subrange(m, m + q.len())[0] == line[m]);
            assert(line[m] == 'P');
            if m < 10 {
                assert(line[m] == ' ');
            } else if m == 10 {
                assert forall|t: int| 0 <= t < q.len() implies #[trigger] line[10 + t] == q[t] by {
                    assert(line.subrange(10, 10 + q.len() as int)[t] == line[10 + t]);
                }
                if a < b {
                    assert(q[4 + a] == ']');
                    assert(line[14 + a] == dj[a]);
                } else if a > b {
                    assert(line[14 + b] == ']');
                    assert(q[4 + b] == di[b]);
                } else {
                    assert forall|t: int| 0 <= t < a implies di[t] == dj[t] by {
                        assert(q[4 + t] == di[t]);
                        assert(line[14 + t] == dj[t]);
                    }
                    assert(di =~= dj);
                    lemma_decimal_value(line_index);
                    lemma_decimal_value(index);
                }
            } else if m < 14 + b {
                if m < 14 {
                } else {
                    assert(line[m] == dj[m - 14]);
                }
            } else if m < 20 + b {
                assert(line[m] == "] = 0x"@[m - 14 - b]);
            } else {
                let t = m - 20 - b;
                assert(line[m] == h[t]);
                let byte = pcr[t / 2];
                if t % 2 == 0 {
                    lemma_hex_digit_char(byte as int / 16);
                } else {
                    lemma_hex_digit_char(byte as int % 16);
                }
            }
        }
    }
    lemma_find_from_none(line, q, 0);
}

proof fn lemma_no_occurrence_after_line_feed(a: Seq<char>, b: Seq<char>, q: Seq<char>)
    requires
        a.len() == 0 || a.last() == '\n',
        q.len() > 0,
        forall|t: int| 0 <= t < q.len() ==> q[t] != '\n',
        forall|m: int| 0 <= m ==> !occurs_at(a, q, m),
        forall|m: int| 0 <= m ==> !occurs_at(b, q, m),
    ensures
        forall|m: int| 0 <= m ==> !occurs_at(a + b, q, m),
{
    let s = a + b;
    assert forall|m: int| 0 <= m implies !occurs_at(s, q, m) by {
        if occurs_at(s, q, m) {
            let al = a.len() as int;
            if m + q.len() <= al {
                assert(a.subrange(m, m + q.len()) =~= s.subrange(m, m + q.len()));
                assert(occurs_at(a, q, m));
            } else if m >= al {
                assert(b.subrange(m - al, m - al + q.len()) =~= s.subrange(m, m + q.len()));
                assert(occurs_at(b, q, m - al));
            } else {
                assert(s.subrange(m, m + q.len())[al - 1 - m] == s[al - 1]);
                assert(s[al - 1] == a.last());
                assert(q[al - 1 - m] == '\n');
            }
        }
    }
}

pub(crate) proof fn lemma_join_lines_free(lines: Seq<Seq<char>>, q: Seq<char>)
    requires
        q.len() > 0,
        forall|t: int| 0 <= t < q.len() ==> q[t] != '\n' && q[t] != '\r',
        forall|j: int| 0 <= j < lines.len() ==> find_from(#[trigger] lines[j], q, 0) is None,
    ensures
        forall|m: int| 0 <= m ==> !occurs_at(join_lines(lines), q, m),
        join_lines(lines).len() == 0 || join_lines(lines).last() == '\n',
    decreases lines.len(),
{
    reveal_strlit("\r\n");
    if lines.len() > 0 {
        let init = lines.drop_last();
        assert forall|j: int| 0 <= j < init.len() implies find_from(#[trigger] init[j], q, 0) is None by {
            assert(init[j] == lines[j]);
        }
        lemma_join_lines_free(init, q);
        let l = lines.last();
        let ln = l + "\r\n"@;
        assert(find_from(lines[lines.len() - 1], q, 0) is None);
        lemma_find_from(l, q, 0);
        assert forall|m: int| 0 <= m implies !occurs_at(ln, q, m) by {
            if occurs_at(ln, q, m) {
                if m + q.len() <= l.len() {
                    assert(l.subrange(m, m + q.len()) =~= ln.subrange(m, m + q.len()));
                    assert(occurs_at(l, q, m));
                } else if m < l.len() {
                    let t = l.len() - m;
                    assert(ln.subrange(m, m + q.len())[t] == ln[l.len() as int]);
                    assert(ln[l.len() as int] == '\r');
                    assert(q[t] == '\r');
                } else {
                    assert(ln.subrange(m, m + q.len())[0] == ln[m]);
                    assert(ln[m] == '\r' || ln[m] == '\n');
                }
            }
        }
        lemma_no_occurrence_after_line_feed(join_lines(init), ln, q);
        assert(join_lines(init) + ln =~= join_lines(lines));
    }
}

proof fn lemma_join_lines_split(lines: Seq<Seq<char>>, k: int)
    requires
        0 <= k < lines.len(),
    ensures
        join_lines(lines) == join_lines(lines.subrange(0, k)) + lines[k] + ("\r\n"@ + join_lines(
            lines.subrange(k + 1, lines.len() as int),
        )),
    decreases lines.len(),
{
    if k == lines.len() - 1 {
        assert(lines.subrange(0, k) =~= lines.drop_last());
        assert(lines.subrange(k + 1, lines.len() as int) =~= Seq::<Seq<char>>::empty());
        assert(join_lines(Seq::<Seq<char>>::empty()) =~= Seq::<char>::empty());
        assert(join_lines(lines.subrange(0, k)) + lines[k] + ("\r\n"@ + Seq::<char>::empty())
            =~= join_lines(lines));
    } else {
        let init = lines.drop_last();
        lemma_join_lines_split(init, k);
        assert(init.subrange(0, k) =~= lines.subrange(0, k));
        let rest = lines.subrange(k + 1, lines.len() as int);
        assert(init.subrange(k + 1, init.len() as int) =~= rest.drop_last());
        assert(rest.last() == lines.last());
        assert(init[k] == lines[k]);
        assert(join_lines(lines.subrange(0, k)) + lines[k] + ("\r\n"@ + join_lines(rest))
            =~= join_lines(lines));
    }
}

/// The host reads back each register from the firmware's output: in any
/// output made of lines, the value read for `PCR[index]` is the register of
/// the first line printed for it, when no earlier line holds
/// `PCR[<index>] = 0x` (the other registers' lines never do).
pub proof fn lemma_output_pcr_roundtrip(lines: Seq<Seq<char>>, k: int, index: nat, pcr: Seq<u8>)
    requires
        0 <= k < lines.len(),
        pcr.len() == 32,
        lines[k] == pcr_line_text(index, pcr),
        forall|j: int| 0 <= j < k ==> find_from(#[trigger] lines[j], pcr_prefix(index), 0) is None,
    ensures
        pcr_value(join_lines(lines), index) == Some(pcr),
{
    reveal_strlit("\r\n");
    reveal_strlit("PCR[");
    reveal_strlit("] = 0x");
    let q = pcr_prefix(index);
    lemma_decimal_digits(index);
    assert forall|t: int| 0 <= t < q.len() implies q[t] != '\n' && q[t] != '\r' by {
        let dl = decimal(index).len() as int;
        if 4 <= t < 4 + dl {
            assert(q[t] == decimal(index)[t - 4]);
        }
    }
    let before_lines = lines.subrange(0, k);
    assert forall|j: int| 0 <= j < before_lines.len() implies find_from(
        #[trigger] before_lines[j],
        q,
        0,
    ) is None by {
        assert(before_lines[j] == lines[j]);
    }
    lemma_join_lines_free(before_lines, q);
    let before = join_lines(before_lines);
    lemma_find_from_none(before, q, 0);
    let after = "\r\n"@ + join_lines(lines.subrange(k + 1, lines.len() as int));
    assert(after[0] == '\r');
    lemma_join_lines_split(lines, k);
    lemma_pcr_line_roundtrip(index, pcr, before, after);
}

/// The firmware's report of `PCR[0]`, `PCR[1]`, `PCR[2]`, one line each in
/// that order, gives the host all three registers back.
pub proof fn lemma_report_roundtrip(p0: Seq<u8>, p1: Seq<u8>, p2: Seq<u8>)
    requires
        p0.len() == 32,
        p1.len() == 32,
        p2.len() == 32,
    ensures
        ({
            let out = join_lines(seq![pcr_line_text(0, p0), pcr_line_text(1, p1), pcr_line_text(2, p2)]);
            &&& pcr_value(out, 0) == Some(p0)
            &&& pcr_value(out, 1) == Some(p1)
            &&& pcr_value(out, 2) == Some(p2)
        }),
{
    let lines = seq![pcr_line_text(0, p0), pcr_line_text(1, p1), pcr_line_text(2, p2)];
    lemma_output_pcr_roundtrip(lines, 0, 0, p0);
    lemma_pcr_line_other_index(0, p0, 1);
    lemma_output_pcr_roundtrip(lines, 1, 1, p1);
    lemma_pcr_line_other_index(1, p1, 2);
    lemma_pcr_line_other_index(0, p0, 2);
    lemma_output_pcr_roundtrip(lines, 2, 2, p2);
}

} // verus!
