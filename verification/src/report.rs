//! The `PCR[i] = 0x...` lines that the firmware prints, and the host-side
//! parser that reads a PCR value back out of the firmware's output.
use vstd::prelude::*;

use crate::hex::{hex_char_value, hex_char_value_exec, hex_chars, is_hex_char, is_hex_char_exec, push_hex_chars};
use crate::text::{chars_of, decimal, decimal_chars, find, find_from, string_from_chars};

verus! {

broadcast use vstd::string::group_string_axioms;

/// `PCR[<index>] = 0x`: what precedes a register's hex value in the output.
pub open spec fn pcr_prefix(index: nat) -> Seq<char> {
    "PCR["@ + decimal(index) + "] = 0x"@
}

/// The line the firmware prints for a measured register:
/// ten spaces, `PCR[<index>] = 0x`, then 64 lower-case hex digits.
pub open spec fn pcr_line_text(index: nat, pcr: Seq<u8>) -> Seq<char> {
    "          "@ + pcr_prefix(index) + hex_chars(pcr)
}

/// Length of the run of hex digits in `s` that starts at `i`.
pub open spec fn hex_run_len(s: Seq<char>, i: int) -> nat
    decreases s.len() - i,
{
    if 0 <= i < s.len() && is_hex_char(s[i]) {
        1 + hex_run_len(s, i + 1)
    } else {
        0
    }
}

/// The bytes spelled by pairs of hex digits (high digit first).
pub open spec fn hex_pairs(run: Seq<char>) -> Seq<u8> {
    Seq::new(
        run.len() / 2,
        |i: int| (hex_char_value(run[2 * i]) * 16 + hex_char_value(run[2 * i + 1])) as u8,
    )
}

/// The register value that `output` reports for `PCR[index]`: at the first
/// occurrence of `PCR[<index>] = 0x` (which lies in the first line that holds
/// it), the run of hex digits that follows must be exactly 64 long.
pub open spec fn pcr_value(output: Seq<char>, index: nat) -> Option<Seq<u8>> {
    match find_from(output, pcr_prefix(index), 0) {
        None => None,
        Some(k) => {
            let start = k + pcr_prefix(index).len();
            let run = output.subrange(start, start + hex_run_len(output, start));
            if run.len() == 64 {
                Some(hex_pairs(run))
            } else {
                None
            }
        },
    }
}

/// The characters of `PCR[<index>] = 0x`.
pub fn prefix_chars(index: usize) -> (v: Vec<char>)
    ensures
        v@ == pcr_prefix(index as nat),
{
    let mut v = chars_of("PCR[");
    let mut digits = decimal_chars(index);
    let mut tail = chars_of("] = 0x");
    v.append(&mut digits);
    v.append(&mut tail);
    v
}

/// The line the firmware prints for `PCR[index]`.
pub fn pcr_line(index: usize, pcr: &[u8; 32]) -> (line: String)
    ensures
        line@ == pcr_line_text(index as nat, pcr@),
{
    let mut v = chars_of("          ");
    let mut prefix = prefix_chars(index);
    v.append(&mut prefix);
    push_hex_chars(&mut v, pcr.as_slice());
    string_from_chars(&v)
}

/// Reads `PCR[index]` back from the firmware's `output`; `None` where the
/// line is missing or its hex value is not exactly 64 digits long.
pub fn parse_pcr(output: &str, index: usize) -> (r: Option<[u8; 32]>)
    ensures
        match r {
            Some(bytes) => pcr_value(output@, index as nat) == Some(bytes@),
            None => pcr_value(output@, index as nat) is None,
        },
{
    let text = chars_of(output);
    let len = text.len();
    let prefix = prefix_chars(index);
    let k = match find(&text, &prefix, 0) {
        None => {
            return None;
        },
        Some(k) => k,
    };
    proof {
        crate::text::lemma_find_from(text@, prefix@, 0);
    }
    let start = k + prefix.len();
    let mut j = start;
    while j < len && is_hex_char_exec(text[j])
        invariant
            start <= j <= len == text@.len(),
            hex_run_len(text@, start as int) == (j - start) + hex_run_len(text@, j as int),
            forall|m: int| start <= m < j ==> is_hex_char(#[trigger] text@[m]),
        decreases len - j,
    {
        j = j + 1;
    }
    if j - start != 64 {
        return None;
    }
    let ghost run = text@.subrange(start as int, j as int);
    let mut bytes = [0u8; 32];
    let mut i: usize = 0;
    while i < 32
        invariant
            j == start + 64,
            j <= len == text@.len(),
            run == text@.subrange(start as int, j as int),
            forall|m: int| start <= m < j ==> is_hex_char(#[trigger] text@[m]),
            i <= 32,
            forall|m: int| 0 <= m < i ==> bytes@[m] == #[trigger] hex_pairs(run)[m],
        decreases 32 - i,
    {
        let hi = hex_char_value_exec(text[start + 2 * i]);
        let lo = hex_char_value_exec(text[start + 2 * i + 1]);
        assert(run[2 * i as int] == text@[start + 2 * i]);
        assert(run[2 * i + 1] == text@[start + 2 * i + 1]);
        bytes[i] = hi * 16 + lo;
        i = i + 1;
    }
    assert(bytes@ =~= hex_pairs(run));
    Some(bytes)
}

} // verus!
