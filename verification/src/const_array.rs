//! Reading a byte-array constant, `pub const NAME: [u8; N] = [0xNN, ...];`,
//! out of Rust source text.
use vstd::prelude::*;

use crate::hex::{parse_hex_u8, parse_hex_u8_exec};
use crate::text::{chars_of, copy_range, find, find_from, lemma_find_from, trim, trim_range};

verus! {

broadcast use vstd::string::group_string_axioms;

/// Why no array could be read from the source.
#[derive(Debug)]
pub enum ConstArrayError {
    /// No `pub const NAME: [u8;` declaration.
    NotFound,
    /// No `= [` after the declaration.
    MissingInitializer,
    /// No `]` closing the array value.
    Unterminated,
    /// An element that is not a hex byte; the element after its `0x` prefixes.
    InvalidHex(Vec<char>),
    /// The array holds this many bytes, not the number asked for.
    WrongLength(usize),
}

/// `ConstArrayError` with its text as a sequence.
pub enum ConstArrayFault {
    NotFound,
    MissingInitializer,
    Unterminated,
    InvalidHex(Seq<char>),
    WrongLength(nat),
}

impl View for ConstArrayError {
    type V = ConstArrayFault;

    open spec fn view(&self) -> ConstArrayFault {
        match self {
            ConstArrayError::NotFound => ConstArrayFault::NotFound,
            ConstArrayError::MissingInitializer => ConstArrayFault::MissingInitializer,
            ConstArrayError::Unterminated => ConstArrayFault::Unterminated,
            ConstArrayError::InvalidHex(t) => ConstArrayFault::InvalidHex(t@),
            ConstArrayError::WrongLength(n) => ConstArrayFault::WrongLength(*n as nat),
        }
    }
}

/// `str::trim_start_matches("0x")`: drop every leading `0x`.
pub open spec fn strip_hex_prefix(s: Seq<char>) -> Seq<char>
    decreases s.len(),
{
    if s.len() >= 2 && s[0] == '0' && s[1] == 'x' {
        strip_hex_prefix(s.subrange(2, s.len() as int))
    } else {
        s
    }
}

/// One comma-separated element: nothing if it is blank, else one byte;
/// `Err` carries the element (trimmed, `0x` dropped) that is no hex byte.
pub open spec fn hex_element(piece: Seq<char>) -> Result<Seq<u8>, Seq<char>> {
    let t = trim(piece);
    if t.len() == 0 {
        Ok(Seq::empty())
    } else {
        match parse_hex_u8(strip_hex_prefix(t)) {
            Some(b) => Ok(seq![b]),
            None => Err(strip_hex_prefix(t)),
        }
    }
}

/// The bytes of the comma-separated elements of `s` from position `start`
/// on, in order; `Err` for the first element that is not a hex byte.
pub open spec fn hex_elements_from(s: Seq<char>, start: int) -> Result<Seq<u8>, Seq<char>>
    decreases s.len() + 1 - start,
{
    if start < 0 || start > s.len() {
        Ok(Seq::empty())
    } else {
        match find_from(s, ","@, start) {
            None => hex_element(s.subrange(start, s.len() as int)),
            Some(j) => {
                proof {
                    lemma_find_from(s, ","@, start);
                }
                match hex_element(s.subrange(start, j)) {
                    Err(t) => Err(t),
                    Ok(v) => match hex_elements_from(s, j + 1) {
                        Err(t) => Err(t),
                        Ok(w) => Ok(v + w),
                    },
                }
            },
        }
    }
}

/// The text that opens the declaration of `name`.
pub open spec fn const_decl_prefix(name: Seq<char>) -> Seq<char> {
    "pub const "@ + name + ": [u8;"@
}

/// The value of the byte-array constant `name` in `src`: after the first
/// `pub const NAME: [u8;`, the first `= [` opens the value and the first `]`
/// after it closes it; the elements between are parsed as hex bytes and
/// there must be `expected_len` of them.
pub open spec fn const_array_value(src: Seq<char>, name: Seq<char>, expected_len: nat) -> Result<
    Seq<u8>,
    ConstArrayFault,
> {
    match find_from(src, const_decl_prefix(name), 0) {
        None => Err(ConstArrayFault::NotFound),
        Some(start) => match find_from(src, "= ["@, start) {
            None => Err(ConstArrayFault::MissingInitializer),
            Some(eq) => match find_from(src, "]"@, eq + 2) {
                None => Err(ConstArrayFault::Unterminated),
                Some(close) => match hex_elements_from(src.subrange(eq + 3, close), 0) {
                    Err(t) => Err(ConstArrayFault::InvalidHex(t)),
                    Ok(bytes) => if bytes.len() == expected_len {
                        Ok(bytes)
                    } else {
                        Err(ConstArrayFault::WrongLength(bytes.len()))
                    },
                },
            },
        },
    }
}

fn hex_element_exec(s: &Vec<char>, lo: usize, hi: usize) -> (r: Result<Option<u8>, Vec<char>>)
    requires
        lo <= hi <= s@.len(),
    ensures
        match (r, hex_element(s@.subrange(lo as int, hi as int))) {
            (Ok(None), Ok(v)) => v == Seq::<u8>::empty(),
            (Ok(Some(b)), Ok(v)) => v == seq![b],
            (Err(t), Err(u)) => t@ == u,
            _ => false,
        },
{
    let t = trim_range(s, lo, hi);
    let len = t.len();
    if len == 0 {
        return Ok(None);
    }
    let mut p: usize = 0;
    assert(t@.subrange(0, len as int) =~= t@);
    while len - p >= 2 && t[p] == '0' && t[p + 1] == 'x'
        invariant
            p <= len == t@.len(),
            strip_hex_prefix(t@) == strip_hex_prefix(t@.subrange(p as int, len as int)),
        decreases len - p,
    {
        assert(t@.subrange(p as int, len as int).subrange(2, len - p) =~= t@.subrange(
            p + 2,
            len as int,
        ));
        p = p + 2;
    }
    assert(strip_hex_prefix(t@.subrange(p as int, len as int)) == t@.subrange(p as int, len as int));
    match parse_hex_u8_exec(&t, p, len) {
        Some(b) => Ok(Some(b)),
        None => Err(copy_range(&t, p, len)),
    }
}

fn hex_elements_exec(s: &Vec<char>) -> (r: Result<Vec<u8>, Vec<char>>)
    ensures
        match (r, hex_elements_from(s@, 0)) {
            (Ok(v), Ok(w)) => v@ == w,
            (Err(t), Err(u)) => t@ == u,
            _ => false,
        },
{
    let comma = chars_of(",");
    let len = s.len();
    let mut out: Vec<u8> = Vec::new();
    let mut start: usize = 0;
    loop
        invariant
            start <= len == s@.len(),
            comma@ == ","@,
            hex_elements_from(s@, 0) == match hex_elements_from(s@, start as int) {
                Err(t) => Err(t),
                Ok(w) => Ok(out@ + w),
            },
        decreases len - start,
    {
        match find(s, &comma, start) {
            None => {
                match hex_element_exec(s, start, len) {
                    Err(t) => {
                        return Err(t);
                    },
                    Ok(None) => {},
                    Ok(Some(b)) => {
                        out.push(b);
                    },
                }
                return Ok(out);
            },
            Some(j) => {
                proof {
                    reveal_strlit(",");
                    lemma_find_from(s@, ","@, start as int);
                }
                let ghost before = out@;
                match hex_element_exec(s, start, j) {
                    Err(t) => {
                        return Err(t);
                    },
                    Ok(None) => {
                        assert(before + Seq::<u8>::empty() =~= before);
                    },
                    Ok(Some(b)) => {
                        out.push(b);
                    },
                }
                proof {
                    let v = hex_element(s@.subrange(start as int, j as int))->Ok_0;
                    assert(out@ =~= before + v);
                    assert(hex_elements_from(s@, start as int) == match hex_elements_from(
                        s@,
                        j + 1,
                    ) {
                        Err(t) => Err(t),
                        Ok(w) => Ok(v + w),
                    });
                    match hex_elements_from(s@, j + 1) {
                        Ok(w) => {
                            assert(before + (v + w) =~= out@ + w);
                        },
                        Err(_) => {},
                    }
                }
                start = j + 1;
            },
        }
    }
}

/// The value of the byte-array constant `name` in the Rust source `src`
/// (`pub const NAME: [u8; N] = [0x.., ...];`), or why it could not be read.
pub fn find_const_array(src: &str, name: &str, expected_len: usize) -> (r: Result<
    Vec<u8>,
    ConstArrayError,
>)
    ensures
        match (r, const_array_value(src@, name@, expected_len as nat)) {
            (Ok(v), Ok(w)) => v@ == w,
            (Err(e), Err(f)) => e@ == f,
            _ => false,
        },
        r matches Ok(v) ==> v@.len() == expected_len,
        r matches Err(ConstArrayError::WrongLength(n)) ==> n != expected_len,
{
    let text = chars_of(src);
    let text_len = text.len();
    let mut pattern = chars_of("pub const ");
    let mut name_chars = chars_of(name);
    let mut tail = chars_of(": [u8;");
    pattern.append(&mut name_chars);
    pattern.append(&mut tail);
    assert(pattern@ == const_decl_prefix(name@));
    let start = match find(&text, &pattern, 0) {
        None => {
            return Err(ConstArrayError::NotFound);
        },
        Some(k) => k,
    };
    let opening = chars_of("= [");
    let eq = match find(&text, &opening, start) {
        None => {
            return Err(ConstArrayError::MissingInitializer);
        },
        Some(k) => k,
    };
    proof {
        lemma_find_from(text@, "= ["@, start as int);
        reveal_strlit("= [");
        reveal_strlit("]");
    }
    let closing = chars_of("]");
    let close = match find(&text, &closing, eq + 2) {
        None => {
            return Err(ConstArrayError::Unterminated);
        },
        Some(k) => k,
    };
    proof {
        lemma_find_from(text@, "]"@, eq + 2);
        assert(text@[eq + 2] == text@.subrange(eq as int, eq + 3)[2]);
        assert(text@[eq + 2] == '[');
        if close == eq + 2 {
            assert(text@[eq + 2] == text@.subrange(eq + 2, eq + 3)[0]);
        }
        assert(close != eq + 2);
    }
    let inner = copy_range(&text, eq + 3, close);
    match hex_elements_exec(&inner) {
        Err(t) => Err(ConstArrayError::InvalidHex(t)),
        Ok(bytes) => {
            if bytes.len() == expected_len {
                Ok(bytes)
            } else {
                let n = bytes.len();
                Err(ConstArrayError::WrongLength(n))
            }
        },
    }
}

/// Reads the byte-array constant `name` out of the Rust source `src`; the
/// declaration must be there, well formed, with `expected_len` bytes.
pub fn parse_const_array(src: &str, name: &str, expected_len: usize) -> (bytes: Vec<u8>)
    requires
        const_array_value(src@, name@, expected_len as nat) is Ok,
    ensures
        bytes@ == const_array_value(src@, name@, expected_len as nat)->Ok_0,
        bytes@.len() == expected_len,
{
    match find_const_array(src, name, expected_len) {
        Ok(v) => v,
        Err(_) => {
            proof {
                assert(false);
            }
            Vec::new()
        },
    }
}

} // verus!
