//! The text the ns16550a UART transmits: every `\n` goes out as `\r\n`.
use vstd::prelude::*;
use vstd::string::StringSliceAdditionalSpecFns;

verus! {

/// The bytes sent for `bytes`: each line feed (10) is preceded by a carriage
/// return (13); every other byte is sent as is.
pub open spec fn crlf(bytes: Seq<u8>) -> Seq<u8>
    decreases bytes.len(),
{
    if bytes.len() == 0 {
        Seq::empty()
    } else {
        crlf(bytes.drop_last()) + if bytes.last() == 10u8 {
            seq![13u8, 10u8]
        } else {
            seq![bytes.last()]
        }
    }
}

/// Queues the UTF-8 bytes of `s` for the transmit register, in order,
/// converting `\n` to `\r\n`.
pub fn uart_puts(tx: &mut Vec<u8>, s: &str)
    ensures
        final(tx)@ == old(tx)@ + crlf(s.spec_bytes()),
{
    let bytes = s.as_bytes();
    let n = bytes.len();
    let ghost start = tx@;
    let mut i: usize = 0;
    while i < n
        invariant
            n == bytes@.len(),
            i <= n,
            tx@ == start + crlf(bytes@.subrange(0, i as int)),
        decreases n - i,
    {
        let byte = bytes[i];
        if byte == 10u8 {
            tx.push(13u8);
        }
        tx.push(byte);
        let ghost next = bytes@.subrange(0, i + 1);
        assert(next.drop_last() =~= bytes@.subrange(0, i as int));
        assert(next.last() == byte);
        if byte == 10u8 {
            assert(tx@ =~= start + crlf(next));
        } else {
            assert(tx@ =~= start + crlf(next));
        }
        i = i + 1;
    }
    assert(bytes@.subrange(0, n as int) =~= bytes@);
}

/// The line status register's transmit-holding-register-empty bit: the
/// UART can take another byte.
pub fn transmit_ready(line_status: u8) -> (ready: bool)
    ensures
        ready == (line_status & 0x20 != 0),
{
    line_status & 0x20 != 0
}

} // verus!
