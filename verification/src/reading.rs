//! Reading random bytes from the hwrng device, raw or as a hex string.
//!
//! The bytes are read in chunks. A session keeps count of what is left and
//! turns each chunk into what is written to standard output.

use vstd::prelude::*;
use vstd::string::StringExecFns;

use crate::sysfs::IoFailure;

verus! {

/// The device that random bytes are read from.
pub const HWRNG_DEV: &'static str = "/dev/hwrng";

/// The most bytes that are read at once.
pub const CHUNK: usize = 4096;

/// The ASCII code of a hexadecimal digit, in lower case.
pub open spec fn hex_digit(n: int) -> u8 {
    if n < 10 {
        (0x30 + n) as u8
    } else {
        (0x61 + n - 10) as u8
    }
}

/// Each byte as two hexadecimal digits, the high one first.
pub open spec fn hex(bytes: Seq<u8>) -> Seq<u8> {
    Seq::new(
        2 * bytes.len(),
        |i: int|
            if i % 2 == 0 {
                hex_digit(bytes[i / 2] as int / 16)
            } else {
                hex_digit(bytes[i / 2] as int % 16)
            },
    )
}

fn hex_digit_of(n: u8) -> (r: u8)
    requires
        n < 16,
    ensures
        r == hex_digit(n as int),
{
    if n < 10 {
        0x30 + n
    } else {
        0x61 + (n - 10)
    }
}

/// Each byte as two hexadecimal digits in lower case.
pub fn hex_encode(bytes: &[u8]) -> (r: Vec<u8>)
    ensures
        r@ == hex(bytes@),
{
    let mut out: Vec<u8> = Vec::new();
    for i in 0..bytes.len()
        invariant
            out@ == hex(bytes@.take(i as int)),
    {
        let b = bytes[i];
        let ghost before = out@;
        out.push(hex_digit_of(b / 16));
        out.push(hex_digit_of(b % 16));
        proof {
            let longer = hex(bytes@.take(i + 1));
            assert(longer.len() == before.len() + 2);
            assert forall|j: int| 0 <= j < longer.len() implies longer[j] == out@[j] by {
                if j < before.len() {
                    assert(out@[j] == before[j]);
                    assert(bytes@.take(i + 1)[j / 2] == bytes@.take(i as int)[j / 2]);
                } else {
                    assert(j / 2 == i);
                }
            }
            assert(out@ =~= longer);
        }
    }
    assert(bytes@.take(bytes@.len() as int) =~= bytes@);
    out
}

/// A session of reading: how many bytes are left, and how they are written.
#[derive(Debug)]
pub struct Session {
    remaining: u64,
    as_hex: bool,
}

/// The state of a session.
pub struct SessionState {
    pub remaining: nat,
    pub hex: bool,
}

impl View for Session {
    type V = SessionState;

    closed spec fn view(&self) -> SessionState {
        SessionState { remaining: self.remaining as nat, hex: self.as_hex }
    }
}

/// The number of bytes to read next.
pub open spec fn next_chunk(remaining: nat) -> nat {
    if remaining < CHUNK {
        remaining
    } else {
        CHUNK as nat
    }
}

/// How bytes are written.
pub open spec fn written(as_hex: bool, bytes: Seq<u8>) -> Seq<u8> {
    if as_hex {
        hex(bytes)
    } else {
        bytes
    }
}

/// What is written after the last chunk.
pub open spec fn ending(as_hex: bool) -> Seq<u8> {
    if as_hex {
        seq![0x0au8]
    } else {
        Seq::empty()
    }
}

impl Session {
    /// Starts a session. Raw bytes are not written to a terminal.
    pub fn start(bytes: u64, as_hex: bool, to_terminal: bool) -> (r: Result<Session, String>)
        ensures
            match r {
                Ok(session) => {
                    &&& as_hex || !to_terminal
                    &&& session@.remaining == bytes
                    &&& session@.hex == as_hex
                },
                Err(m) => {
                    &&& !as_hex && to_terminal
                    &&& m@
                        == "refusing to write binary to a terminal; pass --hex or redirect stdout"@
                },
            },
    {
        if !as_hex && to_terminal {
            return Err(
                "refusing to write binary to a terminal; pass --hex or redirect stdout".to_owned(),
            );
        }
        Ok(Session { remaining: bytes, as_hex })
    }

    /// The number of bytes to read next; zero if all have been read.
    pub fn want(&self) -> (r: usize)
        ensures
            r == next_chunk(self@.remaining),
    {
        if self.remaining < CHUNK as u64 {
            self.remaining as usize
        } else {
            CHUNK
        }
    }

    /// Takes the chunk that was asked for and gives what is to be written.
    pub fn accept(&mut self, chunk: &[u8]) -> (r: Vec<u8>)
        requires
            chunk@.len() == next_chunk(old(self)@.remaining),
        ensures
            r@ == written(old(self)@.hex, chunk@),
            !old(self)@.hex ==> r@ == chunk@,
            old(self)@.hex ==> r@ == hex(chunk@),
            final(self)@.hex == old(self)@.hex,
            final(self)@.remaining == old(self)@.remaining - chunk@.len(),
    {
        self.remaining = self.remaining - chunk.len() as u64;
        if self.as_hex {
            hex_encode(chunk)
        } else {
            let mut raw: Vec<u8> = Vec::new();
            raw.extend_from_slice(chunk);
            assert(raw@ =~= chunk@);
            raw
        }
    }

    /// What is written after the last chunk: a hex string ends in a newline.
    pub fn finish(&self) -> (r: Vec<u8>)
        ensures
            r@ == ending(self@.hex),
            !self@.hex ==> r@.len() == 0,
            self@.hex ==> r@ == seq![0x0au8],
    {
        let mut out: Vec<u8> = Vec::new();
        if self.as_hex {
            out.push(0x0a);
        }
        assert(out@ =~= ending(self@.hex));
        out
    }
}

/// The complaint about a device that could not be opened.
pub fn open_failed(failure: &IoFailure) -> (r: String)
    ensures
        r@ == (if failure.permission_denied {
            "opening "@ + HWRNG_DEV@ + " requires root (try sudo): "@ + failure.text@
        } else {
            "failed to open "@ + HWRNG_DEV@ + ": "@ + failure.text@
        }),
{
    let mut message = String::new();
    if failure.permission_denied {
        message.append("opening ");
        message.append(HWRNG_DEV);
        message.append(" requires root (try sudo): ");
        message.append(failure.text.as_str());
        assert(message@ =~= "opening "@ + HWRNG_DEV@ + " requires root (try sudo): "@
            + failure.text@);
    } else {
        message.append("failed to open ");
        message.append(HWRNG_DEV);
        message.append(": ");
        message.append(failure.text.as_str());
        assert(message@ =~= "failed to open "@ + HWRNG_DEV@ + ": "@ + failure.text@);
    }
    message
}

/// The complaint about a device that could not be read.
pub fn read_failed(error: &str) -> (r: String)
    ensures
        r@ == "read from "@ + HWRNG_DEV@ + " failed: "@ + error@,
{
    let mut message = String::new();
    message.append("read from ");
    message.append(HWRNG_DEV);
    message.append(" failed: ");
    message.append(error);
    assert(message@ =~= "read from "@ + HWRNG_DEV@ + " failed: "@ + error@);
    message
}

/// The complaint about output that could not be written.
pub fn output_failed(error: &str) -> (r: String)
    ensures
        r@ == "write to stdout failed: "@ + error@,
{
    let mut message = String::new();
    message.append("write to stdout failed: ");
    message.append(error);
    assert(message@ =~= "write to stdout failed: "@ + error@);
    message
}

/// The hex string of two runs of bytes is that of the first and that of the
/// second.
pub proof fn law_hex_of_sum(a: Seq<u8>, b: Seq<u8>)
    ensures
        hex(a + b) == hex(a) + hex(b),
{
    let whole = hex(a + b);
    let parts = hex(a) + hex(b);
    assert forall|i: int| 0 <= i < whole.len() implies whole[i] == parts[i] by {
        if i < 2 * a.len() {
            assert((a + b)[i / 2] == a[i / 2]);
        } else {
            let j = i - 2 * a.len();
            assert(j / 2 == i / 2 - a.len() && j % 2 == i % 2);
            assert((a + b)[i / 2] == b[j / 2]);
        }
    }
    assert(whole =~= parts);
}

/// A hex string determines the bytes that it shows.
pub proof fn law_hex_is_faithful(a: Seq<u8>, b: Seq<u8>)
    requires
        hex(a) == hex(b),
    ensures
        a == b,
{
    assert(hex(a).len() == 2 * a.len());
    assert(hex(b).len() == 2 * b.len());
    assert forall|i: int| 0 <= i < a.len() implies a[i] == b[i] by {
        assert((2 * i) / 2 == i && (2 * i) % 2 == 0);
        assert((2 * i + 1) / 2 == i && (2 * i + 1) % 2 == 1);
        assert(hex(a)[2 * i] == hex_digit(a[i] as int / 16));
        assert(hex(b)[2 * i] == hex_digit(b[i] as int / 16));
        assert(hex(a)[2 * i + 1] == hex_digit(a[i] as int % 16));
        assert(hex(b)[2 * i + 1] == hex_digit(b[i] as int % 16));
        assert(a[i] as int / 16 == b[i] as int / 16);
        assert(a[i] as int % 16 == b[i] as int % 16);
    }
    assert(a =~= b);
}

/// Whether `chunks` are the chunks of a session that has `remaining` bytes
/// left.
pub open spec fn are_chunks(remaining: nat, chunks: Seq<Seq<u8>>) -> bool
    decreases chunks.len(),
{
    if chunks.len() == 0 {
        remaining == 0
    } else {
        &&& remaining > 0
        &&& chunks[0].len() == next_chunk(remaining)
        &&& are_chunks((remaining - chunks[0].len()) as nat, chunks.drop_first())
    }
}

/// What is written for a number of chunks.
pub open spec fn written_all(as_hex: bool, chunks: Seq<Seq<u8>>) -> Seq<u8>
    decreases chunks.len(),
{
    if chunks.len() == 0 {
        Seq::empty()
    } else {
        written(as_hex, chunks[0]) + written_all(as_hex, chunks.drop_first())
    }
}

/// A session reads exactly as many bytes as were asked for, and what it
/// writes is what it would write if it read them all at once.
pub proof fn law_chunks_do_not_show(as_hex: bool, remaining: nat, chunks: Seq<Seq<u8>>)
    requires
        are_chunks(remaining, chunks),
    ensures
        chunks.flatten().len() == remaining,
        written_all(as_hex, chunks) == written(as_hex, chunks.flatten()),
    decreases chunks.len(),
{
    if chunks.len() == 0 {
        assert(chunks.flatten() =~= Seq::<u8>::empty());
        assert(hex(chunks.flatten()) =~= Seq::<u8>::empty());
    } else {
        let rest = chunks.drop_first();
        law_chunks_do_not_show(as_hex, (remaining - chunks[0].len()) as nat, rest);
        assert(chunks.flatten() =~= chunks[0] + rest.flatten());
        law_hex_of_sum(chunks[0], rest.flatten());
    }
}

/// A session asks for at most one chunk at a time, and for nothing only when
/// all bytes have been read.
pub proof fn law_session_advances(remaining: nat)
    ensures
        next_chunk(remaining) <= CHUNK,
        next_chunk(remaining) <= remaining,
        next_chunk(remaining) == 0 <==> remaining == 0,
        next_chunk(remaining) == remaining || next_chunk(remaining) == 4096 < remaining,
        remaining <= 4096 ==> next_chunk(remaining) == remaining,
{
}

/// Every byte is shown as its two hexadecimal digits, the high one first.
pub proof fn law_hex_shows_each_byte(bytes: Seq<u8>, i: int)
    requires
        0 <= i < bytes.len(),
    ensures
        hex(bytes).len() == 2 * bytes.len(),
        hex(bytes)[2 * i] as char == "0123456789abcdef"@[bytes[i] as int / 16],
        hex(bytes)[2 * i + 1] as char == "0123456789abcdef"@[bytes[i] as int % 16],
{
    reveal_strlit("0123456789abcdef");
    assert((2 * i) / 2 == i && (2 * i) % 2 == 0);
    assert((2 * i + 1) / 2 == i && (2 * i + 1) % 2 == 1);
    let high = bytes[i] as int / 16;
    let low = bytes[i] as int % 16;
    assert(0 <= high < 16 && 0 <= low < 16);
    assert(hex(bytes)[2 * i] == hex_digit(high));
    assert(hex(bytes)[2 * i + 1] == hex_digit(low));
    lemma_hex_digit(high);
    lemma_hex_digit(low);
}

proof fn lemma_hex_digit(n: int)
    requires
        0 <= n < 16,
    ensures
        hex_digit(n) as char == "0123456789abcdef"@[n],
{
    reveal_strlit("0123456789abcdef");
}

/// Raw bytes are written as they are, and as hex they are written in hex; a
/// hex string ends in a newline, and raw bytes in nothing more.
pub proof fn law_bytes_reach_the_output(bytes: Seq<u8>)
    ensures
        written(false, bytes) == bytes,
        written(true, bytes) == hex(bytes),
        ending(false).len() == 0,
        ending(true).len() == 1 && ending(true)[0] as char == '\n',
{
}

/// Over a whole session, the outputs for the chunks together are the bytes
/// that were read, or the hex string of them, and there are exactly as many
/// bytes as were asked for.
pub proof fn law_session_copies_what_it_reads(
    as_hex: bool,
    asked: nat,
    chunks: Seq<Seq<u8>>,
    outputs: Seq<Seq<u8>>,
)
    requires
        are_chunks(asked, chunks),
        outputs.len() == chunks.len(),
        forall|i: int|
            0 <= i < chunks.len() ==> #[trigger] outputs[i] == (if as_hex {
                hex(chunks[i])
            } else {
                chunks[i]
            }),
    ensures
        chunks.flatten().len() == asked,
        !as_hex ==> outputs.flatten() == chunks.flatten(),
        as_hex ==> outputs.flatten() == hex(chunks.flatten()),
        outputs.flatten() == written_all(as_hex, chunks),
    decreases chunks.len(),
{
    if chunks.len() == 0 {
        assert(hex(chunks.flatten()) =~= Seq::<u8>::empty());
    } else {
        let rest = chunks.drop_first();
        let later = outputs.drop_first();
        assert forall|i: int| 0 <= i < rest.len() implies #[trigger] later[i] == (if as_hex {
            hex(rest[i])
        } else {
            rest[i]
        }) by {
            assert(later[i] == outputs[i + 1]);
        }
        law_session_copies_what_it_reads(
            as_hex,
            (asked - chunks[0].len()) as nat,
            rest,
            later,
        );
        assert(outputs[0] == outputs.first());
        law_hex_of_sum(chunks[0], rest.flatten());
    }
}

/// The chunks of a session are the right ones exactly if each of them is as
/// long as what was left allows, up to 4096 bytes, and the last one leaves
/// nothing.
pub proof fn law_chunks_of_a_session(asked: nat, chunks: Seq<Seq<u8>>, more: Seq<u8>)
    ensures
        are_chunks(0, Seq::empty()),
        asked > 0 ==> !are_chunks(asked, Seq::empty()),
        0 < more.len() <= 4096 && (chunks.len() > 0 ==> more.len() == 4096) ==> (are_chunks(
            asked,
            chunks,
        ) ==> are_chunks(asked + more.len(), seq![more] + chunks)),
{
    if 0 < more.len() <= 4096 && (chunks.len() > 0 ==> more.len() == 4096) && are_chunks(
        asked,
        chunks,
    ) {
        assert((seq![more] + chunks).drop_first() =~= chunks);
    }
}

} // verus!
