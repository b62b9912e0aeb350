//! The two buffers of the host that the engine has a say in: what becomes of
//! the chunk that was read, and how synthesized bytes get into the output
//! buffer.

use crate::error::{Error, ErrorView};
use vstd::prelude::*;
use vstd::utf8::encode_utf8;

verus! {

/// What the host is to do with the chunk it has just read.
#[derive(Debug, PartialEq, Eq)]
pub enum ReadAction {
    /// Hand the chunk on as it is.
    PassThru,
    /// Hand nothing on.
    Swallow,
    /// Hand the text on in place of the chunk.
    Replace(String),
    /// Hand the chunk on with the text behind it.
    Append(String),
    /// Hand the chunk on with the text before it.
    Prepend(String),
}

/// A [`ReadAction`] with its text as a sequence of characters.
pub enum ReadActionView {
    PassThru,
    Swallow,
    Replace(Seq<char>),
    Append(Seq<char>),
    Prepend(Seq<char>),
}

impl View for ReadAction {
    type V = ReadActionView;

    open spec fn view(&self) -> ReadActionView {
        match *self {
            ReadAction::PassThru => ReadActionView::PassThru,
            ReadAction::Swallow => ReadActionView::Swallow,
            ReadAction::Replace(text) => ReadActionView::Replace(text@),
            ReadAction::Append(text) => ReadActionView::Append(text@),
            ReadAction::Prepend(text) => ReadActionView::Prepend(text@),
        }
    }
}

/// The bytes that the host hands on when it applies `action` to the chunk it
/// has read into a buffer of `capacity` bytes. A replacement is cut where the
/// buffer ends. Text is added behind or before the chunk only if it fits
/// beside it; before text that is put in front, the chunk's first byte, the
/// target's reply, turns into a carriage return.
pub open spec fn applied(action: ReadActionView, chunk: Seq<u8>, capacity: nat) -> Seq<u8> {
    match action {
        ReadActionView::PassThru => chunk,
        ReadActionView::Swallow => Seq::empty(),
        ReadActionView::Replace(text) => {
            let bytes = encode_utf8(text);
            if bytes.len() <= capacity {
                bytes
            } else {
                bytes.take(capacity as int)
            }
        },
        ReadActionView::Append(text) => {
            let bytes = encode_utf8(text);
            if chunk.len() + bytes.len() <= capacity {
                chunk + bytes
            } else {
                chunk
            }
        },
        ReadActionView::Prepend(text) => {
            let bytes = encode_utf8(text);
            if chunk.len() + bytes.len() > capacity {
                chunk
            } else if chunk.len() == 0 {
                bytes
            } else {
                bytes + seq![0x0du8] + chunk.drop_first()
            }
        },
    }
}

fn push_all(v: &mut Vec<u8>, bytes: &[u8], upto: usize)
    requires
        upto <= bytes@.len(),
    ensures
        final(v)@ == old(v)@ + bytes@.take(upto as int),
{
    let mut i: usize = 0;
    assert(v@ =~= old(v)@ + bytes@.take(0));
    while i < upto
        invariant
            i <= upto <= bytes@.len(),
            v@ == old(v)@ + bytes@.take(i as int),
        decreases upto - i,
    {
        v.push(bytes[i]);
        i += 1;
        assert(v@ =~= old(v)@ + bytes@.take(i as int));
    }
}

/// The bytes that the host hands on in place of `chunk`, which it has read
/// into a buffer of `capacity` bytes.
pub fn apply_action(action: &ReadAction, chunk: &[u8], capacity: usize) -> (bytes: Vec<u8>)
    requires
        chunk@.len() <= capacity,
    ensures
        bytes@ == applied(action@, chunk@, capacity as nat),
        bytes@.len() <= capacity,
{
    let mut bytes: Vec<u8> = Vec::new();
    match action {
        ReadAction::PassThru => {
            push_all(&mut bytes, chunk, chunk.len());
            assert(chunk@.take(chunk@.len() as int) =~= chunk@);
        },
        ReadAction::Swallow => {},
        ReadAction::Replace(text) => {
            let text = text.as_str().as_bytes();
            if text.len() <= capacity {
                push_all(&mut bytes, text, text.len());
                assert(text@.take(text@.len() as int) =~= text@);
            } else {
                push_all(&mut bytes, text, capacity);
            }
        },
        ReadAction::Append(text) => {
            let text = text.as_str().as_bytes();
            push_all(&mut bytes, chunk, chunk.len());
            assert(chunk@.take(chunk@.len() as int) =~= chunk@);
            if capacity - chunk.len() >= text.len() {
                push_all(&mut bytes, text, text.len());
                assert(text@.take(text@.len() as int) =~= text@);
            }
        },
        ReadAction::Prepend(text) => {
            let text = text.as_str().as_bytes();
            if capacity - chunk.len() >= text.len() {
                push_all(&mut bytes, text, text.len());
                assert(text@.take(text@.len() as int) =~= text@);
                if chunk.len() > 0 {
                    bytes.push(0x0d);
                    let mut i: usize = 1;
                    assert(chunk@.drop_first().take(0) =~= Seq::<u8>::empty());
                    while i < chunk.len()
                        invariant
                            1 <= i <= chunk@.len(),
                            bytes@ == text@ + seq![0x0du8] + chunk@.drop_first().take(i - 1),
                        decreases chunk@.len() - i,
                    {
                        bytes.push(chunk[i]);
                        i += 1;
                        assert(bytes@ =~= text@ + seq![0x0du8] + chunk@.drop_first().take(
                            i - 1,
                        ));
                    }
                    assert(chunk@.drop_first().take(chunk@.len() - 1) =~= chunk@.drop_first());
                }
            } else {
                push_all(&mut bytes, chunk, chunk.len());
                assert(chunk@.take(chunk@.len() as int) =~= chunk@);
            }
        },
    }
    bytes
}

/// The host's output buffer: a fixed number of bytes, of which `count` bytes
/// from `offset` on are waiting to be written to the wire. The buffer is not
/// circular.
#[derive(Debug)]
pub struct OutBuff {
    bytes: Vec<u8>,
    offset: u32,
    count: u32,
}

/// An [`OutBuff`] as plain values.
pub struct OutBuffView {
    pub bytes: Seq<u8>,
    pub offset: u32,
    pub count: u32,
}

impl OutBuffView {
    /// The capacity, and the end of the pending bytes, fit in 32 bits.
    pub open spec fn wf(self) -> bool {
        &&& self.bytes.len() <= u32::MAX
        &&& self.offset + self.count <= u32::MAX
    }

    /// The bytes that wait to be written to the wire.
    pub open spec fn pending(self) -> Seq<u8> {
        self.bytes.subrange(self.offset as int, self.offset + self.count)
    }
}

impl View for OutBuff {
    type V = OutBuffView;

    closed spec fn view(&self) -> OutBuffView {
        OutBuffView { bytes: self.bytes@, offset: self.offset, count: self.count }
    }
}

/// The length of a byte sequence as the error reports it: the length itself
/// where it fits in 32 bits, else the largest 32-bit value.
pub open spec fn reported_len(len: nat) -> u32 {
    if len <= u32::MAX {
        len as u32
    } else {
        u32::MAX
    }
}

/// What injecting `buf` into `out` gives. The pending bytes must end before
/// the capacity, and `buf` must fit in the capacity beside them; then the
/// pending bytes move to the start of the buffer, `buf` follows them, and the
/// rest of the buffer stays as it is.
pub open spec fn injected(out: OutBuffView, buf: Seq<u8>) -> Result<OutBuffView, ErrorView> {
    if out.offset + out.count >= out.bytes.len() {
        Err(ErrorView::OutBuffOutOfBounds((out.offset + out.count) as u32))
    } else if buf.len() > out.bytes.len() - out.count {
        Err(
            ErrorView::OutBuffFull {
                need: reported_len(buf.len()),
                actual: (out.bytes.len() - out.count) as u32,
            },
        )
    } else {
        Ok(
            OutBuffView {
                bytes: out.pending() + buf + out.bytes.subrange(
                    out.count + buf.len(),
                    out.bytes.len() as int,
                ),
                offset: 0,
                count: (out.count + buf.len()) as u32,
            },
        )
    }
}

impl OutBuff {
    /// A buffer that holds `bytes`, of which `count` bytes from `offset` on
    /// are pending.
    pub fn new(bytes: Vec<u8>, offset: u32, count: u32) -> (out: OutBuff)
        requires
            bytes@.len() <= u32::MAX,
            offset + count <= u32::MAX,
        ensures
            out@.wf(),
            out@ == (OutBuffView { bytes: bytes@, offset, count }),
    {
        OutBuff { bytes, offset, count }
    }

    /// All bytes of the buffer, pending or not.
    pub fn bytes(&self) -> (bytes: &[u8])
        ensures
            bytes@ == self@.bytes,
    {
        self.bytes.as_slice()
    }

    /// Where the pending bytes start.
    pub fn offset(&self) -> (offset: u32)
        ensures
            offset == self@.offset,
    {
        self.offset
    }

    /// How many bytes are pending.
    pub fn count(&self) -> (count: u32)
        ensures
            count == self@.count,
    {
        self.count
    }
}

/// Puts `buf` behind the bytes that are pending in `out`, after moving those
/// to the start of the buffer. Nothing is written when the pending bytes
/// already end at or past the capacity, or when `buf` does not fit.
pub fn inject_output(out: &mut OutBuff, buf: &[u8]) -> (r: Result<(), Error>)
    requires
        old(out)@.wf(),
    ensures
        final(out)@.wf(),
        match injected(old(out)@, buf@) {
            Ok(after) => r is Ok && final(out)@ == after,
            Err(e) => r is Err && r->Err_0@ == e && final(out)@ == old(out)@,
        },
{
    let capacity = out.bytes.len();
    let offset = out.offset as usize;
    let count = out.count as usize;
    let end = out.offset + out.count;
    if end as usize >= capacity {
        return Err(Error::OutBuffOutOfBounds(end));
    }
    let room = capacity - count;
    if buf.len() > room {
        let need = if buf.len() <= u32::MAX as usize {
            buf.len() as u32
        } else {
            u32::MAX
        };
        return Err(Error::OutBuffFull { need, actual: room as u32 });
    }
    let ghost before = out.bytes@;
    let mut i: usize = 0;
    while i < count
        invariant
            i <= count,
            offset + count < capacity,
            out.bytes@.len() == capacity,
            before.len() == capacity,
            forall|k: int| 0 <= k < i ==> out.bytes@[k] == before[offset + k],
            forall|k: int| i <= k < capacity ==> out.bytes@[k] == before[k],
        decreases count - i,
    {
        let b = out.bytes[offset + i];
        out.bytes.set(i, b);
        i += 1;
    }
    let mut j: usize = 0;
    while j < buf.len()
        invariant
            j <= buf@.len(),
            count + buf@.len() <= capacity,
            out.bytes@.len() == capacity,
            before.len() == capacity,
            offset + count < capacity,
            forall|k: int| 0 <= k < count ==> out.bytes@[k] == before[offset + k],
            forall|k: int| count <= k < count + j ==> out.bytes@[k] == buf@[k - count],
            forall|k: int| count + j <= k < capacity ==> out.bytes@[k] == before[k],
        decreases buf@.len() - j,
    {
        out.bytes.set(count + j, buf[j]);
        j += 1;
    }
    out.count = (count + buf.len()) as u32;
    out.offset = 0;
    proof {
        let after = injected(old(out)@, buf@)->Ok_0;
        assert(out.bytes@ =~= after.bytes);
    }
    Ok(())
}

/// An injection that succeeds leaves the pending bytes at the start of the
/// buffer, the injected bytes right behind them, and the capacity as it was.
pub proof fn lemma_injected_appends(out: OutBuffView, buf: Seq<u8>)
    requires
        out.wf(),
    ensures
        injected(out, buf) matches Ok(after) ==> {
            &&& after.wf()
            &&& after.offset == 0
            &&& after.count == out.count + buf.len()
            &&& after.bytes.len() == out.bytes.len()
            &&& after.pending() == out.pending() + buf
        },
        injected(out, buf) is Ok <==> out.offset + out.count < out.bytes.len() && out.count
            + buf.len() <= out.bytes.len(),
{
    if let Ok(after) = injected(out, buf) {
        assert(after.pending() =~= out.pending() + buf);
    }
}

} // verus!
