//! Wire frames of the loader protocol and the single-byte replies to them.

use crate::sfl::crc::{be16, checksum, checksum_field, crc16_xmodem};
use vstd::prelude::*;
use vstd::slice::slice_subrange;
use vstd::std_specs::convert::TryFromSpecImpl;

verus! {

/// What a frame asks the target to do.
#[derive(Debug, Clone, Copy, PartialEq, Eq, Structural)]
pub enum Cmd {
    /// Give up; reserved, never sent.
    Abort,
    /// Store the payload's bytes at the address that leads the payload.
    Load,
    /// Jump to the address in the payload.
    Jump,
}

impl Cmd {
    /// The command byte on the wire.
    pub open spec fn spec_code(self) -> u8 {
        match self {
            Cmd::Abort => 0,
            Cmd::Load => 1,
            Cmd::Jump => 2,
        }
    }

    /// The command byte on the wire.
    #[verifier::when_used_as_spec(spec_code)]
    pub fn code(self) -> (c: u8)
        ensures
            c == self.spec_code(),
    {
        match self {
            Cmd::Abort => 0,
            Cmd::Load => 1,
            Cmd::Jump => 2,
        }
    }
}

/// The target's reply to a frame.
#[derive(Debug, Clone, Copy, PartialEq, Eq, Structural)]
pub enum Resp {
    /// `K`: the frame was taken.
    Success,
    /// `C`: the frame's checksum was wrong.
    CrcError,
    /// `U`: the frame's command was not known.
    Unknown,
    /// `E`: the frame could not be acknowledged.
    AckError,
}

/// The byte was none of the four reply codes.
#[derive(Debug)]
pub struct TryFromU8Error(());

impl TryFromU8Error {
    /// The one value of this type.
    pub closed spec fn unit() -> TryFromU8Error {
        TryFromU8Error(())
    }
}

/// The reply that the byte `value` stands for: `K`, `C`, `U` or `E`.
pub open spec fn resp_of(value: u8) -> Option<Resp> {
    if value == 0x4b {
        Some(Resp::Success)
    } else if value == 0x43 {
        Some(Resp::CrcError)
    } else if value == 0x55 {
        Some(Resp::Unknown)
    } else if value == 0x45 {
        Some(Resp::AckError)
    } else {
        None
    }
}

impl TryFrom<u8> for Resp {
    type Error = TryFromU8Error;

    fn try_from(value: u8) -> (r: Result<Self, Self::Error>) {
        match value {
            0x4b => Ok(Resp::Success),
            0x43 => Ok(Resp::CrcError),
            0x55 => Ok(Resp::Unknown),
            0x45 => Ok(Resp::AckError),
            _ => Err(TryFromU8Error(())),
        }
    }
}

impl TryFromSpecImpl<u8> for Resp {
    open spec fn obeys_try_from_spec() -> bool {
        true
    }

    open spec fn try_from_spec(value: u8) -> Result<Self, Self::Error> {
        match resp_of(value) {
            Some(r) => Ok(r),
            None => Err(TryFromU8Error::unit()),
        }
    }
}

impl Resp {
    /// The reply's name for messages.
    pub fn as_str(&self) -> (s: &'static str)
        ensures
            s@ == match *self {
                Resp::Success => "Success"@,
                Resp::CrcError => "CRC Error"@,
                Resp::Unknown => "Unknown Error"@,
                Resp::AckError => "ACK Error"@,
            },
    {
        match self {
            Resp::Success => "Success",
            Resp::CrcError => "CRC Error",
            Resp::Unknown => "Unknown Error",
            Resp::AckError => "ACK Error",
        }
    }
}

/// The bytes that the checksum covers: the command byte, then the payload.
pub open spec fn frame_body(cmd: Cmd, payload: Seq<u8>) -> Seq<u8> {
    seq![cmd.spec_code()] + payload
}

/// A frame on the wire with the checksum `sum`: the payload's length in one
/// byte, the checksum in two bytes, most significant first, then the body.
pub open spec fn frame_with(cmd: Cmd, payload: Seq<u8>, sum: u16) -> Seq<u8> {
    seq![payload.len() as u8] + be16(sum) + frame_body(cmd, payload)
}

/// A frame on the wire: as [`frame_with`], the checksum being that of the
/// body.
pub open spec fn frame_bytes(cmd: Cmd, payload: Seq<u8>) -> Seq<u8> {
    frame_with(cmd, payload, crc16_xmodem(frame_body(cmd, payload)))
}

/// A frame in its wire layout. The storage always has room for the largest
/// payload; only the header and the used part of the payload are ever sent.
#[derive(Debug)]
pub struct Frame {
    raw: [u8; 259],
}

impl View for Frame {
    type V = Seq<u8>;

    /// The bytes that go on the wire.
    closed spec fn view(&self) -> Seq<u8> {
        self.raw@.take(4 + self.raw@[0])
    }
}

impl Frame {
    /// The command that the frame carries; `Abort` stands for every byte that
    /// is neither `Load` nor `Jump`.
    pub closed spec fn cmd(&self) -> Cmd {
        if self.raw@[3] == 1 {
            Cmd::Load
        } else if self.raw@[3] == 2 {
            Cmd::Jump
        } else {
            Cmd::Abort
        }
    }

    /// The used part of the payload.
    pub closed spec fn payload(&self) -> Seq<u8> {
        self.raw@.subrange(4, 4 + self.raw@[0])
    }

    /// The checksum that the frame carries.
    pub closed spec fn checksum(&self) -> u16 {
        (self.raw@[1] * 256 + self.raw@[2]) as u16
    }

    /// The frame is the wire image of its command, payload and checksum.
    pub open spec fn wf(&self) -> bool {
        &&& self.payload().len() <= 255
        &&& self@ == frame_with(self.cmd(), self.payload(), self.checksum())
    }

    /// The checksum that the frame carries is the checksum of its body.
    pub open spec fn intact(&self) -> bool {
        self.checksum() == crc16_xmodem(self@.skip(3))
    }

    /// The frame that carries `payload` under `cmd` with the checksum `sum`.
    pub fn assemble(cmd: Cmd, payload: &[u8], sum: u16) -> (f: Frame)
        requires
            payload@.len() <= 255,
        ensures
            f.wf(),
            f.cmd() == cmd,
            f.payload() == payload@,
            f.checksum() == sum,
            f@ == frame_with(cmd, payload@, sum),
    {
        let n = payload.len();
        let mut raw = [0u8; 259];
        let field = checksum_field(sum);
        raw[0] = n as u8;
        raw[1] = field[0];
        raw[2] = field[1];
        raw[3] = cmd.code();
        let mut i: usize = 0;
        while i < n
            invariant
                i <= n,
                n == payload@.len(),
                n <= 255,
                raw@.len() == 259,
                raw@[0] == n as u8,
                raw@[1] == be16(sum)[0],
                raw@[2] == be16(sum)[1],
                raw@[3] == cmd.spec_code(),
                raw@.subrange(4, 4 + i) == payload@.take(i as int),
            decreases n - i,
        {
            raw[4 + i] = payload[i];
            i += 1;
            assert(raw@.subrange(4, 4 + i) =~= payload@.take(i as int));
        }
        assert(payload@.take(n as int) =~= payload@);
        let f = Frame { raw };
        assert(f.payload() =~= payload@);
        assert(f@ =~= frame_with(cmd, payload@, sum));
        f
    }

    /// The frame that carries `payload` under `cmd`, with the checksum of
    /// its body.
    pub fn new(cmd: Cmd, payload: &[u8]) -> (f: Frame)
        requires
            payload@.len() <= 255,
        ensures
            f.wf(),
            f.intact(),
            f.cmd() == cmd,
            f.payload() == payload@,
            f@ == frame_bytes(cmd, payload@),
            f@.len() == 4 + payload@.len(),
            f@[0] == payload@.len(),
    {
        let mut body: Vec<u8> = Vec::new();
        body.push(cmd.code());
        let mut i: usize = 0;
        assert(body@ =~= seq![cmd.spec_code()] + payload@.take(0));
        while i < payload.len()
            invariant
                i <= payload@.len(),
                body@ == seq![cmd.spec_code()] + payload@.take(i as int),
            decreases payload@.len() - i,
        {
            body.push(payload[i]);
            i += 1;
            assert(body@ =~= seq![cmd.spec_code()] + payload@.take(i as int));
        }
        assert(payload@.take(payload@.len() as int) =~= payload@);
        let f = Frame::assemble(cmd, payload, checksum(body.as_slice()));
        assert(f@.skip(3) =~= frame_body(cmd, payload@));
        f
    }

    /// The bytes that go on the wire: four header bytes, of which the first
    /// is the length of the used payload, and the used payload.
    pub fn as_bytes(&self) -> (bytes: &[u8])
        ensures
            bytes@ == self@,
            bytes@.len() == 4 + bytes@[0],
    {
        let n = self.raw[0] as usize;
        slice_subrange(self.raw.as_slice(), 0, 4 + n)
    }

    /// Whether the checksum that the frame carries is the checksum of its
    /// body, as the receiver computes it.
    pub fn is_intact(&self) -> (ok: bool)
        ensures
            ok == self.intact(),
    {
        let n = self.raw[0] as usize;
        let sum = checksum(slice_subrange(self.raw.as_slice(), 3, 4 + n));
        assert(self.raw@.subrange(3, 4 + n) =~= self@.skip(3));
        sum == self.raw[1] as u16 * 256 + self.raw[2] as u16
    }
}

} // verus!
