//! The transfer context: where the protocol stands, and what it remembers of
//! the transfer in flight.

use crate::error::{Error, ErrorView};
use crate::io::{inject_output, OutBuff, ReadAction, ReadActionView};
use crate::protocol;
use crate::sfl::frame::{Frame, Resp};
use crate::sfl::loader::{file_view, LoaderView, SflLoader};
use crate::sfl::magic::{cursor_ok, MagicMatcher, MAGIC, MAGIC_RESPONSE};
use crate::text::{
    done_notice_string, packet_size_notice_string, pretty_rate_string, status_bar,
    transfer_rate_of, uploading_notice_string,
};
use vstd::prelude::*;

verus! {

/// The load address that is used when none is configured.
pub const DEFAULT_ADDR: u32 = 0x4000_0000;

/// The state of the protocol.
#[derive(Debug, Clone, Copy, PartialEq, Eq, Structural)]
pub enum Activity {
    /// No transfer is configured; everything passes through.
    Inactive,
    /// Waiting for the target's handshake request.
    LookForMagic,
    /// Frame 0 was sent; looking for a chunk size that gets through.
    Calibrate,
    /// A data frame was sent; waiting for the reply to it.
    WaitResp,
    /// The jump frame was sent; waiting for the reply to it.
    WaitFinalResp,
}

/// The transfer context as plain values.
pub struct StateView {
    pub activity: Activity,
    /// The handshake pattern and how much of it is matched.
    pub magic: Seq<u8>,
    pub cursor: nat,
    pub loader: Option<LoaderView>,
    pub last_frame_sent: Option<u32>,
    pub last_frame_acked: Option<u32>,
    pub filename: Option<Seq<char>>,
    pub addr: u32,
    /// The wire bytes of the frame that was sent last.
    pub curr_frame: Option<Seq<u8>>,
    pub file_size: Option<u64>,
    /// When the transfer started, in microseconds.
    pub start_time: Option<u64>,
}

impl StateView {
    /// Nothing is remembered of any transfer.
    pub open spec fn idle(self) -> bool {
        &&& self.loader is None
        &&& self.last_frame_sent is None
        &&& self.last_frame_acked is None
        &&& self.curr_frame is None
        &&& self.file_size is None
        &&& self.start_time is None
    }

    /// Everything that a transfer in flight needs is there: a loader for a
    /// non-empty image at the configured address, the image's size, the frame
    /// sent last with its number, and the starting time.
    pub open spec fn in_transfer(self) -> bool {
        &&& self.loader matches Some(loader)
        &&& loader.wf()
        &&& loader.image.len() > 0
        &&& loader.base == self.addr
        &&& self.file_size == Some(loader.image.len() as u64)
        &&& self.last_frame_sent is Some
        &&& self.curr_frame is Some
        &&& self.start_time is Some
    }

    /// The context holds what its activity needs: unless the engine is
    /// inactive, an input file is configured; nothing of a transfer is there
    /// while none is in flight; during calibration the frame sent last is
    /// frame 0; while data frames are sent the frame sent last lies within
    /// the image.
    pub open spec fn wf(self) -> bool {
        &&& cursor_ok(self.magic, self.cursor)
        &&& self.activity != Activity::Inactive ==> self.filename is Some
        &&& match self.activity {
            Activity::Inactive | Activity::LookForMagic => self.idle(),
            Activity::Calibrate => self.in_transfer() && self.last_frame_sent == Some(0u32),
            Activity::WaitResp => self.in_transfer() && self.loader->0.has_chunk(
                self.last_frame_sent->0,
            ),
            Activity::WaitFinalResp => self.in_transfer(),
        }
    }

    /// The context with nothing remembered of any transfer, in `activity`.
    pub open spec fn cleared(self, activity: Activity) -> StateView {
        StateView {
            activity,
            loader: None,
            last_frame_sent: None,
            last_frame_acked: None,
            curr_frame: None,
            file_size: None,
            start_time: None,
            ..self
        }
    }
}

/// The transfer context. It is made once and then changed only by
/// [`State::configure`] and [`drive_sfl`].
#[derive(Debug)]
pub struct State {
    activity: Activity,
    matcher: MagicMatcher,
    sfl_loader: Option<SflLoader>,
    last_frame_sent: Option<u32>,
    last_frame_acked: Option<u32>,
    filename: Option<String>,
    addr: u32,
    curr_frame: Option<Box<Frame>>,
    file_size: Option<u64>,
    start_time: Option<u64>,
}

impl View for State {
    type V = StateView;

    closed spec fn view(&self) -> StateView {
        StateView {
            activity: self.activity,
            magic: self.matcher.magic(),
            cursor: self.matcher.cursor(),
            loader: match self.sfl_loader {
                Some(loader) => Some(loader@),
                None => None,
            },
            last_frame_sent: self.last_frame_sent,
            last_frame_acked: self.last_frame_acked,
            filename: match self.filename {
                Some(name) => Some(name@),
                None => None,
            },
            addr: self.addr,
            curr_frame: match self.curr_frame {
                Some(frame) => Some(frame@),
                None => None,
            },
            file_size: self.file_size,
            start_time: self.start_time,
        }
    }
}

impl State {
    /// A context that looks for the handshake request `MAGIC`, with no file
    /// configured, the default load address and the protocol inactive.
    pub fn new() -> (s: State)
        ensures
            s@.wf(),
            s@ == (StateView {
                activity: Activity::Inactive,
                magic: MAGIC@,
                cursor: 0,
                loader: None,
                last_frame_sent: None,
                last_frame_acked: None,
                filename: None,
                addr: DEFAULT_ADDR,
                curr_frame: None,
                file_size: None,
                start_time: None,
            }),
    {
        let magic: &'static [u8] = &MAGIC;
        State {
            activity: Activity::Inactive,
            matcher: MagicMatcher::new(magic),
            sfl_loader: None,
            last_frame_sent: None,
            last_frame_acked: None,
            filename: None,
            addr: DEFAULT_ADDR,
            curr_frame: None,
            file_size: None,
            start_time: None,
        }
    }
}

impl State {
    /// Sets the input file, the load address and whether the engine is
    /// active, as the operator has chosen them. A transfer in flight is
    /// abandoned.
    pub fn configure(&mut self, filename: Option<String>, addr: Option<u32>, active: bool)
        requires
            old(self)@.wf(),
        ensures
            final(self)@.wf(),
            final(self)@ == protocol::configured(
                old(self)@,
                match filename {
                    Some(name) => Some(name@),
                    None => None,
                },
                addr,
                active,
            ),
    {
        let activate = filename.is_some() && addr.is_some() && active;
        self.filename = filename;
        self.addr = match addr {
            Some(addr) => addr,
            None => DEFAULT_ADDR,
        };
        if activate {
            self.matcher.reset();
            self.activity = Activity::LookForMagic;
        } else {
            self.activity = Activity::Inactive;
        }
        self.sfl_loader = None;
        self.last_frame_sent = None;
        self.last_frame_acked = None;
        self.curr_frame = None;
        self.file_size = None;
        self.start_time = None;
    }

    /// Whether `chunk` completes the handshake request, so that the next
    /// call of [`drive_sfl`] with it looks at the input file.
    pub fn wants_file(&self, chunk: &[u8]) -> (wanted: bool)
        requires
            self@.wf(),
        ensures
            wanted == protocol::wants_file(self@, chunk@),
    {
        self.activity == Activity::LookForMagic && self.matcher.would_match(chunk)
    }

    /// The state of the protocol.
    pub fn activity(&self) -> (activity: Activity)
        ensures
            activity == self@.activity,
    {
        self.activity
    }

    /// The input file's name, if one is configured.
    pub fn filename(&self) -> (name: Option<&String>)
        ensures
            name is Some == self@.filename is Some,
            name matches Some(name) ==> self@.filename == Some(name@),
    {
        self.filename.as_ref()
    }

    /// The address at which the image is loaded and started.
    pub fn addr(&self) -> (addr: u32)
        ensures
            addr == self@.addr,
    {
        self.addr
    }

    /// The loader of the transfer in flight.
    pub fn sfl_loader(&self) -> (loader: Option<&SflLoader>)
        ensures
            loader is Some == self@.loader is Some,
            loader matches Some(loader) ==> self@.loader == Some(loader@),
    {
        self.sfl_loader.as_ref()
    }

    /// The number of the data frame that was sent last.
    pub fn last_frame_sent(&self) -> (n: Option<u32>)
        ensures
            n == self@.last_frame_sent,
    {
        self.last_frame_sent
    }

    /// The number of the data frame that was acknowledged last.
    pub fn last_frame_acked(&self) -> (n: Option<u32>)
        ensures
            n == self@.last_frame_acked,
    {
        self.last_frame_acked
    }

    /// The frame that was sent last, kept for sending it again.
    pub fn curr_frame(&self) -> (frame: Option<&Frame>)
        ensures
            frame is Some == self@.curr_frame is Some,
            frame matches Some(frame) ==> self@.curr_frame == Some(frame@),
    {
        match &self.curr_frame {
            Some(frame) => Some(&**frame),
            None => None,
        }
    }

    /// The size of the input file in bytes.
    pub fn file_size(&self) -> (size: Option<u64>)
        ensures
            size == self@.file_size,
    {
        self.file_size
    }

    /// When the transfer in flight started, in microseconds.
    pub fn start_time(&self) -> (time: Option<u64>)
        ensures
            time == self@.start_time,
    {
        self.start_time
    }
}

/// What the host hands in for the input file, as plain values.
pub open spec fn input_view(file: Option<Result<Vec<u8>, String>>) -> Option<
    Result<Seq<u8>, Seq<char>>,
> {
    match file {
        None => None,
        Some(file) => Some(file_view(file)),
    }
}

/// Whether what a step returned is what the state machine gives.
pub open spec fn agrees(
    r: Result<ReadAction, Error>,
    expected: Result<ReadActionView, ErrorView>,
) -> bool {
    match expected {
        Ok(action) => r is Ok && r->Ok_0@ == action,
        Err(e) => r is Err && r->Err_0@ == e,
    }
}

/// Whether the step left behind what the state machine gives.
pub open spec fn stepped(
    s: &State,
    out: &OutBuff,
    r: Result<ReadAction, Error>,
    expected: protocol::Outcome,
) -> bool {
    &&& s@ == expected.state
    &&& out@ == expected.out
    &&& agrees(r, expected.result)
}

fn redo_last_frame(s: &State, out: &mut OutBuff) -> (r: Result<ReadAction, Error>)
    requires
        s@.wf(),
        s@.in_transfer(),
        old(out)@.wf(),
    ensures
        final(out)@.wf(),
        stepped(s, final(out), r, protocol::resend(s@, old(out)@)),
{
    let frame = s.curr_frame.as_ref().unwrap();
    match inject_output(out, frame.as_bytes()) {
        Err(e) => Err(e),
        Ok(()) => Ok(ReadAction::Swallow),
    }
}

fn start_transfer(
    s: &mut State,
    file: Option<Result<Vec<u8>, String>>,
    now: u64,
    out: &mut OutBuff,
) -> (r: Result<ReadAction, Error>)
    requires
        old(s)@.wf(),
        old(s)@.activity == Activity::LookForMagic,
        old(out)@.wf(),
    ensures
        final(s)@.wf(),
        final(out)@.wf(),
        stepped(
            final(s),
            final(out),
            r,
            protocol::start_transfer(old(s)@, input_view(file), now, old(out)@),
        ),
{
    let file = match file {
        None => {
            return Err(Error::FileIoError("input file was not read".to_string()));
        },
        Some(file) => file,
    };
    let loader = match SflLoader::open(file, s.addr) {
        Err(e) => {
            return Err(e);
        },
        Ok(loader) => loader,
    };
    match inject_output(out, MAGIC_RESPONSE.as_slice()) {
        Err(e) => {
            return Err(e);
        },
        Ok(()) => {},
    }
    let frame = loader.encode_data_frame(0).unwrap();
    match inject_output(out, frame.as_bytes()) {
        Err(e) => {
            return Err(e);
        },
        Ok(()) => {},
    }
    s.file_size = Some(loader.image_len() as u64);
    s.sfl_loader = Some(loader);
    s.activity = Activity::Calibrate;
    s.curr_frame = Some(frame);
    s.last_frame_sent = Some(0);
    s.start_time = Some(now);
    Ok(ReadAction::Append(uploading_notice_string()))
}

fn calibrate(s: &mut State, resp: Resp, out: &mut OutBuff) -> (r: Result<ReadAction, Error>)
    requires
        old(s)@.wf(),
        old(s)@.activity == Activity::Calibrate,
        old(out)@.wf(),
    ensures
        final(s)@.wf(),
        final(out)@.wf(),
        stepped(final(s), final(out), r, protocol::calibrate(old(s)@, resp, old(out)@)),
{
    let settled = resp == Resp::Success;
    let mut loader = s.sfl_loader.take().unwrap();
    let size = loader.chunk_size();
    if settled {
        s.activity = Activity::WaitResp;
    } else {
        loader.halve_chunk_size();
    }
    // Frame 0 goes out again at the chunk size that now holds, which keeps
    // calibration and sending apart.
    let frame = loader.encode_data_frame(0).unwrap();
    s.sfl_loader = Some(loader);
    match inject_output(out, frame.as_bytes()) {
        Err(e) => {
            return Err(e);
        },
        Ok(()) => {},
    }
    s.curr_frame = Some(frame);
    if settled {
        Ok(ReadAction::Replace(packet_size_notice_string(size)))
    } else {
        Ok(ReadAction::Swallow)
    }
}

fn wait_resp(s: &mut State, resp: Resp, out: &mut OutBuff) -> (r: Result<ReadAction, Error>)
    requires
        old(s)@.wf(),
        old(s)@.activity == Activity::WaitResp,
        old(out)@.wf(),
    ensures
        final(s)@.wf(),
        final(out)@.wf(),
        stepped(final(s), final(out), r, protocol::wait_resp(old(s)@, resp, old(out)@)),
{
    if resp != Resp::Success {
        return redo_last_frame(s, out);
    }
    let sent = s.last_frame_sent.unwrap();
    s.last_frame_acked = Some(sent);
    let loader = s.sfl_loader.as_ref().unwrap();
    assert(sent < 0x1000_0000) by (nonlinear_arith)
        requires
            sent * loader@.chunk_size < loader@.image.len(),
            loader@.image.len() <= 0x1_0000_0000,
            loader@.chunk_size >= 16,
    ;
    let bar = status_bar(sent, s.file_size.unwrap(), loader.chunk_size());
    match loader.encode_data_frame(sent + 1) {
        Some(frame) => {
            match inject_output(out, frame.as_bytes()) {
                Err(e) => {
                    return Err(e);
                },
                Ok(()) => {},
            }
            s.curr_frame = Some(frame);
            s.last_frame_sent = Some(sent + 1);
        },
        None => {
            let frame = loader.encode_boot_frame(s.addr);
            match inject_output(out, frame.as_bytes()) {
                Err(e) => {
                    return Err(e);
                },
                Ok(()) => {},
            }
            s.curr_frame = Some(frame);
            s.activity = Activity::WaitFinalResp;
        },
    }
    Ok(ReadAction::Replace(bar))
}

fn wait_final_resp(s: &mut State, resp: Resp, now: u64, out: &mut OutBuff) -> (r: Result<
    ReadAction,
    Error,
>)
    requires
        old(s)@.wf(),
        old(s)@.activity == Activity::WaitFinalResp,
        old(out)@.wf(),
    ensures
        final(s)@.wf(),
        final(out)@.wf(),
        stepped(
            final(s),
            final(out),
            r,
            protocol::wait_final_resp(old(s)@, resp, now, old(out)@),
        ),
{
    if resp != Resp::Success {
        return redo_last_frame(s, out);
    }
    let file_size = s.file_size.unwrap();
    let start = s.start_time.unwrap();
    let elapsed = if now >= start {
        now - start
    } else {
        0
    };
    let rate = pretty_rate_string(transfer_rate_of(file_size, elapsed));
    s.activity = Activity::LookForMagic;
    s.sfl_loader = None;
    s.last_frame_sent = None;
    s.last_frame_acked = None;
    s.curr_frame = None;
    s.file_size = None;
    s.start_time = None;
    Ok(ReadAction::Prepend(done_notice_string(rate.as_str())))
}

/// Drives the transfer by one chunk that the host has read from the wire,
/// and says what the host is to do with the chunk. Frames and the handshake
/// acknowledgment go into `out`. `file` is what reading the input file gave;
/// it is looked at only when the chunk completes the handshake request, see
/// [`State::wants_file`]. `now` is the time in microseconds on a clock that
/// does not go back.
///
/// What the step does is [`protocol::drive`].
pub fn drive_sfl(
    s: &mut State,
    chunk: &[u8],
    file: Option<Result<Vec<u8>, String>>,
    now: u64,
    out: &mut OutBuff,
) -> (r: Result<ReadAction, Error>)
    requires
        old(s)@.wf(),
        old(out)@.wf(),
    ensures
        final(s)@.wf(),
        final(out)@.wf(),
        stepped(
            final(s),
            final(out),
            r,
            protocol::drive(old(s)@, chunk@, input_view(file), now, old(out)@),
        ),
{
    match s.activity {
        Activity::Inactive => Ok(ReadAction::PassThru),
        Activity::LookForMagic => {
            if !s.matcher.look_for_match(chunk) {
                return Ok(ReadAction::PassThru);
            }
            s.matcher.reset();
            start_transfer(s, file, now, out)
        },
        activity => {
            if chunk.len() == 0 {
                return Ok(ReadAction::PassThru);
            }
            let resp = match Resp::try_from(chunk[0]) {
                Err(_) => {
                    return Err(Error::UnexpectedResponse(chunk[0]));
                },
                Ok(resp) => resp,
            };
            match activity {
                Activity::Calibrate => calibrate(s, resp, out),
                Activity::WaitResp => wait_resp(s, resp, out),
                _ => wait_final_resp(s, resp, now, out),
            }
        },
    }
}

} // verus!
