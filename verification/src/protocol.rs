//! The transfer state machine as a function: from the context, the chunk
//! that was read and the output buffer to the context and the buffer
//! afterwards, and what the host is to do with the chunk.

use crate::error::ErrorView;
use crate::io::{injected, lemma_injected_appends, OutBuffView, ReadActionView};
use crate::sfl::frame::{resp_of, Resp};
use crate::sfl::loader::{boot_frame, chunk_count, lemma_chunk_count, opened};
use crate::sfl::magic::{cursor_after, lemma_scan_cursor_inside, reports, MAGIC_RESPONSE};
use crate::state::{Activity, StateView, DEFAULT_ADDR};
use crate::text::{
    done_notice, packet_size_notice, pretty_rate, status_bar_text, transfer_rate,
    uploading_notice,
};
use vstd::prelude::*;

verus! {

/// What one step of the state machine leaves behind: the context, the output
/// buffer, and the action for the host or the error.
pub struct Outcome {
    pub state: StateView,
    pub out: OutBuffView,
    pub result: Result<ReadActionView, ErrorView>,
}

/// The context after the operator has set the input file, the load address
/// and whether the engine is active. The address falls back to the default
/// when none was given. With a file, an address and the engine active, the
/// handshake request is looked for from its start; else the engine is
/// inactive. Either way nothing is remembered of any transfer.
pub open spec fn configured(
    s: StateView,
    filename: Option<Seq<char>>,
    addr: Option<u32>,
    active: bool,
) -> StateView {
    let set = StateView {
        filename,
        addr: match addr {
            Some(addr) => addr,
            None => DEFAULT_ADDR,
        },
        ..s
    };
    if filename is Some && addr is Some && active {
        StateView { cursor: 0, ..set.cleared(Activity::LookForMagic) }
    } else {
        set.cleared(Activity::Inactive)
    }
}

/// Whether the chunk completes the handshake request, so that the step needs
/// the input file.
pub open spec fn wants_file(s: StateView, chunk: Seq<u8>) -> bool {
    s.activity == Activity::LookForMagic && reports(s.magic, s.cursor, chunk)
}

/// The error when the handshake request arrives and the host hands in no
/// file.
pub open spec fn file_missing() -> ErrorView {
    ErrorView::FileIoError("input file was not read"@)
}

/// The microseconds from `start` to `now`; none when the clock went back.
pub open spec fn elapsed(start: u64, now: u64) -> u64 {
    if now >= start {
        (now - start) as u64
    } else {
        0
    }
}

/// The handshake request was seen. The file is opened, the acknowledgment
/// and frame 0 go out, and calibration begins; the host appends a notice to
/// the chunk. A failure leaves the context without a transfer, and in the
/// output buffer what went out before it.
pub open spec fn start_transfer(
    s: StateView,
    file: Option<Result<Seq<u8>, Seq<char>>>,
    now: u64,
    out: OutBuffView,
) -> Outcome {
    let loader = match file {
        None => Err(file_missing()),
        Some(file) => opened(file, s.addr),
    };
    match loader {
        Err(e) => Outcome { state: s, out, result: Err(e) },
        Ok(loader) => match injected(out, MAGIC_RESPONSE@) {
            Err(e) => Outcome { state: s, out, result: Err(e) },
            Ok(acked) => match injected(acked, loader.data_frame(0)) {
                Err(e) => Outcome { state: s, out: acked, result: Err(e) },
                Ok(sent) => Outcome {
                    state: StateView {
                        activity: Activity::Calibrate,
                        loader: Some(loader),
                        curr_frame: Some(loader.data_frame(0)),
                        last_frame_sent: Some(0),
                        file_size: Some(loader.image.len() as u64),
                        start_time: Some(now),
                        ..s
                    },
                    out: sent,
                    result: Ok(ReadActionView::Append(uploading_notice())),
                },
            },
        },
    }
}

/// A step while the handshake request is looked for: the chunk goes through
/// the matcher and passes, unless it completes the request; then the matcher
/// starts over and the transfer starts.
pub open spec fn look_for_magic(
    s: StateView,
    chunk: Seq<u8>,
    file: Option<Result<Seq<u8>, Seq<char>>>,
    now: u64,
    out: OutBuffView,
) -> Outcome {
    if reports(s.magic, s.cursor, chunk) {
        start_transfer(StateView { cursor: 0, ..s }, file, now, out)
    } else {
        Outcome {
            state: StateView { cursor: cursor_after(s.magic, s.cursor, chunk), ..s },
            out,
            result: Ok(ReadActionView::PassThru),
        }
    }
}

/// The frame sent last goes out once more, as it is; the host drops the
/// chunk.
pub open spec fn resend(s: StateView, out: OutBuffView) -> Outcome {
    match injected(out, s.curr_frame->0) {
        Err(e) => Outcome { state: s, out, result: Err(e) },
        Ok(sent) => Outcome { state: s, out: sent, result: Ok(ReadActionView::Swallow) },
    }
}

/// A reply during calibration. Success settles the chunk size: data frames
/// follow, and the host shows the size in place of the chunk. Any other
/// reply halves the chunk size, and the host drops the chunk. Either way
/// frame 0 goes out again at the chunk size that now holds, and is the frame
/// that is kept.
pub open spec fn calibrate(s: StateView, resp: Resp, out: OutBuffView) -> Outcome {
    let loader = s.loader->0;
    let settled = resp == Resp::Success;
    let next = if settled {
        loader
    } else {
        loader.halve()
    };
    let state = StateView {
        activity: if settled {
            Activity::WaitResp
        } else {
            Activity::Calibrate
        },
        loader: Some(next),
        ..s
    };
    match injected(out, next.data_frame(0)) {
        Err(e) => Outcome { state, out, result: Err(e) },
        Ok(sent) => Outcome {
            state: StateView { curr_frame: Some(next.data_frame(0)), ..state },
            out: sent,
            result: Ok(
                if settled {
                    ReadActionView::Replace(packet_size_notice(loader.chunk_size))
                } else {
                    ReadActionView::Swallow
                },
            ),
        },
    }
}

/// A reply to a data frame. Success acknowledges the frame sent last; the
/// next data frame goes out or, when the image has no more chunks, the jump
/// frame, and the host shows the progress in place of the chunk. Any other
/// reply has the frame sent last go out again.
pub open spec fn wait_resp(s: StateView, resp: Resp, out: OutBuffView) -> Outcome {
    if resp == Resp::Success {
        let loader = s.loader->0;
        let sent = s.last_frame_sent->0;
        let acked = StateView { last_frame_acked: Some(sent), ..s };
        let next = (sent + 1) as u32;
        let more = loader.has_chunk(next);
        let frame = if more {
            loader.data_frame(next)
        } else {
            boot_frame(s.addr)
        };
        match injected(out, frame) {
            Err(e) => Outcome { state: acked, out, result: Err(e) },
            Ok(after) => Outcome {
                state: if more {
                    StateView { curr_frame: Some(frame), last_frame_sent: Some(next), ..acked }
                } else {
                    StateView {
                        curr_frame: Some(frame),
                        activity: Activity::WaitFinalResp,
                        ..acked
                    }
                },
                out: after,
                result: Ok(
                    ReadActionView::Replace(
                        status_bar_text(sent, s.file_size->0, loader.chunk_size),
                    ),
                ),
            },
        }
    } else {
        resend(s, out)
    }
}

/// A reply to the jump frame. Success ends the transfer: nothing of it is
/// remembered, the handshake request is looked for again, and the host shows
/// the transfer rate before the chunk. Any other reply has the jump frame go
/// out again.
pub open spec fn wait_final_resp(s: StateView, resp: Resp, now: u64, out: OutBuffView) -> Outcome {
    if resp == Resp::Success {
        let rate = transfer_rate(s.file_size->0, elapsed(s.start_time->0, now));
        Outcome {
            state: s.cleared(Activity::LookForMagic),
            out,
            result: Ok(ReadActionView::Prepend(done_notice(pretty_rate(rate)))),
        }
    } else {
        resend(s, out)
    }
}

/// A step while a reply is awaited: the first byte of the chunk is the
/// reply. A byte that is no reply code is an error and changes nothing; an
/// empty chunk passes and changes nothing.
pub open spec fn on_reply(s: StateView, chunk: Seq<u8>, now: u64, out: OutBuffView) -> Outcome {
    if chunk.len() == 0 {
        Outcome { state: s, out, result: Ok(ReadActionView::PassThru) }
    } else {
        match resp_of(chunk[0]) {
            None => Outcome {
                state: s,
                out,
                result: Err(ErrorView::UnexpectedResponse(chunk[0])),
            },
            Some(resp) => match s.activity {
                Activity::Calibrate => calibrate(s, resp, out),
                Activity::WaitResp => wait_resp(s, resp, out),
                _ => wait_final_resp(s, resp, now, out),
            },
        }
    }
}

/// One step of the state machine on the chunk that the host has read. `file`
/// is what reading the input file gave, if the host has read it; `now` is
/// the time in microseconds.
pub open spec fn drive(
    s: StateView,
    chunk: Seq<u8>,
    file: Option<Result<Seq<u8>, Seq<char>>>,
    now: u64,
    out: OutBuffView,
) -> Outcome {
    match s.activity {
        Activity::Inactive => Outcome { state: s, out, result: Ok(ReadActionView::PassThru) },
        Activity::LookForMagic => look_for_magic(s, chunk, file, now, out),
        _ => on_reply(s, chunk, now, out),
    }
}

/// A step keeps the context and the output buffer well-formed.
pub proof fn lemma_drive_keeps_wf(
    s: StateView,
    chunk: Seq<u8>,
    file: Option<Result<Seq<u8>, Seq<char>>>,
    now: u64,
    out: OutBuffView,
)
    requires
        s.wf(),
        out.wf(),
    ensures
        drive(s, chunk, file, now, out).state.wf(),
        drive(s, chunk, file, now, out).out.wf(),
{
    let o = drive(s, chunk, file, now, out);
    match s.activity {
        Activity::Inactive => {},
        Activity::LookForMagic => {
            if reports(s.magic, s.cursor, chunk) {
                let loader = match file {
                    None => Err(file_missing()),
                    Some(file) => opened(file, s.addr),
                };
                if let Ok(loader) = loader {
                    lemma_injected_appends(out, MAGIC_RESPONSE@);
                    if let Ok(acked) = injected(out, MAGIC_RESPONSE@) {
                        lemma_injected_appends(acked, loader.data_frame(0));
                    }
                }
            } else if s.magic.len() > 0 {
                lemma_scan_cursor_inside(s.magic, s.cursor, chunk);
            }
        },
        _ => {
            if chunk.len() > 0 {
                if let Some(resp) = resp_of(chunk[0]) {
                    let loader = s.loader->0;
                    lemma_injected_appends(out, s.curr_frame->0);
                    lemma_injected_appends(out, loader.data_frame(0));
                    lemma_injected_appends(out, loader.halve().data_frame(0));
                    if s.activity == Activity::WaitResp {
                        let next = (s.last_frame_sent->0 + 1) as u32;
                        lemma_injected_appends(out, loader.data_frame(next));
                        lemma_injected_appends(out, boot_frame(s.addr));
                        assert(s.last_frame_sent->0 < 0x1000_0000) by (nonlinear_arith)
                            requires
                                s.last_frame_sent->0 * loader.chunk_size < loader.image.len(),
                                loader.image.len() <= 0x1_0000_0000,
                                loader.chunk_size >= 16,
                        ;
                    }
                }
            }
        },
    }
}

/// A frame is sent again as it is: after a reply that is a reply code other
/// than success, while data frames or the jump frame are acknowledged, the
/// context stays as it is, and what goes into the output buffer is the frame
/// that was sent last, byte for byte. If the buffer cannot take it, nothing
/// goes in.
pub proof fn lemma_resend_is_verbatim(
    s: StateView,
    chunk: Seq<u8>,
    file: Option<Result<Seq<u8>, Seq<char>>>,
    now: u64,
    out: OutBuffView,
)
    requires
        s.wf(),
        out.wf(),
        s.activity == Activity::WaitResp || s.activity == Activity::WaitFinalResp,
        chunk.len() > 0,
        resp_of(chunk[0]) is Some,
        resp_of(chunk[0]) != Some(Resp::Success),
    ensures
        drive(s, chunk, file, now, out).state == s,
        drive(s, chunk, file, now, out).result is Ok ==> {
            &&& drive(s, chunk, file, now, out).result == Ok::<ReadActionView, ErrorView>(
                ReadActionView::Swallow,
            )
            &&& drive(s, chunk, file, now, out).out.pending() == out.pending() + s.curr_frame->0
        },
        drive(s, chunk, file, now, out).result is Err ==> drive(s, chunk, file, now, out).out
            == out,
{
    lemma_injected_appends(out, s.curr_frame->0);
}

/// The frame that is kept for sending again is the frame that went out
/// last: when a step succeeds and puts anything into the output buffer, the
/// pending output ends with the frame that is kept afterwards.
pub proof fn lemma_kept_frame_was_sent(
    s: StateView,
    chunk: Seq<u8>,
    file: Option<Result<Seq<u8>, Seq<char>>>,
    now: u64,
    out: OutBuffView,
)
    requires
        s.wf(),
        out.wf(),
        drive(s, chunk, file, now, out).result is Ok,
        drive(s, chunk, file, now, out).out != out,
    ensures
        drive(s, chunk, file, now, out).state.curr_frame is Some,
        ({
            let o = drive(s, chunk, file, now, out);
            let frame = o.state.curr_frame->0;
            let pending = o.out.pending();
            &&& frame.len() <= pending.len()
            &&& pending.skip(pending.len() - frame.len()) == frame
        }),
{
    let o = drive(s, chunk, file, now, out);
    let frame = o.state.curr_frame->0;
    let pending = o.out.pending();
    match s.activity {
        Activity::Inactive => {},
        Activity::LookForMagic => {
            let loader = match file {
                None => Err(file_missing()),
                Some(file) => opened(file, s.addr),
            };
            let loader = loader->Ok_0;
            lemma_injected_appends(out, MAGIC_RESPONSE@);
            let acked = injected(out, MAGIC_RESPONSE@)->Ok_0;
            lemma_injected_appends(acked, loader.data_frame(0));
            assert(pending.skip(pending.len() - frame.len()) =~= frame);
        },
        _ => {
            let loader = s.loader->0;
            let next = (s.last_frame_sent->0 + 1) as u32;
            lemma_injected_appends(out, s.curr_frame->0);
            lemma_injected_appends(out, loader.data_frame(0));
            lemma_injected_appends(out, loader.halve().data_frame(0));
            lemma_injected_appends(out, loader.data_frame(next));
            lemma_injected_appends(out, boot_frame(s.addr));
            assert(pending.skip(pending.len() - frame.len()) =~= frame);
        },
    }
}

/// Sending again repeats the transmission: if one step sent a frame, and a
/// later step, with the frame of the earlier step still kept, answers a
/// reply code other than success, then the bytes that the later step puts
/// into the output buffer are the bytes with which the pending output of the
/// earlier step ended.
pub proof fn lemma_resend_repeats_transmission(
    sent_from: StateView,
    sent_chunk: Seq<u8>,
    sent_file: Option<Result<Seq<u8>, Seq<char>>>,
    sent_at: u64,
    sent_out: OutBuffView,
    s: StateView,
    chunk: Seq<u8>,
    file: Option<Result<Seq<u8>, Seq<char>>>,
    now: u64,
    out: OutBuffView,
)
    requires
        sent_from.wf(),
        sent_out.wf(),
        drive(sent_from, sent_chunk, sent_file, sent_at, sent_out).result is Ok,
        drive(sent_from, sent_chunk, sent_file, sent_at, sent_out).out != sent_out,
        s.wf(),
        out.wf(),
        s.curr_frame == drive(sent_from, sent_chunk, sent_file, sent_at, sent_out).state.curr_frame,
        s.activity == Activity::WaitResp || s.activity == Activity::WaitFinalResp,
        chunk.len() > 0,
        resp_of(chunk[0]) is Some,
        resp_of(chunk[0]) != Some(Resp::Success),
        drive(s, chunk, file, now, out).result is Ok,
    ensures
        ({
            let first = drive(sent_from, sent_chunk, sent_file, sent_at, sent_out).out.pending();
            let again = drive(s, chunk, file, now, out).out.pending();
            let frame = s.curr_frame->0;
            &&& frame.len() <= first.len()
            &&& again == out.pending() + frame
            &&& first.skip(first.len() - frame.len()) == frame
        }),
{
    lemma_kept_frame_was_sent(sent_from, sent_chunk, sent_file, sent_at, sent_out);
    lemma_resend_is_verbatim(s, chunk, file, now, out);
}

/// An output buffer that the host has written out: nothing is pending, and
/// the largest frame fits.
pub open spec fn flushed(out: OutBuffView) -> bool {
    &&& out.wf()
    &&& out.offset == 0
    &&& out.count == 0
    &&& out.bytes.len() >= 260
}

/// The context after the target has answered `count` times with success,
/// the host having written out the output buffer before each answer.
#[verifier::opaque]
pub open spec fn after_acks(s: StateView, count: nat, out: OutBuffView) -> StateView
    decreases count,
{
    if count == 0 {
        s
    } else {
        drive(after_acks(s, (count - 1) as nat, out), seq![0x4bu8], None, 0, out).state
    }
}

/// While data frames are sent and each is answered with success, the next
/// one follows: after `count` answers, with that many chunks still to come,
/// the frame sent last is the one that loads chunk `count` past where the
/// transfer stood, and all before it are acknowledged.
pub proof fn lemma_acks_send_data_frames(s: StateView, count: nat, out: OutBuffView)
    requires
        s.wf(),
        s.activity == Activity::WaitResp,
        flushed(out),
        s.last_frame_sent->0 + count < chunk_count(s.loader->0.image.len(), s.loader->0.chunk_size),
    ensures
        s.last_frame_sent->0 + count < 0x1000_0000,
        after_acks(s, count, out).wf(),
        after_acks(s, count, out).activity == Activity::WaitResp,
        after_acks(s, count, out).loader == s.loader,
        after_acks(s, count, out).addr == s.addr,
        after_acks(s, count, out).filename == s.filename,
        after_acks(s, count, out).magic == s.magic,
        after_acks(s, count, out).cursor == s.cursor,
        after_acks(s, count, out).file_size == s.file_size,
        after_acks(s, count, out).start_time == s.start_time,
        after_acks(s, count, out).last_frame_sent == Some((s.last_frame_sent->0 + count) as u32),
        count > 0 ==> after_acks(s, count, out).last_frame_acked == Some(
            (s.last_frame_sent->0 + count - 1) as u32,
        ),
        count > 0 ==> after_acks(s, count, out).curr_frame == Some(
            s.loader->0.data_frame((s.last_frame_sent->0 + count) as u32),
        ),
    decreases count,
{
    let loader = s.loader->0;
    reveal(after_acks);
    lemma_chunk_count(
        loader.image.len(),
        loader.chunk_size,
        (s.last_frame_sent->0 + count) as u32,
    );
    assert(s.last_frame_sent->0 + count < 0x1000_0000) by (nonlinear_arith)
        requires
            s.last_frame_sent->0 + count < chunk_count(loader.image.len(), loader.chunk_size),
            chunk_count(loader.image.len(), loader.chunk_size) * 16 <= loader.image.len() + 15,
            loader.image.len() <= 0x1_0000_0000,
    ;
    if count > 0 {
        let before = after_acks(s, (count - 1) as nat, out);
        lemma_acks_send_data_frames(s, (count - 1) as nat, out);
        let next = (before.last_frame_sent->0 + 1) as u32;
        assert(resp_of(0x4bu8) == Some(Resp::Success));
        assert(seq![0x4bu8][0] == 0x4bu8);
        lemma_chunk_count(loader.image.len(), loader.chunk_size, next);
        crate::sfl::loader::lemma_data_frame_size(loader, next);
        lemma_injected_appends(out, loader.data_frame(next));
        lemma_drive_keeps_wf(before, seq![0x4bu8], None, 0, out);
    }
}

/// When the frame sent last was the last data frame, a success reply sends
/// the jump frame for the configured address.
pub proof fn lemma_last_ack_sends_jump(s: StateView, out: OutBuffView)
    requires
        s.wf(),
        s.activity == Activity::WaitResp,
        flushed(out),
        s.last_frame_sent->0 + 1 == chunk_count(
            s.loader->0.image.len(),
            s.loader->0.chunk_size,
        ),
    ensures
        drive(s, seq![0x4bu8], None, 0, out).state == (StateView {
            activity: Activity::WaitFinalResp,
            curr_frame: Some(boot_frame(s.addr)),
            last_frame_acked: s.last_frame_sent,
            ..s
        }),
        drive(s, seq![0x4bu8], None, 0, out).state.wf(),
        drive(s, seq![0x4bu8], None, 0, out).out.pending() == boot_frame(s.addr),
{
    let loader = s.loader->0;
    let total = chunk_count(loader.image.len(), loader.chunk_size);
    assert(resp_of(0x4bu8) == Some(Resp::Success));
    assert(seq![0x4bu8][0] == 0x4bu8);
    assert(total <= 0x1000_0000) by (nonlinear_arith)
        requires
            (total - 1) * loader.chunk_size < loader.image.len(),
            loader.image.len() <= 0x1_0000_0000,
            loader.chunk_size >= 16,
    ;
    lemma_chunk_count(loader.image.len(), loader.chunk_size, total as u32);
    lemma_injected_appends(out, boot_frame(s.addr));
    lemma_drive_keeps_wf(s, seq![0x4bu8], None, 0, out);
    assert(out.pending() =~= Seq::<u8>::empty());
    assert(out.pending() + boot_frame(s.addr) =~= boot_frame(s.addr));
}

/// A success reply to the jump frame ends the transfer: the handshake
/// request is looked for again, and nothing is remembered of the transfer.
pub proof fn lemma_jump_ack_ends_transfer(
    s: StateView,
    chunk: Seq<u8>,
    file: Option<Result<Seq<u8>, Seq<char>>>,
    now: u64,
    out: OutBuffView,
)
    requires
        s.activity == Activity::WaitFinalResp,
        chunk.len() > 0,
        resp_of(chunk[0]) == Some(Resp::Success),
    ensures
        drive(s, chunk, file, now, out).state == s.cleared(Activity::LookForMagic),
        drive(s, chunk, file, now, out).state.idle(),
        drive(s, chunk, file, now, out).out == out,
        drive(s, chunk, file, now, out).result is Ok,
{
}

/// In a run of success replies, the reply to the last data frame sends the
/// jump frame.
proof fn lemma_run_sends_jump(s: StateView, count: nat, out: OutBuffView)
    requires
        after_acks(s, count, out).wf(),
        after_acks(s, count, out).activity == Activity::WaitResp,
        flushed(out),
        after_acks(s, count, out).last_frame_sent->0 + 1 == chunk_count(
            after_acks(s, count, out).loader->0.image.len(),
            after_acks(s, count, out).loader->0.chunk_size,
        ),
    ensures
        after_acks(s, count + 1, out) == (StateView {
            activity: Activity::WaitFinalResp,
            curr_frame: Some(boot_frame(after_acks(s, count, out).addr)),
            last_frame_acked: after_acks(s, count, out).last_frame_sent,
            ..after_acks(s, count, out)
        }),
{
    reveal(after_acks);
    lemma_last_ack_sends_jump(after_acks(s, count, out), out);
}

/// In a run of success replies, the reply to the jump frame ends the
/// transfer.
proof fn lemma_run_ends(s: StateView, count: nat, out: OutBuffView)
    requires
        after_acks(s, count, out).activity == Activity::WaitFinalResp,
    ensures
        after_acks(s, count + 1, out) == after_acks(s, count, out).cleared(
            Activity::LookForMagic,
        ),
{
    reveal(after_acks);
    assert(resp_of(0x4bu8) == Some(Resp::Success));
    assert(seq![0x4bu8][0] == 0x4bu8);
    lemma_jump_ack_ends_transfer(after_acks(s, count, out), seq![0x4bu8], None, 0, out);
}

/// A transfer whose frames are all answered with success runs to its end:
/// once the last data frame is acknowledged the jump frame for the
/// configured address goes out, and once that is acknowledged the handshake
/// request is looked for again and nothing is remembered of the transfer.
pub proof fn lemma_transfer_completes(s: StateView, out: OutBuffView)
    requires
        s.wf(),
        s.activity == Activity::WaitResp,
        flushed(out),
    ensures
        ({
            let total = chunk_count(s.loader->0.image.len(), s.loader->0.chunk_size);
            let left = (total - 1 - s.last_frame_sent->0) as nat;
            &&& s.last_frame_sent->0 < total
            &&& after_acks(s, left + 1, out).activity == Activity::WaitFinalResp
            &&& after_acks(s, left + 1, out).curr_frame == Some(boot_frame(s.addr))
            &&& after_acks(s, left + 1, out).last_frame_acked == Some((total - 1) as u32)
            &&& after_acks(s, left + 2, out) == s.cleared(Activity::LookForMagic)
        }),
{
    let loader = s.loader->0;
    let total = chunk_count(loader.image.len(), loader.chunk_size);
    lemma_chunk_count(loader.image.len(), loader.chunk_size, s.last_frame_sent->0);
    let left = (total - 1 - s.last_frame_sent->0) as nat;
    lemma_acks_send_data_frames(s, left, out);
    lemma_run_sends_jump(s, left, out);
    lemma_run_ends(s, left + 1, out);
    assert(left + 1 + 1 == left + 2);
}

} // verus!
