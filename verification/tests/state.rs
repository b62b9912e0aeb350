use ttx_litex::error::Error;
use ttx_litex::io::{OutBuff, ReadAction};
use ttx_litex::sfl::loader::SflLoader;
use ttx_litex::sfl::magic::MAGIC_RESPONSE;
use ttx_litex::state::{drive_sfl, Activity, State, DEFAULT_ADDR};
use ttx_litex::text::status_bar;

const BASE: u32 = 0x4000_0000;

fn image(len: usize) -> Vec<u8> {
    (0..len).map(|i| (i * 31 % 256) as u8).collect()
}

fn active_state() -> State {
    let mut s = State::new();
    s.configure(Some("kernel.bin".to_string()), Some(BASE), true);
    s
}

fn empty_out() -> OutBuff {
    OutBuff::new(vec![0; 4096], 0, 0)
}

fn pending(out: &OutBuff) -> Vec<u8> {
    let from = out.offset() as usize;
    out.bytes()[from..from + out.count() as usize].to_vec()
}

/// One step as the host makes it: the file is read when the step wants it,
/// and the output buffer is empty because the host has flushed it.
fn step(
    s: &mut State,
    chunk: &[u8],
    file: &[u8],
    now: u64,
) -> (Result<ReadAction, Error>, Vec<u8>) {
    let mut out = empty_out();
    let handed = if s.wants_file(chunk) {
        Some(Ok(file.to_vec()))
    } else {
        None
    };
    let r = drive_sfl(s, chunk, handed, now, &mut out);
    (r, pending(&out))
}

fn data_frame(file: &[u8], halvings: usize, n: u32) -> Vec<u8> {
    let mut loader = SflLoader::new(file.to_vec(), BASE);
    for _ in 0..halvings {
        loader.halve_chunk_size();
    }
    loader.encode_data_frame(n).unwrap().as_bytes().to_vec()
}

fn boot_frame(addr: u32) -> Vec<u8> {
    SflLoader::new(vec![0], 0).encode_boot_frame(addr).as_bytes().to_vec()
}

fn started(file: &[u8]) -> State {
    let mut s = active_state();
    let (r, _) = step(&mut s, b"sL5DdSMmkekro\n", file, 1_000_000);
    assert!(r.is_ok());
    assert_eq!(s.activity(), Activity::Calibrate);
    s
}

fn settled(file: &[u8]) -> State {
    let mut s = started(file);
    let (r, _) = step(&mut s, b"K", file, 1_000_001);
    assert!(r.is_ok());
    assert_eq!(s.activity(), Activity::WaitResp);
    s
}

#[test]
fn new_state_is_inactive_with_the_default_address() {
    let s = State::new();
    assert_eq!(s.activity(), Activity::Inactive);
    assert_eq!(s.addr(), 0x4000_0000);
    assert_eq!(DEFAULT_ADDR, 0x4000_0000);
    assert!(s.filename().is_none());
    assert!(s.sfl_loader().is_none());
    assert!(s.curr_frame().is_none());
    assert_eq!(s.last_frame_sent(), None);
    assert_eq!(s.last_frame_acked(), None);
    assert_eq!(s.file_size(), None);
    assert_eq!(s.start_time(), None);
}

#[test]
fn inactive_state_passes_everything_through() {
    let mut s = State::new();
    for chunk in [&b"sL5DdSMmkekro\n"[..], b"K", b"", b"X"] {
        assert!(!s.wants_file(chunk));
        let (r, sent) = step(&mut s, chunk, &image(10), 0);
        assert_eq!(r, Ok(ReadAction::PassThru));
        assert!(sent.is_empty());
        assert_eq!(s.activity(), Activity::Inactive);
    }
}

#[test]
fn end_to_end_transfer_of_three_chunks() {
    let file = image(600);
    let mut s = active_state();
    assert_eq!(s.activity(), Activity::LookForMagic);

    // The handshake request arrives in two chunks.
    let (r, sent) = step(&mut s, b"sL5DdSM", &file, 900_000);
    assert_eq!(r, Ok(ReadAction::PassThru));
    assert!(sent.is_empty());
    assert_eq!(s.activity(), Activity::LookForMagic);

    assert!(s.wants_file(b"mkekro\n"));
    let (r, sent) = step(&mut s, b"mkekro\n", &file, 1_000_000);
    assert_eq!(
        r,
        Ok(ReadAction::Append(
            "\r\x1B[0;36m[TTXLiteX] Uploading File\x1B[0m\r\n".to_string()
        ))
    );
    let frame0 = data_frame(&file, 0, 0);
    assert_eq!(sent, [&MAGIC_RESPONSE[..], &frame0[..]].concat());
    assert_eq!(s.activity(), Activity::Calibrate);
    assert_eq!(s.last_frame_sent(), Some(0));
    assert_eq!(s.last_frame_acked(), None);
    assert_eq!(s.file_size(), Some(600));
    assert_eq!(s.start_time(), Some(1_000_000));
    assert_eq!(s.curr_frame().unwrap().as_bytes(), &frame0[..]);
    assert_eq!(s.sfl_loader().unwrap().chunk_size(), 251);

    // The chunk size is accepted at once: frame 0 goes out once more.
    let (r, sent) = step(&mut s, b"K", &file, 1_100_000);
    assert_eq!(
        r,
        Ok(ReadAction::Replace(
            "\x1B[0;36m[TTXLiteX] Using packet size: 251 \x1B[0m\r\n".to_string()
        ))
    );
    assert_eq!(sent, frame0);
    assert_eq!(s.activity(), Activity::WaitResp);
    assert_eq!(s.last_frame_sent(), Some(0));

    // Frame 0 is acknowledged, frame 1 goes out.
    let (r, sent) = step(&mut s, b"K", &file, 1_200_000);
    assert_eq!(r, Ok(ReadAction::Replace(status_bar(0, 600, 251))));
    assert_eq!(sent, data_frame(&file, 0, 1));
    assert_eq!(s.activity(), Activity::WaitResp);
    assert_eq!(s.last_frame_acked(), Some(0));
    assert_eq!(s.last_frame_sent(), Some(1));
    assert_eq!(s.curr_frame().unwrap().as_bytes(), &sent[..]);

    let (r, sent) = step(&mut s, b"K", &file, 1_300_000);
    assert_eq!(
        r,
        Ok(ReadAction::Replace(
            "\r\x1B[0;36m[TTXLiteX] |==========================>             | 2 / 3 chunks\x1B[0m"
                .to_string()
        ))
    );
    assert_eq!(sent, data_frame(&file, 0, 2));
    assert_eq!(s.last_frame_acked(), Some(1));
    assert_eq!(s.last_frame_sent(), Some(2));

    // The image has no fourth chunk: the jump frame goes out.
    let (r, sent) = step(&mut s, b"K", &file, 1_400_000);
    assert_eq!(
        r,
        Ok(ReadAction::Replace(
            "\r\x1B[0;36m[TTXLiteX] |========================================| 3 / 3 chunks\x1B[0m"
                .to_string()
        ))
    );
    assert_eq!(sent, boot_frame(BASE));
    assert_eq!(sent, vec![4, 0x2a, 0x1f, 2, 0x40, 0, 0, 0]);
    assert_eq!(s.activity(), Activity::WaitFinalResp);
    assert_eq!(s.last_frame_acked(), Some(2));
    assert_eq!(s.last_frame_sent(), Some(2));
    assert_eq!(s.curr_frame().unwrap().as_bytes(), &sent[..]);

    // The jump is acknowledged two seconds after the start: 300 bytes a second.
    let (r, sent) = step(&mut s, b"K", &file, 3_000_000);
    assert_eq!(
        r,
        Ok(ReadAction::Prepend(
            "\r\n\x1B[0;36m[TTXLiteX] Done! (300 B/s)\x1B[0m\r\n\r\n".to_string()
        ))
    );
    assert!(sent.is_empty());
    assert_eq!(s.activity(), Activity::LookForMagic);
    assert_eq!(s.last_frame_sent(), None);
    assert_eq!(s.last_frame_acked(), None);
    assert_eq!(s.file_size(), None);
    assert_eq!(s.start_time(), None);
    assert!(s.curr_frame().is_none());
    assert!(s.sfl_loader().is_none());
    assert_eq!(s.addr(), BASE);
    assert_eq!(s.filename().unwrap(), "kernel.bin");
}

#[test]
fn a_second_transfer_follows_the_first() {
    let file = image(100);
    let mut s = active_state();
    for round in 0..2 {
        let (r, _) = step(&mut s, b"sL5DdSMmkekro\n", &file, 10);
        assert!(matches!(r, Ok(ReadAction::Append(_))), "round {}", round);
        let (r, _) = step(&mut s, b"K", &file, 20);
        assert!(matches!(r, Ok(ReadAction::Replace(_))));
        let (r, sent) = step(&mut s, b"K", &file, 30);
        assert!(matches!(r, Ok(ReadAction::Replace(_))));
        assert_eq!(sent, boot_frame(BASE));
        let (r, _) = step(&mut s, b"K", &file, 40);
        assert!(matches!(r, Ok(ReadAction::Prepend(_))));
        assert_eq!(s.activity(), Activity::LookForMagic);
    }
}

#[test]
fn done_notice_shows_the_rate_as_pretty_bytes_typed_prints_it() {
    let file = image(375_000);
    let mut s = settled(&file);
    loop {
        let (r, _) = step(&mut s, b"K", &file, 1_500_000);
        assert!(r.is_ok());
        if s.activity() == Activity::WaitFinalResp {
            break;
        }
    }
    // 375000 bytes in two seconds.
    let (r, _) = step(&mut s, b"K", &file, 3_000_000);
    let rate = pretty_bytes_typed::pretty_bytes(187_500, Some(2)).to_string();
    assert_eq!(rate, "187.5 KB");
    assert_eq!(
        r,
        Ok(ReadAction::Prepend(
            "\r\n\x1B[0;36m[TTXLiteX] Done! (187.5 KB/s)\x1B[0m\r\n\r\n".to_string()
        ))
    );
}

#[test]
fn a_clock_that_went_back_gives_the_largest_rate() {
    let file = image(10);
    let mut s = settled(&file);
    let (_, sent) = step(&mut s, b"K", &file, 5);
    assert_eq!(sent, boot_frame(BASE));
    let (r, _) = step(&mut s, b"K", &file, 0);
    assert_eq!(
        r,
        Ok(ReadAction::Prepend(
            "\r\n\x1B[0;36m[TTXLiteX] Done! (18.45 EB/s)\x1B[0m\r\n\r\n".to_string()
        ))
    );
}

#[test]
fn calibration_halves_the_chunk_size_on_every_error_reply() {
    let file = image(1000);
    let mut s = started(&file);
    let sizes = [128u16, 64, 32, 16, 16, 16];
    for (i, reply) in [b'C', b'U', b'E', b'C', b'U', b'E'].iter().enumerate() {
        let (r, sent) = step(&mut s, &[*reply], &file, 2_000_000);
        assert_eq!(r, Ok(ReadAction::Swallow));
        assert_eq!(s.activity(), Activity::Calibrate);
        assert_eq!(s.sfl_loader().unwrap().chunk_size(), sizes[i]);
        let halvings = if i < 4 { i + 1 } else { 4 };
        assert_eq!(sent, data_frame(&file, halvings, 0));
        assert_eq!(sent.len(), 8 + sizes[i] as usize);
        assert_eq!(s.last_frame_sent(), Some(0));
        // The frame that is kept is the one that went out last.
        assert_eq!(s.curr_frame().unwrap().as_bytes(), &sent[..]);
    }
}

#[test]
fn error_reply_after_calibration_sends_frame_0_at_the_settled_size() {
    let file = image(1000);
    let mut s = started(&file);
    let (_, _) = step(&mut s, b"C", &file, 0);
    let (_, _) = step(&mut s, b"C", &file, 0);
    let (_, settled_frame) = step(&mut s, b"K", &file, 0);
    assert_eq!(settled_frame, data_frame(&file, 2, 0));
    assert_eq!(settled_frame.len(), 8 + 64);
    assert_eq!(s.activity(), Activity::WaitResp);
    let (r, sent) = step(&mut s, b"E", &file, 0);
    assert_eq!(r, Ok(ReadAction::Swallow));
    assert_eq!(sent, settled_frame);
}

#[test]
fn calibration_settles_on_the_halved_size() {
    let file = image(1000);
    let mut s = started(&file);
    let (r, _) = step(&mut s, b"C", &file, 0);
    assert_eq!(r, Ok(ReadAction::Swallow));
    let (r, sent) = step(&mut s, b"K", &file, 0);
    assert_eq!(
        r,
        Ok(ReadAction::Replace(
            "\x1B[0;36m[TTXLiteX] Using packet size: 128 \x1B[0m\r\n".to_string()
        ))
    );
    assert_eq!(sent, data_frame(&file, 1, 0));
    assert_eq!(s.activity(), Activity::WaitResp);
    // Data frames follow at the settled size: 1000 bytes are 8 chunks of 128.
    let (r, sent) = step(&mut s, b"K", &file, 0);
    assert_eq!(r, Ok(ReadAction::Replace(status_bar(0, 1000, 128))));
    assert_eq!(sent, data_frame(&file, 1, 1));
    assert_eq!(&sent[4..8], &[0x40, 0, 0, 128]);
    for n in 2..8u32 {
        let (_, sent) = step(&mut s, b"K", &file, 0);
        assert_eq!(sent, data_frame(&file, 1, n));
        assert_eq!(s.last_frame_sent(), Some(n));
    }
    let (_, sent) = step(&mut s, b"K", &file, 0);
    assert_eq!(sent, boot_frame(BASE));
    assert_eq!(s.activity(), Activity::WaitFinalResp);
}

#[test]
fn error_reply_to_a_data_frame_sends_the_same_bytes_again() {
    let file = image(600);
    let mut s = settled(&file);
    let (_, first_sent) = step(&mut s, b"K", &file, 0);
    assert_eq!(first_sent, data_frame(&file, 0, 1));
    for _ in 0..50 {
        for reply in [b'C', b'U', b'E'] {
            let (r, sent) = step(&mut s, &[reply], &file, 0);
            assert_eq!(r, Ok(ReadAction::Swallow));
            assert_eq!(sent, first_sent);
            assert_eq!(s.activity(), Activity::WaitResp);
            assert_eq!(s.last_frame_sent(), Some(1));
            assert_eq!(s.last_frame_acked(), Some(0));
            assert_eq!(s.curr_frame().unwrap().as_bytes(), &first_sent[..]);
        }
    }
    // The transfer goes on where it was.
    let (_, sent) = step(&mut s, b"K", &file, 0);
    assert_eq!(sent, data_frame(&file, 0, 2));
}

#[test]
fn error_reply_to_the_jump_frame_sends_it_again() {
    let file = image(5);
    let mut s = settled(&file);
    let (_, first_sent) = step(&mut s, b"K", &file, 0);
    assert_eq!(first_sent, boot_frame(BASE));
    for reply in [b'C', b'U', b'E', b'E'] {
        let (r, sent) = step(&mut s, &[reply], &file, 0);
        assert_eq!(r, Ok(ReadAction::Swallow));
        assert_eq!(sent, first_sent);
        assert_eq!(s.activity(), Activity::WaitFinalResp);
    }
}

#[test]
fn resend_goes_behind_what_is_pending() {
    let file = image(600);
    let mut s = settled(&file);
    let frame = s.curr_frame().unwrap().as_bytes().to_vec();
    let mut bytes = vec![0u8; 1024];
    bytes[100..103].copy_from_slice(b"abc");
    let mut out = OutBuff::new(bytes, 100, 3);
    let r = drive_sfl(&mut s, b"C", None, 0, &mut out);
    assert_eq!(r, Ok(ReadAction::Swallow));
    assert_eq!(out.offset(), 0);
    assert_eq!(pending(&out), [&b"abc"[..], &frame[..]].concat());
}

#[test]
fn unexpected_reply_is_an_error_and_changes_nothing() {
    let file = image(600);
    let mut calibrating = started(&file);
    let mut sending = settled(&file);
    let mut finishing = settled(&image(3));
    let (_, _) = step(&mut finishing, b"K", &image(3), 0);
    assert_eq!(finishing.activity(), Activity::WaitFinalResp);
    for s in [&mut calibrating, &mut sending, &mut finishing] {
        let activity = s.activity();
        let frame = s.curr_frame().unwrap().as_bytes().to_vec();
        let size = s.sfl_loader().unwrap().chunk_size();
        let sent_before = s.last_frame_sent();
        let acked_before = s.last_frame_acked();
        for reply in [b'X', b'k', 0u8, 0xff, b'\n'] {
            let (r, sent) = step(s, &[reply, b'K'], &file, 0);
            assert_eq!(r, Err(Error::UnexpectedResponse(reply)));
            assert!(sent.is_empty());
            assert_eq!(s.activity(), activity);
            assert_eq!(s.curr_frame().unwrap().as_bytes(), &frame[..]);
            assert_eq!(s.sfl_loader().unwrap().chunk_size(), size);
            assert_eq!(s.last_frame_sent(), sent_before);
            assert_eq!(s.last_frame_acked(), acked_before);
        }
    }
}

#[test]
fn empty_chunk_while_a_reply_is_awaited_passes() {
    let file = image(600);
    let mut s = settled(&file);
    let (r, sent) = step(&mut s, b"", &file, 0);
    assert_eq!(r, Ok(ReadAction::PassThru));
    assert!(sent.is_empty());
    assert_eq!(s.activity(), Activity::WaitResp);
    assert_eq!(s.last_frame_sent(), Some(0));
}

#[test]
fn only_the_first_byte_of_a_chunk_is_the_reply() {
    let file = image(600);
    let mut s = settled(&file);
    let (r, sent) = step(&mut s, b"KCUE garbage", &file, 0);
    assert!(matches!(r, Ok(ReadAction::Replace(_))));
    assert_eq!(sent, data_frame(&file, 0, 1));
    let (r, sent) = step(&mut s, b"CK", &file, 0);
    assert_eq!(r, Ok(ReadAction::Swallow));
    assert_eq!(sent, data_frame(&file, 0, 1));
}

#[test]
fn handshake_without_a_file_is_a_file_error() {
    let mut s = active_state();
    let mut out = empty_out();
    let r = drive_sfl(&mut s, b"sL5DdSMmkekro\n", None, 0, &mut out);
    assert_eq!(r, Err(Error::FileIoError("input file was not read".to_string())));
    assert_eq!(s.activity(), Activity::LookForMagic);
    assert!(pending(&out).is_empty());
    assert!(s.sfl_loader().is_none());
    assert_eq!(s.file_size(), None);
}

#[test]
fn handshake_with_an_unreadable_file_is_a_file_error() {
    let mut s = active_state();
    let mut out = empty_out();
    let r = drive_sfl(
        &mut s,
        b"sL5DdSMmkekro\n",
        Some(Err("permission denied".to_string())),
        0,
        &mut out,
    );
    assert_eq!(r, Err(Error::FileIoError("permission denied".to_string())));
    assert_eq!(s.activity(), Activity::LookForMagic);
    assert!(pending(&out).is_empty());
}

#[test]
fn handshake_with_an_empty_file_is_refused_before_anything_is_sent() {
    let mut s = active_state();
    let mut out = empty_out();
    let r = drive_sfl(&mut s, b"sL5DdSMmkekro\n", Some(Ok(Vec::new())), 0, &mut out);
    assert_eq!(r, Err(Error::FileIoError("input file was empty".to_string())));
    assert_eq!(s.activity(), Activity::LookForMagic);
    assert!(pending(&out).is_empty());
    assert!(s.curr_frame().is_none());
    assert_eq!(s.last_frame_sent(), None);
}

#[test]
fn a_failed_start_needs_the_whole_handshake_again() {
    let file = image(10);
    let mut s = active_state();
    let mut out = empty_out();
    let r = drive_sfl(&mut s, b"xxsL5DdSMmkekro\nsL5D", Some(Ok(Vec::new())), 0, &mut out);
    assert!(r.is_err());
    // The matcher started over: the tail of the request alone is not enough.
    let (r, _) = step(&mut s, b"dSMmkekro\n", &file, 0);
    assert_eq!(r, Ok(ReadAction::PassThru));
    let (r, _) = step(&mut s, b"sL5DdSMmkekro\n", &file, 0);
    assert!(matches!(r, Ok(ReadAction::Append(_))));
}

#[test]
fn a_file_is_not_looked_at_unless_the_handshake_completes() {
    let mut s = active_state();
    let mut out = empty_out();
    let r = drive_sfl(&mut s, b"hello", Some(Err("not read".to_string())), 0, &mut out);
    assert_eq!(r, Ok(ReadAction::PassThru));
    let mut t = settled(&image(600));
    let r = drive_sfl(&mut t, b"K", Some(Ok(Vec::new())), 0, &mut out);
    assert!(matches!(r, Ok(ReadAction::Replace(_))));
}

#[test]
fn start_fails_when_the_acknowledgment_does_not_fit() {
    let mut s = active_state();
    let mut out = OutBuff::new(vec![0; 64], 0, 60);
    let r = drive_sfl(&mut s, b"sL5DdSMmkekro\n", Some(Ok(image(10))), 0, &mut out);
    assert_eq!(r, Err(Error::OutBuffFull { need: 14, actual: 4 }));
    assert_eq!(s.activity(), Activity::LookForMagic);
    assert_eq!(out.count(), 60);
    assert!(s.sfl_loader().is_none());
    assert_eq!(s.file_size(), None);
}

#[test]
fn start_fails_when_frame_0_does_not_fit_behind_the_acknowledgment() {
    let mut s = active_state();
    let mut out = OutBuff::new(vec![0; 24], 0, 0);
    let r = drive_sfl(&mut s, b"sL5DdSMmkekro\n", Some(Ok(image(10))), 0, &mut out);
    // Frame 0 has 4 + 4 + 10 bytes; 10 are free behind the acknowledgment.
    assert_eq!(r, Err(Error::OutBuffFull { need: 18, actual: 10 }));
    assert_eq!(s.activity(), Activity::LookForMagic);
    assert_eq!(pending(&out), &MAGIC_RESPONSE[..]);
    assert!(s.sfl_loader().is_none());
    assert!(s.curr_frame().is_none());
    assert_eq!(s.last_frame_sent(), None);
    assert_eq!(s.file_size(), None);
    assert_eq!(s.start_time(), None);
}

#[test]
fn start_fails_when_the_output_buffer_is_out_of_bounds() {
    let mut s = active_state();
    let mut out = OutBuff::new(vec![0; 1024], 900, 1000);
    let r = drive_sfl(&mut s, b"sL5DdSMmkekro\n", Some(Ok(image(10))), 0, &mut out);
    assert_eq!(r, Err(Error::OutBuffOutOfBounds(1900)));
    assert_eq!(s.activity(), Activity::LookForMagic);
}

#[test]
fn a_full_buffer_during_calibration_keeps_the_decision() {
    let file = image(600);
    let mut s = started(&file);
    let mut out = OutBuff::new(vec![0; 64], 0, 0);
    let r = drive_sfl(&mut s, b"C", None, 0, &mut out);
    assert_eq!(r, Err(Error::OutBuffFull { need: 136, actual: 64 }));
    assert_eq!(s.activity(), Activity::Calibrate);
    assert_eq!(s.sfl_loader().unwrap().chunk_size(), 128);
    let r = drive_sfl(&mut s, b"K", None, 0, &mut out);
    assert_eq!(r, Err(Error::OutBuffFull { need: 136, actual: 64 }));
    assert_eq!(s.activity(), Activity::WaitResp);
    assert_eq!(out.count(), 0);
}

#[test]
fn a_full_buffer_while_sending_acknowledges_but_does_not_advance() {
    let file = image(600);
    let mut s = settled(&file);
    let kept = s.curr_frame().unwrap().as_bytes().to_vec();
    let mut out = OutBuff::new(vec![0; 64], 0, 0);
    let r = drive_sfl(&mut s, b"K", None, 0, &mut out);
    assert_eq!(r, Err(Error::OutBuffFull { need: 259, actual: 64 }));
    assert_eq!(s.activity(), Activity::WaitResp);
    assert_eq!(s.last_frame_acked(), Some(0));
    assert_eq!(s.last_frame_sent(), Some(0));
    assert_eq!(s.curr_frame().unwrap().as_bytes(), &kept[..]);
    let r = drive_sfl(&mut s, b"E", None, 0, &mut out);
    assert_eq!(r, Err(Error::OutBuffFull { need: 259, actual: 64 }));
    assert_eq!(out.count(), 0);
}

#[test]
fn configure_needs_file_address_and_the_active_mark() {
    let mut s = State::new();
    s.configure(Some("a.bin".to_string()), Some(0x1000), true);
    assert_eq!(s.activity(), Activity::LookForMagic);
    assert_eq!(s.addr(), 0x1000);
    assert_eq!(s.filename().unwrap(), "a.bin");

    s.configure(Some("a.bin".to_string()), Some(0x1000), false);
    assert_eq!(s.activity(), Activity::Inactive);
    assert_eq!(s.addr(), 0x1000);

    s.configure(None, Some(0x1000), true);
    assert_eq!(s.activity(), Activity::Inactive);
    assert!(s.filename().is_none());

    s.configure(Some("a.bin".to_string()), None, true);
    assert_eq!(s.activity(), Activity::Inactive);
    assert_eq!(s.addr(), 0x4000_0000);
}

#[test]
fn configure_abandons_a_transfer_in_flight() {
    let file = image(600);
    for active in [true, false] {
        let mut s = settled(&file);
        let (_, _) = step(&mut s, b"K", &file, 0);
        assert_eq!(s.last_frame_sent(), Some(1));
        s.configure(Some("b.bin".to_string()), Some(0x2000), active);
        assert_eq!(
            s.activity(),
            if active { Activity::LookForMagic } else { Activity::Inactive }
        );
        assert!(s.sfl_loader().is_none());
        assert!(s.curr_frame().is_none());
        assert_eq!(s.last_frame_sent(), None);
        assert_eq!(s.last_frame_acked(), None);
        assert_eq!(s.file_size(), None);
        assert_eq!(s.start_time(), None);
        let (r, sent) = step(&mut s, b"K", &file, 0);
        assert_eq!(r, Ok(ReadAction::PassThru));
        assert!(sent.is_empty());
    }
}

#[test]
fn configure_forgets_a_partial_handshake() {
    let file = image(10);
    let mut s = active_state();
    let (_, _) = step(&mut s, b"sL5DdSM", &file, 0);
    s.configure(Some("kernel.bin".to_string()), Some(BASE), true);
    let (r, _) = step(&mut s, b"mkekro\n", &file, 0);
    assert_eq!(r, Ok(ReadAction::PassThru));
}

#[test]
fn the_configured_address_is_where_frames_load_and_jump() {
    let file = image(10);
    let mut s = State::new();
    s.configure(Some("k".to_string()), Some(0x8000_1000), true);
    let (_, sent) = step(&mut s, b"sL5DdSMmkekro\n", &file, 0);
    assert_eq!(&sent[14 + 4..14 + 8], &[0x80, 0x00, 0x10, 0x00]);
    let (_, _) = step(&mut s, b"K", &file, 0);
    let (_, sent) = step(&mut s, b"K", &file, 0);
    assert_eq!(&sent[3..], &[2, 0x80, 0x00, 0x10, 0x00]);
}

#[test]
fn wants_file_only_when_the_chunk_completes_the_handshake() {
    let mut s = active_state();
    assert!(!s.wants_file(b"sL5DdSM"));
    assert!(s.wants_file(b"sL5DdSMmkekro\n"));
    let (_, _) = step(&mut s, b"sL5DdSM", &image(9), 0);
    assert!(s.wants_file(b"mkekro\n"));
    assert!(!s.wants_file(b"mkekro"));
    let t = settled(&image(9));
    assert!(!t.wants_file(b"sL5DdSMmkekro\n"));
    assert!(!State::new().wants_file(b"sL5DdSMmkekro\n"));
}

#[test]
fn handshake_seen_during_a_transfer_is_a_reply_like_any_other() {
    let file = image(600);
    let mut s = settled(&file);
    let (r, _) = step(&mut s, b"sL5DdSMmkekro\n", &file, 0);
    assert_eq!(r, Err(Error::UnexpectedResponse(b's')));
    assert_eq!(s.activity(), Activity::WaitResp);
}

#[test]
fn a_file_too_large_for_the_address_space_is_refused() {
    let mut s = State::new();
    s.configure(Some("k".to_string()), Some(0xffff_fff0), true);
    let mut out = empty_out();
    let r = drive_sfl(&mut s, b"sL5DdSMmkekro\n", Some(Ok(image(17))), 0, &mut out);
    assert_eq!(
        r,
        Err(Error::FileIoError(
            "input file does not fit below the end of the address space".to_string()
        ))
    );
    assert_eq!(s.activity(), Activity::LookForMagic);
    let r = drive_sfl(&mut s, b"sL5DdSMmkekro\n", Some(Ok(image(16))), 0, &mut out);
    assert!(matches!(r, Ok(ReadAction::Append(_))));
}
