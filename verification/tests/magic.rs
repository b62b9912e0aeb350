use ttx_litex::sfl::magic::{MagicMatcher, MAGIC, MAGIC_RESPONSE};

#[test]
fn magic_constants_are_the_handshake_strings() {
    assert_eq!(&MAGIC[..], b"sL5DdSMmkekro\n");
    assert_eq!(&MAGIC_RESPONSE[..], b"z6IHG7cYDID6o\n");
    assert_eq!(MAGIC.len(), 14);
    assert_eq!(MAGIC_RESPONSE.len(), 14);
}

#[test]
fn whole_magic_in_one_chunk_matches() {
    let mut m = MagicMatcher::new(&MAGIC);
    assert!(m.look_for_match(b"sL5DdSMmkekro\n"));
}

#[test]
fn magic_split_across_two_chunks_matches_on_second() {
    let mut m = MagicMatcher::new(&MAGIC);
    assert!(!m.look_for_match(b"sL5DdSM"));
    assert!(m.look_for_match(b"mkekro\n"));
}

#[test]
fn magic_one_byte_at_a_time_matches_once_on_last_byte() {
    let mut m = MagicMatcher::new(&MAGIC);
    for (i, b) in MAGIC.iter().enumerate() {
        let found = m.look_for_match(&[*b]);
        assert_eq!(found, i == MAGIC.len() - 1, "byte {}", i);
    }
}

#[test]
fn magic_every_two_way_split_matches_exactly_once() {
    for cut in 0..=MAGIC.len() {
        let mut m = MagicMatcher::new(&MAGIC);
        let first = m.look_for_match(&MAGIC[..cut]);
        let second = m.look_for_match(&MAGIC[cut..]);
        // The chunk with the last byte is the first one only when nothing is
        // left for the second.
        assert_eq!(first, cut == MAGIC.len(), "cut {}", cut);
        assert_eq!(second, cut != MAGIC.len(), "cut {}", cut);
    }
}

#[test]
fn magic_every_three_way_split_matches_exactly_once() {
    for a in 0..=MAGIC.len() {
        for b in a..=MAGIC.len() {
            let mut m = MagicMatcher::new(&MAGIC);
            let chunks = [&MAGIC[..a], &MAGIC[a..b], &MAGIC[b..]];
            let mut seen = 0;
            let mut consumed = 0;
            for chunk in chunks {
                let before = consumed;
                consumed += chunk.len();
                let found = m.look_for_match(chunk);
                let holds_last = before < MAGIC.len() && consumed == MAGIC.len();
                assert_eq!(found, holds_last, "cuts {} {}", a, b);
                if found {
                    seen += 1;
                }
            }
            assert_eq!(seen, 1);
        }
    }
}

#[test]
fn magic_inside_other_output_matches() {
    let mut m = MagicMatcher::new(&MAGIC);
    assert!(!m.look_for_match(b"BIOS built on ...\r\n"));
    assert!(m.look_for_match(b"Booting from serial...\r\nsL5DdSMmkekro\nTimeout"));
}

#[test]
fn two_magics_in_a_row_are_found_without_reset() {
    let mut m = MagicMatcher::new(&MAGIC);
    assert!(m.look_for_match(b"sL5DdSMmkekro\n"));
    assert!(m.look_for_match(b"sL5DdSMmkekro\n"));
    assert!(!m.look_for_match(b"sL5DdS"));
    assert!(m.look_for_match(b"MmkekroX\n") == false);
}

#[test]
fn mismatch_restarts_without_reading_the_byte_again() {
    // The second `s` ends the partial match and is not taken as a new start.
    let mut m = MagicMatcher::new(&MAGIC);
    assert!(!m.look_for_match(b"ssL5DdSMmkekro\n"));
    // From a clean start the same tail is found.
    assert!(m.look_for_match(b"sL5DdSMmkekro\n"));
}

#[test]
fn empty_chunk_reports_nothing_and_keeps_the_partial_match() {
    let mut m = MagicMatcher::new(&MAGIC);
    assert!(!m.look_for_match(b"sL5DdSM"));
    assert!(!m.look_for_match(b""));
    assert!(m.look_for_match(b"mkekro\n"));
}

#[test]
fn empty_magic_matches_every_chunk() {
    let mut m = MagicMatcher::new(&[]);
    assert!(m.look_for_match(b""));
    assert!(m.look_for_match(b"anything"));
    assert!(m.would_match(b"x"));
}

#[test]
fn reset_forgets_a_partial_match() {
    let mut m = MagicMatcher::new(&MAGIC);
    assert!(!m.look_for_match(b"sL5DdSM"));
    m.reset();
    assert!(!m.look_for_match(b"mkekro\n"));
    assert!(m.look_for_match(b"sL5DdSMmkekro\n"));
}

#[test]
fn would_match_leaves_the_cursor_alone() {
    let mut m = MagicMatcher::new(&MAGIC);
    assert!(!m.look_for_match(b"sL5DdSM"));
    assert!(m.would_match(b"mkekro\n"));
    assert!(!m.would_match(b"x"));
    // The look ahead at `x` above did not end the partial match.
    assert!(m.look_for_match(b"mkekro\n"));
}

#[test]
fn short_pattern_is_matched_across_chunks() {
    let ab: &'static [u8] = b"ab";
    let mut m = MagicMatcher::new(ab);
    assert!(!m.look_for_match(b"a"));
    assert!(m.look_for_match(b"b"));
    assert!(!m.look_for_match(b"aab"));
    assert!(m.look_for_match(b"xxabxx"));
}
