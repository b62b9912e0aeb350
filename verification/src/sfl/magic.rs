//! Incremental matcher for the handshake sequence.
//!
//! The matcher is a prefix automaton over one fixed pattern: the cursor counts
//! how many leading bytes of the pattern the most recent input has matched.
//! A byte that does not continue the match sends the cursor back to zero
//! without being looked at again, so the automaton is not a general substring
//! search; what it recognises is stated by [`scan_cursor`] and [`scan_found`].

use vstd::prelude::*;

verus! {

/// The handshake request sent by the target: `sL5DdSMmkekro\n`.
pub const MAGIC: [u8; 14] = [
    0x73, 0x4c, 0x35, 0x44, 0x64, 0x53, 0x4d, 0x6d, 0x6b, 0x65, 0x6b, 0x72, 0x6f, 0x0a,
];

/// The handshake acknowledgment sent back to the target: `z6IHG7cYDID6o\n`.
pub const MAGIC_RESPONSE: [u8; 14] = [
    0x7a, 0x36, 0x49, 0x48, 0x47, 0x37, 0x63, 0x59, 0x44, 0x49, 0x44, 0x36, 0x6f, 0x0a,
];

/// A cursor is valid for a pattern when it points at a byte of the pattern
/// that is still to be matched; for the empty pattern only zero is valid.
pub open spec fn cursor_ok(magic: Seq<u8>, cursor: nat) -> bool {
    if magic.len() == 0 {
        cursor == 0
    } else {
        cursor < magic.len()
    }
}

/// The cursor after the automaton has read the byte `b` at `cursor`.
pub open spec fn step_cursor(magic: Seq<u8>, cursor: nat, b: u8) -> nat {
    if b == magic[cursor as int] && cursor + 1 < magic.len() {
        cursor + 1
    } else {
        0
    }
}

/// Whether reading the byte `b` at `cursor` completes the pattern.
pub open spec fn step_completes(magic: Seq<u8>, cursor: nat, b: u8) -> bool {
    b == magic[cursor as int] && cursor + 1 >= magic.len()
}

/// The cursor after the automaton, started at `cursor`, has read all of `input`.
pub open spec fn scan_cursor(magic: Seq<u8>, cursor: nat, input: Seq<u8>) -> nat
    decreases input.len(),
{
    if input.len() == 0 {
        cursor
    } else {
        step_cursor(magic, scan_cursor(magic, cursor, input.drop_last()), input.last())
    }
}

/// Whether some byte of `input` completes the pattern when the automaton
/// reads `input` starting at `cursor`.
pub open spec fn scan_found(magic: Seq<u8>, cursor: nat, input: Seq<u8>) -> bool {
    exists|i: int|
        0 <= i < input.len() && #[trigger] step_completes(
            magic,
            scan_cursor(magic, cursor, input.take(i)),
            input[i],
        )
}

/// Whether a matcher for `magic` at `cursor` reports a match when it is fed
/// `chunk`. The empty pattern is matched by every chunk.
pub open spec fn reports(magic: Seq<u8>, cursor: nat, chunk: Seq<u8>) -> bool {
    magic.len() == 0 || scan_found(magic, cursor, chunk)
}

/// The cursor of a matcher for `magic` at `cursor` after it was fed `chunk`.
pub open spec fn cursor_after(magic: Seq<u8>, cursor: nat, chunk: Seq<u8>) -> nat {
    if magic.len() == 0 {
        cursor
    } else {
        scan_cursor(magic, cursor, chunk)
    }
}

/// Runs the automaton for the non-empty pattern `magic` over `chunk`.
fn scan(magic: &[u8], state: usize, chunk: &[u8]) -> (r: (usize, bool))
    requires
        magic@.len() > 0,
        state < magic@.len(),
    ensures
        r.0 < magic@.len(),
        r.0 == scan_cursor(magic@, state as nat, chunk@),
        r.1 == scan_found(magic@, state as nat, chunk@),
{
    let mut state = state;
    let ghost start = state as nat;
    let mut found = false;
    let mut i: usize = 0;
    assert(chunk@.take(0) =~= Seq::<u8>::empty());
    while i < chunk.len()
        invariant
            i <= chunk.len(),
            magic@.len() > 0,
            state < magic@.len(),
            state == scan_cursor(magic@, start, chunk@.take(i as int)),
            found == scan_found(magic@, start, chunk@.take(i as int)),
        decreases chunk.len() - i,
    {
        let ghost before = chunk@.take(i as int);
        let ghost after = chunk@.take(i + 1);
        let b = chunk[i];
        proof {
            assert(after.drop_last() =~= before);
            assert(after.last() == b);
            lemma_scan_found_push(magic@, start, before, b);
            assert(before.push(b) =~= after);
        }
        if b == magic[state] {
            if state + 1 >= magic.len() {
                found = true;
                state = 0;
            } else {
                state += 1;
            }
        } else {
            state = 0;
        }
        i += 1;
    }
    assert(chunk@.take(chunk.len() as int) =~= chunk@);
    (state, found)
}

/// The matcher for one fixed pattern, with its cursor.
#[derive(Debug)]
pub struct MagicMatcher {
    magic: &'static [u8],
    state: usize,
}

impl MagicMatcher {
    /// The pattern this matcher looks for.
    pub closed spec fn magic(&self) -> Seq<u8> {
        self.magic@
    }

    /// How many leading bytes of the pattern are currently matched.
    pub closed spec fn cursor(&self) -> nat {
        self.state as nat
    }

    /// The cursor is valid for the pattern.
    pub open spec fn wf(&self) -> bool {
        cursor_ok(self.magic(), self.cursor())
    }

    /// A matcher for `magic` with nothing matched yet.
    pub fn new(magic: &'static [u8]) -> (m: MagicMatcher)
        ensures
            m.wf(),
            m.magic() == magic@,
            m.cursor() == 0,
    {
        MagicMatcher { magic, state: 0 }
    }

    /// Feeds `chunk` to the automaton and reports whether the pattern was
    /// completed by one of its bytes. The cursor carries over to the next
    /// call, so the pattern may arrive split over any number of chunks. A
    /// completed match sends the cursor back to zero before the rest of the
    /// chunk is read. With an empty pattern every call reports a match.
    pub fn look_for_match(&mut self, chunk: &[u8]) -> (found: bool)
        requires
            old(self).wf(),
        ensures
            final(self).wf(),
            final(self).magic() == old(self).magic(),
            final(self).cursor() == cursor_after(old(self).magic(), old(self).cursor(), chunk@),
            found == reports(old(self).magic(), old(self).cursor(), chunk@),
    {
        if self.magic.len() == 0 {
            return true;
        }
        let (state, found) = scan(self.magic, self.state, chunk);
        self.state = state;
        found
    }

    /// Whether feeding `chunk` would report a match; the cursor stays where
    /// it is.
    pub fn would_match(&self, chunk: &[u8]) -> (found: bool)
        requires
            self.wf(),
        ensures
            found == reports(self.magic(), self.cursor(), chunk@),
    {
        if self.magic.len() == 0 {
            return true;
        }
        let (_, found) = scan(self.magic, self.state, chunk);
        found
    }

    /// Forgets any partial match.
    pub fn reset(&mut self)
        ensures
            final(self).wf(),
            final(self).magic() == old(self).magic(),
            final(self).cursor() == 0,
    {
        self.state = 0;
    }
}

/// Reading one more byte completes the pattern either in what was read before
/// or at the new byte.
proof fn lemma_scan_found_push(magic: Seq<u8>, cursor: nat, input: Seq<u8>, b: u8)
    ensures
        scan_found(magic, cursor, input.push(b)) == (scan_found(magic, cursor, input)
            || step_completes(magic, scan_cursor(magic, cursor, input), b)),
{
    let longer = input.push(b);
    assert(longer.take(input.len() as int) =~= input);
    assert forall|i: int| 0 <= i < input.len() implies longer.take(i) == input.take(i)
        && longer[i] == input[i] by {
        assert(longer.take(i) =~= input.take(i));
    }
    if scan_found(magic, cursor, input) {
        let i = choose|i: int|
            0 <= i < input.len() && #[trigger] step_completes(
                magic,
                scan_cursor(magic, cursor, input.take(i)),
                input[i],
            );
        assert(step_completes(magic, scan_cursor(magic, cursor, longer.take(i)), longer[i]));
    }
    if step_completes(magic, scan_cursor(magic, cursor, input), b) {
        let i = input.len() as int;
        assert(step_completes(magic, scan_cursor(magic, cursor, longer.take(i)), longer[i]));
    }
}

/// The chunks joined in their order.
pub open spec fn joined(chunks: Seq<Seq<u8>>) -> Seq<u8>
    decreases chunks.len(),
{
    if chunks.len() == 0 {
        Seq::empty()
    } else {
        joined(chunks.drop_last()) + chunks.last()
    }
}

/// The cursor before chunk `i`, when a matcher with nothing matched is fed
/// the chunks in their order.
pub open spec fn cursor_before(magic: Seq<u8>, chunks: Seq<Seq<u8>>, i: nat) -> nat
    decreases i,
{
    if i == 0 {
        0
    } else {
        cursor_after(magic, cursor_before(magic, chunks, (i - 1) as nat), chunks[i - 1])
    }
}

/// Whether the matcher reports a match on chunk `i`, when it starts with
/// nothing matched and is fed the chunks in their order.
pub open spec fn reported_at(magic: Seq<u8>, chunks: Seq<Seq<u8>>, i: nat) -> bool {
    reports(magic, cursor_before(magic, chunks, i), chunks[i as int])
}

/// A matcher that has matched the first `a` bytes of the pattern and reads
/// the pattern on from there up to its byte `b` has matched `b` bytes, and
/// completes the pattern exactly if it reads the last byte.
proof fn lemma_scan_pattern(magic: Seq<u8>, a: nat, b: nat)
    requires
        a <= b <= magic.len(),
        a < magic.len(),
    ensures
        scan_cursor(magic, a, magic.subrange(a as int, b as int)) == (if b == magic.len() {
            0
        } else {
            b
        }),
        scan_found(magic, a, magic.subrange(a as int, b as int)) == (a < b && b == magic.len()),
    decreases b - a,
{
    let input = magic.subrange(a as int, b as int);
    if a < b {
        let shorter = magic.subrange(a as int, b - 1);
        lemma_scan_pattern(magic, a, (b - 1) as nat);
        assert(input.drop_last() =~= shorter);
        assert(input.last() == magic[b - 1]);
        lemma_scan_found_push(magic, a, shorter, magic[b - 1]);
        assert(shorter.push(magic[b - 1]) =~= input);
    }
}

/// Joining one chunk more appends that chunk.
proof fn lemma_joined_take(chunks: Seq<Seq<u8>>, i: int)
    requires
        0 <= i < chunks.len(),
    ensures
        joined(chunks.take(i + 1)) == joined(chunks.take(i)) + chunks[i],
{
    assert(chunks.take(i + 1).drop_last() =~= chunks.take(i));
}

/// The first `i` chunks joined are the start of all chunks joined.
proof fn lemma_joined_prefix(chunks: Seq<Seq<u8>>, i: int)
    requires
        0 <= i <= chunks.len(),
    ensures
        joined(chunks.take(i)).len() <= joined(chunks).len(),
        joined(chunks.take(i)) == joined(chunks).take(joined(chunks.take(i)).len() as int),
    decreases chunks.len() - i,
{
    if i == chunks.len() {
        assert(chunks.take(i) =~= chunks);
        assert(joined(chunks).take(joined(chunks).len() as int) =~= joined(chunks));
    } else {
        lemma_joined_prefix(chunks, i + 1);
        lemma_joined_take(chunks, i);
        let longer = joined(chunks.take(i + 1));
        let shorter = joined(chunks.take(i));
        assert(shorter =~= longer.take(shorter.len() as int));
        assert(shorter =~= joined(chunks).take(shorter.len() as int));
    }
}

/// When the chunks joined are the pattern, the cursor before a chunk is the
/// number of bytes in the chunks before it, or zero once the pattern is
/// complete.
proof fn lemma_cursor_before_split(magic: Seq<u8>, chunks: Seq<Seq<u8>>, i: nat)
    requires
        magic.len() > 0,
        joined(chunks) == magic,
        i <= chunks.len(),
    ensures
        joined(chunks.take(i as int)).len() <= magic.len(),
        cursor_before(magic, chunks, i) == (if joined(chunks.take(i as int)).len()
            == magic.len() {
            0
        } else {
            joined(chunks.take(i as int)).len()
        }),
    decreases i,
{
    lemma_joined_prefix(chunks, i as int);
    if i == 0 {
        assert(chunks.take(0) =~= Seq::<Seq<u8>>::empty());
    } else {
        let j = (i - 1) as nat;
        lemma_cursor_before_split(magic, chunks, j);
        lemma_chunk_of_split(magic, chunks, j);
        let a = joined(chunks.take(j as int)).len();
        let b = joined(chunks.take(i as int)).len();
        if a < magic.len() {
            lemma_scan_pattern(magic, a, b);
        } else {
            assert(chunks[j as int] =~= Seq::<u8>::empty());
        }
    }
}

/// When the chunks joined are the pattern, each chunk is the part of the
/// pattern between the lengths of what comes before it and with it.
proof fn lemma_chunk_of_split(magic: Seq<u8>, chunks: Seq<Seq<u8>>, i: nat)
    requires
        joined(chunks) == magic,
        i < chunks.len(),
    ensures
        joined(chunks.take(i as int)).len() <= joined(chunks.take((i + 1) as int)).len(),
        joined(chunks.take((i + 1) as int)).len() <= magic.len(),
        chunks[i as int] == magic.subrange(
            joined(chunks.take(i as int)).len() as int,
            joined(chunks.take((i + 1) as int)).len() as int,
        ),
{
    lemma_joined_prefix(chunks, i as int);
    lemma_joined_prefix(chunks, (i + 1) as int);
    lemma_joined_take(chunks, i as int);
    let before = joined(chunks.take(i as int));
    let with = joined(chunks.take((i + 1) as int));
    let a = before.len();
    let b = with.len();
    assert(with == before + chunks[i as int]);
    assert(chunks[i as int] =~= with.subrange(a as int, b as int));
    assert(with.subrange(a as int, b as int) =~= magic.subrange(a as int, b as int));
}

/// However the pattern is split into chunks, a matcher that starts with
/// nothing matched reports a match on exactly one of them: the chunk that
/// holds the pattern's last byte.
pub proof fn lemma_split_magic_reported_once(magic: Seq<u8>, chunks: Seq<Seq<u8>>, i: nat)
    requires
        magic.len() > 0,
        joined(chunks) == magic,
        i < chunks.len(),
    ensures
        reported_at(magic, chunks, i) <==> joined(chunks.take(i as int)).len() < magic.len()
            && joined(chunks.take((i + 1) as int)).len() == magic.len(),
{
    lemma_cursor_before_split(magic, chunks, i);
    lemma_chunk_of_split(magic, chunks, i);
    let a = joined(chunks.take(i as int)).len();
    let b = joined(chunks.take((i + 1) as int)).len();
    if a < magic.len() {
        lemma_scan_pattern(magic, a, b);
    } else {
        assert(chunks[i as int] =~= Seq::<u8>::empty());
    }
}

/// A cursor inside the pattern stays inside it, whatever is read.
pub proof fn lemma_scan_cursor_inside(magic: Seq<u8>, cursor: nat, input: Seq<u8>)
    requires
        cursor < magic.len(),
    ensures
        scan_cursor(magic, cursor, input) < magic.len(),
    decreases input.len(),
{
    if input.len() > 0 {
        lemma_scan_cursor_inside(magic, cursor, input.drop_last());
    }
}

/// Reading `first` and then `second` is reading them joined.
pub proof fn lemma_scan_concat(magic: Seq<u8>, cursor: nat, first: Seq<u8>, second: Seq<u8>)
    ensures
        scan_cursor(magic, cursor, first + second) == scan_cursor(
            magic,
            scan_cursor(magic, cursor, first),
            second,
        ),
        scan_found(magic, cursor, first + second) == (scan_found(magic, cursor, first)
            || scan_found(magic, scan_cursor(magic, cursor, first), second)),
    decreases second.len(),
{
    if second.len() == 0 {
        assert(first + second =~= first);
    } else {
        let shorter = second.drop_last();
        lemma_scan_concat(magic, cursor, first, shorter);
        assert((first + second).drop_last() =~= first + shorter);
        assert((first + shorter).push(second.last()) =~= first + second);
        assert(shorter.push(second.last()) =~= second);
        lemma_scan_found_push(magic, cursor, first + shorter, second.last());
        lemma_scan_found_push(magic, scan_cursor(magic, cursor, first), shorter, second.last());
    }
}

/// What the cursor says of the input read so far: from a start with nothing
/// matched, the last `cursor` bytes of the input are the first `cursor`
/// bytes of the pattern, and the cursor stays inside the pattern.
pub proof fn lemma_cursor_is_matched_suffix(magic: Seq<u8>, input: Seq<u8>)
    requires
        magic.len() > 0,
    ensures
        scan_cursor(magic, 0, input) < magic.len(),
        scan_cursor(magic, 0, input) <= input.len(),
        input.skip(input.len() - scan_cursor(magic, 0, input)) == magic.take(
            scan_cursor(magic, 0, input) as int,
        ),
    decreases input.len(),
{
    let cursor = scan_cursor(magic, 0, input);
    if input.len() > 0 {
        let shorter = input.drop_last();
        let before = scan_cursor(magic, 0, shorter);
        lemma_cursor_is_matched_suffix(magic, shorter);
        if cursor > 0 {
            assert(cursor == before + 1);
            assert(input.skip(input.len() - cursor) =~= shorter.skip(shorter.len() - before).push(
                input.last(),
            ));
            assert(magic.take(cursor as int) =~= magic.take(before as int).push(
                magic[before as int],
            ));
        }
    }
    if cursor == 0 {
        assert(input.skip(input.len() - cursor) =~= magic.take(cursor as int));
    }
}

/// A reported match is an occurrence of the pattern: when a matcher that
/// starts with nothing matched completes the pattern somewhere in the input,
/// the pattern stands in the input as one run of bytes.
pub proof fn lemma_match_is_occurrence(magic: Seq<u8>, input: Seq<u8>)
    requires
        magic.len() > 0,
        scan_found(magic, 0, input),
    ensures
        exists|at: int|
            0 <= at && at + magic.len() <= input.len() && #[trigger] input.subrange(
                at,
                at + magic.len(),
            ) == magic,
{
    let end = choose|i: int|
        0 <= i < input.len() && #[trigger] step_completes(
            magic,
            scan_cursor(magic, 0, input.take(i)),
            input[i],
        );
    let read = input.take(end);
    let cursor = scan_cursor(magic, 0, read);
    lemma_cursor_is_matched_suffix(magic, read);
    let at = end - cursor;
    assert(input.subrange(at, at + magic.len()) =~= read.skip(read.len() - cursor).push(
        input[end],
    ));
    assert(magic =~= magic.take(cursor as int).push(magic[cursor as int]));
}

} // verus!
