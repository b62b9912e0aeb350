//! The status lines that the engine shows on the terminal, and numbers as
//! text.

use crate::sfl::loader::chunk_count;
use vstd::prelude::*;
use vstd::string::StringExecFns;

verus! {

/// The character for the decimal digit `d`.
pub open spec fn digit(d: nat) -> char {
    if d == 0 {
        '0'
    } else if d == 1 {
        '1'
    } else if d == 2 {
        '2'
    } else if d == 3 {
        '3'
    } else if d == 4 {
        '4'
    } else if d == 5 {
        '5'
    } else if d == 6 {
        '6'
    } else if d == 7 {
        '7'
    } else if d == 8 {
        '8'
    } else {
        '9'
    }
}

/// The decimal numeral of `n`, without leading zeros.
pub open spec fn decimal(n: nat) -> Seq<char>
    decreases n,
{
    if n < 10 {
        seq![digit(n)]
    } else {
        decimal(n / 10).push(digit(n % 10))
    }
}

fn digit_str(d: u64) -> (s: &'static str)
    requires
        d < 10,
    ensures
        s@ == seq![digit(d as nat)],
{
    proof {
        reveal_strlit("0");
        reveal_strlit("1");
        reveal_strlit("2");
        reveal_strlit("3");
        reveal_strlit("4");
        reveal_strlit("5");
        reveal_strlit("6");
        reveal_strlit("7");
        reveal_strlit("8");
        reveal_strlit("9");
    }
    let s = if d == 0 {
        "0"
    } else if d == 1 {
        "1"
    } else if d == 2 {
        "2"
    } else if d == 3 {
        "3"
    } else if d == 4 {
        "4"
    } else if d == 5 {
        "5"
    } else if d == 6 {
        "6"
    } else if d == 7 {
        "7"
    } else if d == 8 {
        "8"
    } else {
        "9"
    };
    assert(s@ =~= seq![digit(d as nat)]);
    s
}

/// The decimal numeral of `n`, without leading zeros.
pub fn decimal_string(n: u64) -> (s: String)
    ensures
        s@ == decimal(n as nat),
    decreases n,
{
    if n < 10 {
        String::from_str(digit_str(n))
    } else {
        let mut s = decimal_string(n / 10);
        s.append(digit_str(n % 10));
        assert(s@ =~= decimal(n as nat));
        s
    }
}

/// The character for the hexadecimal digit `d`, in lower case.
pub open spec fn hex_digit(d: nat) -> char {
    if d < 10 {
        digit(d)
    } else if d == 10 {
        'a'
    } else if d == 11 {
        'b'
    } else if d == 12 {
        'c'
    } else if d == 13 {
        'd'
    } else if d == 14 {
        'e'
    } else {
        'f'
    }
}

/// The last `digits` hexadecimal digits of `n`.
pub open spec fn hex_fixed(n: nat, digits: nat) -> Seq<char>
    decreases digits,
{
    if digits == 0 {
        Seq::empty()
    } else {
        hex_fixed(n / 16, (digits - 1) as nat).push(hex_digit(n % 16))
    }
}

/// An address as the setup dialog shows it: `0x` and the hexadecimal digits,
/// with zeros in front while there are fewer than six.
pub open spec fn hex_address(addr: u32) -> Seq<char> {
    "0x"@ + hex_fixed(
        addr as nat,
        if addr < 0x100_0000 {
            6
        } else if addr < 0x1000_0000 {
            7
        } else {
            8
        },
    )
}

fn hex_digit_str(d: u32) -> (s: &'static str)
    requires
        d < 16,
    ensures
        s@ == seq![hex_digit(d as nat)],
{
    if d < 10 {
        digit_str(d as u64)
    } else {
        proof {
            reveal_strlit("a");
            reveal_strlit("b");
            reveal_strlit("c");
            reveal_strlit("d");
            reveal_strlit("e");
            reveal_strlit("f");
        }
        let s = if d == 10 {
            "a"
        } else if d == 11 {
            "b"
        } else if d == 12 {
            "c"
        } else if d == 13 {
            "d"
        } else if d == 14 {
            "e"
        } else {
            "f"
        };
        assert(s@ =~= seq![hex_digit(d as nat)]);
        s
    }
}

fn push_hex_fixed(s: &mut String, n: u32, digits: u32)
    ensures
        final(s)@ == old(s)@ + hex_fixed(n as nat, digits as nat),
    decreases digits,
{
    if digits == 0 {
        assert(s@ =~= old(s)@ + hex_fixed(n as nat, 0));
    } else {
        push_hex_fixed(s, n / 16, digits - 1);
        s.append(hex_digit_str(n % 16));
        assert(s@ =~= old(s)@ + hex_fixed(n as nat, digits as nat));
    }
}

/// An address as the setup dialog shows it: `0x` and the hexadecimal digits,
/// with zeros in front while there are fewer than six.
pub fn hex_address_string(addr: u32) -> (s: String)
    ensures
        s@ == hex_address(addr),
{
    let digits: u32 = if addr < 0x100_0000 {
        6
    } else if addr < 0x1000_0000 {
        7
    } else {
        8
    };
    let mut s = String::from_str("0x");
    push_hex_fixed(&mut s, addr, digits);
    s
}

/// Calls `String::push`. Not proved: that it appends the character to the
/// end of the text and changes nothing else, as std documents.
#[verifier::external_body]
pub(crate) fn push_char(s: &mut String, c: char)
    ensures
        final(s)@ == old(s)@.push(c),
{
    s.push(c)
}

/// The line shown when a transfer starts.
pub open spec fn uploading_notice() -> Seq<char> {
    "\r\x1B[0;36m[TTXLiteX] Uploading File\x1B[0m\r\n"@
}

/// The line shown when a transfer starts.
pub fn uploading_notice_string() -> (s: String)
    ensures
        s@ == uploading_notice(),
{
    String::from_str("\r\x1B[0;36m[TTXLiteX] Uploading File\x1B[0m\r\n")
}

/// The line that replaces the target's reply once the chunk size is settled.
pub open spec fn packet_size_notice(chunk_size: u16) -> Seq<char> {
    "\x1B[0;36m[TTXLiteX] Using packet size: "@ + decimal(chunk_size as nat) + " \x1B[0m\r\n"@
}

/// The line that replaces the target's reply once the chunk size is settled.
pub fn packet_size_notice_string(chunk_size: u16) -> (s: String)
    ensures
        s@ == packet_size_notice(chunk_size),
{
    let mut s = String::from_str("\x1B[0;36m[TTXLiteX] Using packet size: ");
    let number = decimal_string(chunk_size as u64);
    s.append(number.as_str());
    s.append(" \x1B[0m\r\n");
    s
}

/// The width of the progress bar in characters.
pub const BAR_LENGTH: u64 = 40;

/// `count` copies of `c`.
pub open spec fn repeated(c: char, count: nat) -> Seq<char> {
    Seq::new(count, |i: int| c)
}

/// The progress bar with `used` of its cells filled: the filled cells, an
/// arrow unless the bar is full, and blanks up to the bar's width.
pub open spec fn bar(used: nat) -> Seq<char> {
    repeated('=', used) + (if used != 40 {
        seq!['>']
    } else {
        Seq::<char>::empty()
    }) + repeated(
        ' ',
        if used + 1 < 40 {
            (40 - (used + 1)) as nat
        } else {
            0
        },
    )
}

/// The progress line after `chunk_no` of `total` chunks were acknowledged.
pub open spec fn progress_line(chunk_no: nat, total: nat) -> Seq<char> {
    "\r\x1B[0;36m[TTXLiteX] |"@ + bar(40 * chunk_no / total) + "| "@ + decimal(chunk_no) + " / "@
        + decimal(total) + " chunks\x1B[0m"@
}

/// The progress line once frame `last_frame_acked` of a file of `file_size`
/// bytes was acknowledged at the given chunk size.
pub open spec fn status_bar_text(last_frame_acked: u32, file_size: u64, chunk_size: u16) -> Seq<
    char,
> {
    progress_line((last_frame_acked + 1) as nat, chunk_count(file_size as nat, chunk_size))
}

fn push_repeated(s: &mut String, cell: &'static str, c: char, count: u64)
    requires
        cell@ == seq![c],
    ensures
        final(s)@ == old(s)@ + repeated(c, count as nat),
{
    let mut i: u64 = 0;
    assert(s@ =~= old(s)@ + repeated(c, 0));
    while i < count
        invariant
            i <= count,
            cell@ == seq![c],
            s@ == old(s)@ + repeated(c, i as nat),
        decreases count - i,
    {
        s.append(cell);
        i += 1;
        assert(s@ =~= old(s)@ + repeated(c, i as nat));
    }
}

/// The progress line once frame `last_frame_acked` of a file of `file_size`
/// bytes was acknowledged at the given chunk size.
pub fn status_bar(last_frame_acked: u32, file_size: u64, chunk_size: u16) -> (s: String)
    requires
        file_size > 0,
        chunk_size > 0,
    ensures
        s@ == status_bar_text(last_frame_acked, file_size, chunk_size),
{
    let mut total = file_size / (chunk_size as u64);
    let rem = file_size % (chunk_size as u64);
    if rem != 0 {
        assert(total < u64::MAX) by (nonlinear_arith)
            requires
                total == file_size / (chunk_size as u64),
                file_size % (chunk_size as u64) != 0,
                chunk_size > 0,
                file_size <= u64::MAX,
        ;
        total += 1;
    }
    assert(total > 0) by (nonlinear_arith)
        requires
            total == chunk_count(file_size as nat, chunk_size),
            file_size > 0,
            chunk_size > 0,
    ;
    let chunk_no = last_frame_acked as u64 + 1;
    let used_part = (BAR_LENGTH * chunk_no) / total;

    let mut s = String::from_str("\r\x1B[0;36m[TTXLiteX] |");
    let ghost head = s@;
    proof {
        reveal_strlit("=");
        reveal_strlit(">");
        reveal_strlit(" ");
        assert("="@ =~= seq!['=']);
        assert(">"@ =~= seq!['>']);
        assert(" "@ =~= seq![' ']);
    }
    push_repeated(&mut s, "=", '=', used_part);
    // The arrow goes away once the bar is full.
    if used_part != BAR_LENGTH {
        s.append(">");
    }
    if used_part + 1 < BAR_LENGTH {
        push_repeated(&mut s, " ", ' ', BAR_LENGTH - (used_part + 1));
    } else {
        assert(s@ =~= s@ + repeated(' ', 0));
    }
    assert(s@ =~= head + bar(used_part as nat));
    s.append("| ");
    let done = decimal_string(chunk_no);
    s.append(done.as_str());
    s.append(" / ");
    let all = decimal_string(total);
    s.append(all.as_str());
    s.append(" chunks\x1B[0m");
    s
}

/// The number of bytes per second, rounded down, when `file_size` bytes took
/// `elapsed_micros` microseconds; the largest 64-bit value when no time has
/// passed or the quotient does not fit.
pub open spec fn transfer_rate(file_size: u64, elapsed_micros: u64) -> u64 {
    if elapsed_micros == 0 || file_size * 1_000_000 / (elapsed_micros as int) > u64::MAX {
        u64::MAX
    } else {
        (file_size * 1_000_000 / (elapsed_micros as int)) as u64
    }
}

/// The number of bytes per second, rounded down, when `file_size` bytes took
/// `elapsed_micros` microseconds; the largest 64-bit value when no time has
/// passed or the quotient does not fit.
pub fn transfer_rate_of(file_size: u64, elapsed_micros: u64) -> (rate: u64)
    ensures
        rate == transfer_rate(file_size, elapsed_micros),
{
    if elapsed_micros == 0 {
        return u64::MAX;
    }
    let scaled: u128 = file_size as u128 * 1_000_000;
    let quotient: u128 = scaled / (elapsed_micros as u128);
    if quotient > u64::MAX as u128 {
        u64::MAX
    } else {
        quotient as u64
    }
}

/// A number of bytes as a short text with a decimal unit, rounded to two
/// places, such as `187 KB` or `1.5 MB`.
pub uninterp spec fn pretty_rate(rate: u64) -> Seq<char>;

/// Calls `pretty_bytes_typed::pretty_bytes` with two rounding places and
/// takes the text that the result displays as. Not proved: anything about
/// that text. The crate computes it from the number alone, in floating
/// point, so equal numbers give equal texts.
#[verifier::external_body]
pub(crate) fn pretty_rate_string(rate: u64) -> (text: String)
    ensures
        text@ == pretty_rate(rate),
{
    pretty_bytes_typed::pretty_bytes(rate, Some(2)).to_string()
}

/// The line shown before the target's output once a transfer is complete;
/// `rate` is the text for the transfer rate.
pub open spec fn done_notice(rate: Seq<char>) -> Seq<char> {
    "\r\n\x1B[0;36m[TTXLiteX] Done! ("@ + rate + "/s)\x1B[0m\r\n\r\n"@
}

/// The line shown before the target's output once a transfer is complete;
/// `rate` is the text for the transfer rate.
pub fn done_notice_string(rate: &str) -> (s: String)
    ensures
        s@ == done_notice(rate@),
{
    let mut s = String::from_str("\r\n\x1B[0;36m[TTXLiteX] Done! (");
    s.append(rate);
    s.append("/s)\x1B[0m\r\n\r\n");
    s
}

} // verus!
