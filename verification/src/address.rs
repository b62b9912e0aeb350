//! The load address as the operator types it.

use crate::error::{Error, ErrorView};
use vstd::prelude::*;
use vstd::string::StrSliceExecFns;

verus! {

/// The number that a text without a minus sign stands for, if it stands for
/// one that fits in 32 bits: decimal digits, or hexadecimal, octal or binary
/// digits behind `0x`, `0o` or `0b`, with underscores between digits and
/// white space around the whole allowed.
pub uninterp spec fn parsed_u32(text: Seq<char>) -> Option<u32>;

/// Calls `parse_int::parse::<u32>` and keeps the number or that there is
/// none. Not proved: which number the crate reads out of the text. A text
/// with a minus sign is kept away from it, because for an unsigned type the
/// crate negates by an overflowing subtraction.
#[verifier::external_body]
fn parse_u32(text: &str) -> (number: Option<u32>)
    requires
        !text@.contains('-'),
    ensures
        number == parsed_u32(text@),
{
    parse_int::parse::<u32>(text).ok()
}

/// The address that `text` stands for: none where it holds a minus sign.
pub open spec fn address_of(text: Seq<char>) -> Option<u32> {
    if text.contains('-') {
        None
    } else {
        parsed_u32(text)
    }
}

/// Whether `text` holds a minus sign.
pub fn has_minus(text: &str) -> (found: bool)
    ensures
        found == text@.contains('-'),
{
    let n = text.unicode_len();
    let mut i: usize = 0;
    while i < n
        invariant
            i <= n,
            n == text@.len(),
            forall|k: int| 0 <= k < i ==> text@[k] != '-',
        decreases n - i,
    {
        if text.get_char(i) == '-' {
            return true;
        }
        i += 1;
    }
    false
}

/// The address that was read out of `text`, or the error that says that
/// `text` is no address.
pub fn address_or_error(text: String, number: Option<u32>) -> (r: Result<u32, Error>)
    ensures
        match number {
            Some(addr) => r == Ok::<u32, Error>(addr),
            None => r is Err && r->Err_0@ == ErrorView::BadAddressError(text@),
        },
{
    match number {
        Some(addr) => Ok(addr),
        None => Err(Error::BadAddressError(text)),
    }
}

/// Reads the load address out of what the operator typed.
pub fn parse_boot_address(text: String) -> (r: Result<u32, Error>)
    ensures
        match address_of(text@) {
            Some(addr) => r == Ok::<u32, Error>(addr),
            None => r is Err && r->Err_0@ == ErrorView::BadAddressError(text@),
        },
{
    let number = if has_minus(text.as_str()) {
        None
    } else {
        parse_u32(text.as_str())
    };
    address_or_error(text, number)
}

} // verus!
