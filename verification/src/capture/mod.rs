//! What the capture sources hand to the index: clipboard text and pages that
//! the browser extension sends over the WebSocket.

pub mod clipboard;
pub mod websocket;

use vstd::prelude::*;
use vstd::string::StringSliceAdditionalSpecFns;

use crate::text::{str_trim, trimmed};

verus! {

/// Fewest bytes of trimmed text that are worth indexing.
pub const MIN_CAPTURE_BYTES: usize = 10;

/// Captured text is indexed when, without leading and trailing white space,
/// its UTF-8 form holds at least ten bytes.
pub fn should_capture(text: &str) -> (res: bool)
    ensures
        res == (vstd::utf8::encode_utf8(trimmed(text@)).len() as usize >= MIN_CAPTURE_BYTES),
{
    str_trim(text).len() >= MIN_CAPTURE_BYTES
}

} // verus!
