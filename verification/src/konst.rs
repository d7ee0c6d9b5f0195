//! Fixed topic-name suffixes.  The full topic of every message is the
//! configured subscribe prefix, a slash, and one of these suffixes.

use vstd::prelude::*;

verus! {

/// Suffix of the topic carrying the pressed-color buffer.
pub const KEYPAD_COLOR_PRESSED_TOPIC: &'static str = "keypad/color/pressed";

/// Suffix of the topic carrying the released-color buffer.
pub const KEYPAD_COLOR_RELEASED_TOPIC: &'static str = "keypad/color/released";

/// Suffix of the topic carrying inbound physical key events.
pub const KEYPAD_EVENT_TOPIC: &'static str = "keypad/event";

} // verus!
