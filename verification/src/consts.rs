use vstd::prelude::*;

verus! {

/// Columns the camera moves per horizontal key press.
pub const CAM_SPEED_X: i64 = 4;

/// Rows the camera moves per vertical key press.
pub const CAM_SPEED_Y: i64 = 2;

/// Confessions one fingerprint may post per day.
pub const DAILY_POST_LIMIT: i64 = 10;

/// Longest reply author name, in bytes.
pub const MAX_REPLY_NAME_LENGTH: usize = 20;

} // verus!
