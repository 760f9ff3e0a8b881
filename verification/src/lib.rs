//! A personal time-tracking library: punch-card record state machine,
//! interval bucketing, and duration rounding, with machine-checked contracts.

pub mod bucket;
pub mod card;
pub mod err;
pub mod files;
pub mod format;
pub mod record;
pub mod round;
pub mod seqs;
pub mod text;
pub mod time;
