//! Racing retry-wrapped operations for the first success: the retry policy, the
//! bookkeeping of a race and the answer drawn from it, as decisions that an
//! asynchronous driver follows.

pub mod race;
pub mod retry;
pub mod solution;
pub mod statement;
