//! Driver logic for a cellular modem spoken to with AT commands over a
//! serial link: line framing, response classification, single and retried
//! command execution, and the power-on initialization sequence.
//!
//! Every component is a state machine that takes the result of the last
//! transport operation and returns the next operation to perform, so the
//! whole protocol is verified with no I/O in the library:
//! - [`framer`]: `CR LF <text> CR LF` frames, one byte at a time;
//! - [`response`]: the classification of the lines that answer a command;
//! - [`executor`]: one attempt at one command (write, flush, read);
//! - [`retry`]: a command retried up to a fixed number of attempts;
//! - [`init`]: the wake probe and the fixed command sequence.
pub mod framer;
pub mod response;
pub mod executor;
pub mod retry;
pub mod init;
