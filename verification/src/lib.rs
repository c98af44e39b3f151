//! Stack-frame resolution for a debugging host.
//!
//! Given a target's pointer width, the current stack and base pointer, and a
//! requested frame index, this library walks the chain of saved base pointers
//! to locate the frame, computes its byte extent, and decodes the raw values
//! the host reports along the way. All host interaction (the command channel
//! itself) stays outside: the library works on plain values handed in.

pub mod arch;
pub mod codec;
pub mod errors;
pub mod host_value;
pub mod index;
pub mod memory;
pub mod registers;
pub mod walker;
