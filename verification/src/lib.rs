//! Debounce ("de-chatter") engine for key input devices.
//!
//! A worn mechanical switch can report a burst of spurious press/release
//! transitions for a single physical actuation. This library holds the
//! decision core of a filter for such chatter: a per-key-code timing state
//! machine that decides, for each observed event, whether to forward it or
//! drop it; the construction of the per-key timeout table from user-supplied
//! ranges; the parsing and matching of the configuration tokens; and the
//! ordering and filtering of candidate devices. All device I/O lives outside
//! this crate: the library works on plain values handed in by its caller.

pub mod cmd;
pub mod device_wrapper;
pub mod display;
pub mod key_filter;
pub mod key_state;
pub mod strings;
