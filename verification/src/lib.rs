//! Browsing a catalog of synthesizer patches and switching an instrument
//! to one of them over MIDI.
//!
//! * [`catalog`] reads a tab-separated catalog into [`patch::Patch`]
//!   records; [`grammar`] says what a catalog line is, and [`rendering`]
//!   that a written catalog reads back unchanged.
//! * [`search`] finds the patches whose name or category holds a query,
//!   whatever the case of the letters.
//! * [`zone`] names the channels a switch addresses, [`wire`] encodes the
//!   messages, and [`switch`] decides, message by message, how a switch
//!   goes on. The library never writes to a device: the caller does, and
//!   reports back.
//! * [`history`] keeps the patches applied in a session.

pub mod catalog;
pub mod grammar;
pub mod history;
pub mod patch;
pub mod rendering;
pub mod search;
pub mod switch;
pub mod text;
pub mod wire;
pub mod zone;
