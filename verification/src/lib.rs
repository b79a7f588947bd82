//! Secret storage for a hardware password manager.
//!
//! The device keeps up to 128 name/password entries, answers a host's
//! commands over a request/response channel, asks its owner before it
//! discloses or changes anything, and moves entries to and from a backup,
//! sealed under a key that only the device can derive.
//!
//! - [`password`]: fixed-capacity byte strings and the entries made of them.
//! - [`store`]: the bounded store of entries.
//! - [`generator`]: passwords out of letters and digits, picked by random draws.
//! - [`cipher`]: the block cipher, taken from the `aes` crate.
//! - [`buffer`]: the codec's working buffer, a `heapless::Vec`.
//! - [`codec`]: backup records, sealed by chained-block encryption and a tag.
//! - [`protocol`]: commands, replies and prompts, and the rule of the rounds.
//! - [`dispatcher`]: the device's side of the protocol, running that rule.
//! - [`laws`]: what holds of store and protocol whatever the commands are.
//! - [`bytes`]: copying and comparing bytes, numbers highest byte first.
//!
//! The library decides; it neither waits nor sends. Its caller owns the
//! transport, the display, the random source and the non-volatile memory,
//! and hands over plain values: command buffers, the owner's answers, random
//! draws, and the store.

pub mod buffer;
pub mod bytes;
pub mod cipher;
pub mod codec;
pub mod dispatcher;
pub mod generator;
pub mod laws;
pub mod password;
pub mod protocol;
pub mod store;
