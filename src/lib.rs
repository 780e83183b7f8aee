//! A relay library for the GhostNet overlay protocol: the chunk codec, the
//! streaming frame parser, the player registry, the chat id counter, the
//! latest-value slot used for position updates, and the per-session relay
//! decisions. Alongside lives the dialog map with the indentation handling of
//! its entries.
pub mod codec;
pub mod dialog;
pub mod frame;
pub mod latest;
pub mod registry;
pub mod session;
