//! A typed driver-binding layer for an I2C-style bus subsystem.
//!
//! The bus only understands flat identifier tables whose entries carry a single
//! integer of driver data, plus a pair of raw probe / remove callbacks. This
//! library builds such tables together with a side array of typed per-entry
//! information, resolves that information back from a matched entry, and moves
//! per-device driver state into the bus's client-data slot at probe and out
//! of it again at remove.
pub mod error;
pub mod id_table;
pub mod i2c;
