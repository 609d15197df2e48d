//! Decoding of the class section of a DEX file: the fixed-width class
//! definitions, the variable-length class data behind them, and the linking
//! of both into a `Class`.

pub mod access_flags;
pub mod class;
pub mod class_data;
pub mod class_def;
pub mod encoded_item;
pub mod error;
pub mod leb128;
pub mod source;
