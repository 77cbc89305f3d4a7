//! Binary (RabitQ) quantization.
pub mod calculator;
pub mod codes;
pub mod search;
pub mod storage;
pub mod table;

pub use storage::RQRotationType;
