//! Pre-tokenization: cutting text into the pieces that the model stage encodes.

pub mod case_runs;
pub mod chunks;
pub mod class_laws;
pub mod decode;
pub mod fast_split;
pub mod fast_split_o200k;
pub mod laws;
pub mod match_laws;
pub mod regex;
pub mod runs;
pub mod scheme;
pub mod swar;
pub mod syntax;
pub mod tables;
pub mod unicode;

pub use self::scheme::FastSplitScheme;
