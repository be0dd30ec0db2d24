mod vec_vec_indexed_fan_builder;
pub use vec_vec_indexed_fan_builder::VecVecIndexedFanBuilder;
mod vec_delimited_indexed_fan_builder;
pub use vec_delimited_indexed_fan_builder::{VecDelimitedIndexedFanBuilder, VecDelimitedIndexedError};
