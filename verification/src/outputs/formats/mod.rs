//! Predefined implementations of [FanFormat](crate::FanFormat) and [FanBuilder](crate::FanBuilder)
mod reverse_fan;
pub use reverse_fan::{ReverseFanFormat, ReverseFanBuilder};
mod generic_fans;
pub use generic_fans::GenericFans;
mod generic_list;
pub use generic_list::GenericList;
mod indexed_fan;
pub use indexed_fan::{IndexedFanFormat, IndexedFanBuilder};
mod indexed_list;
pub use indexed_list::{IndexedListFormat, IndexedListBuilder};
mod fan_to_list;
pub use fan_to_list::{FanToListFormat, FanToListBuilder, into_fan_format};
mod delimited_fan;
pub use delimited_fan::{DelimitedFanFormat, DelimitedFanBuilder, DelimitedFanError};
mod deindexed_fan;
pub use deindexed_fan::{DeindexedFanFormat, DeindexedFanBuilder, DeindexError, lookup_vertex};
mod deindexed_list;
pub use deindexed_list::{DeindexedListFormat, DeindexedListBuilder};
