mod triangle_winding;
pub use triangle_winding::{TriangleWinding, lemma_reverse_involution};
mod fan;
pub use fan::{Fan, Fans};
mod list;
pub use list::{List, flat_triangles, array_triangles};
mod fan_format;
pub use fan_format::{FanFormat, FanBuilder, reverse_winding};
pub mod formats;
mod list_format;
pub use list_format::{ListFormat, ListBuilder};
pub mod builders;
