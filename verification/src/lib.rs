//! Subdivides a set of non-self-intersecting polygons into non-overlapping
//! triangles: the polygon edges are inserted in random order into a
//! trapezoidation of the plane, the trapezoids are walked into monotone
//! pieces, and each piece is cut into triangle fans that an output format
//! collects. Positions are exact integer coordinates.
mod idx;
mod errors;
mod inputs;
mod math;
mod outputs;
mod fan_builder_state;
mod chain;
mod fan_geometry;
mod monotone;
mod segment;
mod nexus;
mod trapezoid;
mod querynode;
mod trapezoidation;

pub use idx::{Idx, SliceIndexIter, VecExt, SliceExt, wrap_next, wrap_prev, lemma_wrap_inverse};
pub use errors::{InternalError, TrapezoidationError, TriangulationError};
pub use inputs::{Coords, coords_lt, lemma_coords_order, PolygonElement, PolygonVertex, PolygonList, polygon_run, flatten_vertices, nested_elements, elements_within, lemma_flatten_prefix_len, run_sizes, polygon_sizes, run_vertices, polygon_runs, run_neighbours, is_polygon_edge, total, nonempty_lens, lemma_single_polygon_sizes, lemma_nested_sizes, lemma_polygon_breaks};
pub use math::{left_of_line, is_left_of_line};
pub use outputs::{TriangleWinding, lemma_reverse_involution, Fan, Fans, List, flat_triangles, array_triangles, FanFormat, FanBuilder, reverse_winding, ListFormat, ListBuilder};
pub use outputs::{formats, builders};
pub use fan_builder_state::{BuilderPhase, FanBuilderState, FormatError};
pub use math::{math_n, log2_floor, log2_iter, iterated_log_quotient, lemma_log2_floor_le};
pub use monotone::{MonotoneBuilder, Monotone, MonotoneSlots};
pub use fan_geometry::{orientation, fan_triangle_orientation, wound_as, fan_wound_as, reordered_clockwise, rooted_fan, swapped_fan, distinct_heights, fan_of, fan_oriented, lemma_orientation_symmetry};
pub use nexus::{Nexus, Divider, DividerDirection, FinalNexusType};
pub use segment::Segment;
pub use trapezoid::Trapezoid;
pub use querynode::{QueryNode, QueryNodeBranch};
pub use idx::{NexusIdx, SegmentIdx, TrapezoidIdx, QueryIdx};
pub use trapezoidation::{Trapezoidation, TrapezoidationState};
