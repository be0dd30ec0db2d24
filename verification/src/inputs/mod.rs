mod vertex;
pub use vertex::{Coords, coords_lt, lemma_coords_order};
mod polygon_list;
pub use polygon_list::{
    PolygonElement,
    PolygonVertex,
    PolygonList,
    polygon_run,
    flatten_vertices,
    nested_elements,
    elements_within,
    lemma_flatten_prefix_len,
    run_sizes,
    polygon_sizes,
    run_vertices,
    polygon_runs,
    run_neighbours,
    is_polygon_edge,
    total,
    nonempty_lens,
    lemma_single_polygon_sizes,
    lemma_nested_sizes,
    lemma_polygon_breaks,
};
