use triangulate::formats::IndexedFanFormat;
use triangulate::{Coords, PolygonList};

fn poly(points: &[[i32; 2]]) -> Vec<Coords> {
    points.iter().map(|p| Coords::new(p[0], p[1])).collect()
}

#[test]
#[should_panic]
fn incomplete_polygon() {
    let list = PolygonList::from_polygon(poly(&[[0, 0], [1, 1]]));
    list.triangulate(IndexedFanFormat::new(&mut Vec::<Vec<usize>>::new())).unwrap();
}

#[test]
#[should_panic]
fn overlapping_vertex() {
    // ___
    // \ /
    //  x
    // / \
    // ---
    let list = PolygonList::from_polygon(poly(&[[-1, 1], [1, 1], [0, 0], [1, -1], [-1, -1], [0, 0]]));
    list.triangulate(IndexedFanFormat::new(&mut Vec::<Vec<usize>>::new())).unwrap();
}

#[test]
#[should_panic]
fn overlapping_polygons() {
    // +------+
    // |    +---+
    // |    | | |
    // |    +---+
    // +------+
    // (the unit shapes scaled by 4)
    let polygon_a = poly(&[[0, 0], [0, 4], [4, 4], [4, 0]]);
    let polygon_b = poly(&[[3, 1], [3, 3], [5, 3], [5, 1]]);
    let list = PolygonList::from_polygons(&vec![polygon_a, polygon_b]);
    list.triangulate(IndexedFanFormat::new(&mut Vec::<Vec<usize>>::new())).unwrap();
}
