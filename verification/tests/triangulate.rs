use triangulate::formats::{IndexedFanFormat, IndexedListFormat, into_fan_format};
use triangulate::{Coords, PolygonList, TrapezoidationError, TriangulationError};

fn poly(points: &[[i32; 2]]) -> Vec<Coords> {
    points.iter().map(|p| Coords::new(p[0], p[1])).collect()
}

/// A square polygon
fn square() -> Vec<Coords> {
    poly(&[[0, 0], [0, 1], [1, 1], [1, 0]])
}

/// A 4-pointed star polygon
fn star() -> Vec<Coords> {
    poly(&[[1, 0], [2, 2], [0, 1], [-2, 2], [-1, 0], [-2, -2], [0, -1], [2, -2]])
}

/// A concave half frame polygon (the unit shape scaled by 20)
fn half_frame() -> Vec<Coords> {
    poly(&[[0, 0], [1, 1], [19, 1], [19, 19], [20, 20], [20, 0]])
}

fn all() -> Vec<Vec<Coords>> {
    vec![square(), star(), half_frame()]
}

fn fan_triangle_count(fans: &[Vec<usize>]) -> usize {
    fans.iter().map(|f| f.len() - 2).sum()
}

#[test]
fn triangulate() {
    for polygon in all() {
        let list = PolygonList::from_polygon(polygon);
        list.triangulate(IndexedFanFormat::new(&mut Vec::<Vec<usize>>::new())).expect("Triangulation failed");
    }
}

#[test]
fn triangulate_hollow() {
    // The unit shapes scaled by 20
    let polygon = vec![
        poly(&[[0, 0], [0, 20], [20, 20], [20, 0]]),
        poly(&[[1, 1], [1, 19], [19, 19], [19, 1]]),
    ];
    let list = PolygonList::from_polygons(&polygon);
    list.triangulate(IndexedFanFormat::new(&mut Vec::<Vec<usize>>::new())).expect("Triangulation failed");
}

#[test]
fn regular_polygons() {
    for n in 3..=500usize {
        let mut p = Vec::new();
        for nn in 0..n {
            // The unit circle scaled to integer coordinates
            let scalar = 1_000_000.;
            let theta = std::f64::consts::PI * 2. * (nn as f64) / (n as f64);
            let (x, y) = theta.sin_cos();
            p.push(Coords::new((x * scalar).round() as i32, (y * scalar).round() as i32));
        }
        let list = PolygonList::from_polygon(p);
        let mut output = Vec::<usize>::new();
        let format = into_fan_format(IndexedListFormat::new(&mut output));
        list.triangulate(format).expect("Triangulation failed");
        std::hint::black_box(output);
    }
}

#[test]
fn triangle_counts() {
    // A simple polygon of n vertices has n - 2 triangles
    for polygon in all() {
        let n = polygon.len();
        let list = PolygonList::from_polygon(polygon);
        let mut output = Vec::<Vec<usize>>::new();
        let fans = list.triangulate(IndexedFanFormat::new(&mut output)).expect("Triangulation failed");
        assert_eq!(fan_triangle_count(fans), n - 2);
        // Every fan vertex is a vertex of the polygon
        assert!(fans.iter().all(|f| f.iter().all(|&vi| vi < n)));
    }
}

#[test]
fn hollow_triangle_count() {
    // A polygon of 4 vertices with a hole of 4 vertices has 8 triangles
    let polygon = vec![
        poly(&[[0, 0], [0, 20], [20, 20], [20, 0]]),
        poly(&[[1, 1], [1, 19], [19, 19], [19, 1]]),
    ];
    let list = PolygonList::from_polygons(&polygon);
    let mut output = Vec::<[usize; 3]>::new();
    let triangles = list.triangulate(into_fan_format(IndexedListFormat::new(&mut output))).expect("Triangulation failed");
    assert_eq!(triangles.len(), 8);
}

#[test]
fn regular_polygon_triangle_counts() {
    for n in [3usize, 4, 5, 10, 57, 100] {
        let mut p = Vec::new();
        for nn in 0..n {
            let theta = std::f64::consts::PI * 2. * (nn as f64) / (n as f64);
            let (x, y) = theta.sin_cos();
            p.push(Coords::new((x * 1_000_000.).round() as i32, (y * 1_000_000.).round() as i32));
        }
        let list = PolygonList::from_polygon(p);
        let mut output = Vec::<usize>::new();
        let flat = list.triangulate(into_fan_format(IndexedListFormat::new(&mut output))).expect("Triangulation failed");
        assert_eq!(flat.len(), 3 * (n - 2));
    }
}

#[test]
fn two_vertex_polygon_error() {
    let list = PolygonList::from_polygon(poly(&[[0, 0], [1, 1]]));
    match list.triangulate(IndexedFanFormat::new(&mut Vec::<Vec<usize>>::new())) {
        Err(TriangulationError::TrapezoidationError(TrapezoidationError::NotEnoughVertices(2))) => {},
        _ => panic!("expected NotEnoughVertices(2)"),
    }
}

#[test]
fn one_vertex_polygon_after_good_one() {
    let list = PolygonList::from_polygons(&vec![square(), poly(&[[5, 5]])]);
    match list.trapezoidize() {
        Err(TrapezoidationError::NotEnoughVertices(1)) => {},
        _ => panic!("expected NotEnoughVertices(1)"),
    }
}

#[test]
fn no_vertices() {
    let list = PolygonList::from_polygons(&Vec::new());
    match list.triangulate(IndexedFanFormat::new(&mut Vec::<Vec<usize>>::new())) {
        Err(TriangulationError::NoVertices) => {},
        _ => panic!("expected NoVertices"),
    }
}

#[test]
fn france_nonterminating() {
    // The coordinates are in millionths of a degree
    let polygon = poly(&[
        [-1189062, 45161475],
        [-691113, 45093457],
        [6724707, 44972998],
        [6992676, 44827295],
        [-1152881, 44764014],
        [-1245215, 44666699],
    ]);
    let list = PolygonList::from_polygon(polygon);
    let mut output = Vec::<usize>::new();
    let format = into_fan_format(IndexedListFormat::new(&mut output));
    list.triangulate(format).expect("Triangulation failed");
}

#[test]
fn no_vertices_leaves_output_untouched() {
    let list = PolygonList::from_polygons(&Vec::new());
    let mut out = vec![vec![7usize, 8, 9]];
    let r = list.triangulate(IndexedFanFormat::new(&mut out));
    assert!(matches!(r, Err(TriangulationError::NoVertices)));
    assert_eq!(out, vec![vec![7usize, 8, 9]]);
}
