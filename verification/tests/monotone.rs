use triangulate::{Coords, MonotoneBuilder, TriangleWinding};

fn chain(points: &[(usize, [i32; 2])]) -> MonotoneBuilder {
    let mut m = MonotoneBuilder::new(points[0].0, Coords::new(points[0].1[0], points[0].1[1]));
    for p in &points[1..] {
        m.add_vertex(p.0, Coords::new(p.1[0], p.1[1]));
    }
    m
}

fn triangle_count(fans: &[Vec<usize>]) -> usize {
    fans.iter().map(|f| f.len() - 2).sum()
}

#[test]
fn convex_chain_fans() {
    // A monotone pentagon: from the top vertex down one side to the bottom
    let m = chain(&[(0, [0, 10]), (1, [-3, 7]), (2, [-4, 3]), (3, [-1, 0]), (4, [3, 4])]);
    assert_eq!(m.len(), 5);
    let mono = m.build().expect("build failed").expect("degenerate chain");
    let (fans, ok) = mono.plan_fans(TriangleWinding::Counterclockwise);
    assert!(ok);
    assert_eq!(triangle_count(&fans), 3);
    assert!(fans.iter().all(|f| f.len() >= 3 && f.iter().all(|&vi| vi < 5)));
}

#[test]
fn winding_reverses_fans() {
    let points = [(0, [0, 10]), (1, [-3, 7]), (2, [-4, 3]), (3, [-1, 0]), (4, [3, 4])];
    let (ccw, _) = chain(&points).build().unwrap().unwrap().plan_fans(TriangleWinding::Counterclockwise);
    let (cw, _) = chain(&points).build().unwrap().unwrap().plan_fans(TriangleWinding::Clockwise);
    assert_ne!(ccw, cw);
    assert_eq!(triangle_count(&ccw), triangle_count(&cw));
}

#[test]
fn short_chain_is_an_error() {
    let m = chain(&[(0, [0, 1]), (1, [0, 0])]);
    assert!(m.build().is_err());
}

#[test]
fn collinear_chain_needs_no_triangles() {
    // Every vertex shares the x coordinate: nothing to triangulate
    let m = chain(&[(0, [2, 5]), (1, [2, 3]), (2, [2, 0])]);
    assert!(m.build().expect("build failed").is_none());
}
