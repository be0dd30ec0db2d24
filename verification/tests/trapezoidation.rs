use triangulate::formats::IndexedFanFormat;
use triangulate::{Coords, PolygonElement, PolygonList, QueryNode, TrapezoidationState};

fn poly(points: &[[i32; 2]]) -> Vec<Coords> {
    points.iter().map(|p| Coords::new(p[0], p[1])).collect()
}

fn samples() -> Vec<Vec<Vec<Coords>>> {
    vec![
        vec![poly(&[[0, 0], [0, 1], [1, 1], [1, 0]])],
        vec![poly(&[[1, 0], [2, 2], [0, 1], [-2, 2], [-1, 0], [-2, -2], [0, -1], [2, -2]])],
        vec![poly(&[[0, 0], [1, 1], [19, 1], [19, 19], [20, 20], [20, 0]])],
        vec![
            poly(&[[0, 0], [0, 20], [20, 20], [20, 0]]),
            poly(&[[1, 1], [1, 19], [19, 19], [19, 1]]),
        ],
    ]
}

#[test]
fn trapezoidation_is_consistent() {
    for polygons in samples() {
        let list = PolygonList::from_polygons(&polygons);
        let traps = list.trapezoidize().expect("Trapezoidation failed");
        assert!(traps.check_consistency());
    }
}

#[test]
fn trapezoidation_counts() {
    // Each vertex and each segment adds one trapezoid to the first
    for polygons in samples() {
        let n: usize = polygons.iter().map(|p| p.len()).sum();
        let list = PolygonList::from_polygons(&polygons);
        let traps = list.trapezoidize().expect("Trapezoidation failed");
        assert_eq!(traps.ns().len(), n);
        assert_eq!(traps.ss().len(), n);
        assert_eq!(traps.ts().len(), 2 * n + 1);
    }
}

#[test]
fn top_trapezoid_is_unbounded_above() {
    let list = PolygonList::from_polygons(&samples()[1]);
    let traps = list.trapezoidize().expect("Trapezoidation failed");
    let ti = traps.top_trapezoid().expect("No top trapezoid");
    let t = traps.ts()[ti.usize()];
    assert!(t.up.is_none());
    assert!(t.left.is_none());
    assert!(t.right.is_none());
}

#[test]
fn empty_state() {
    let list = PolygonList::from_polygon(poly(&[[0, 0], [0, 1], [1, 1]]));
    let state = TrapezoidationState::new(&list);
    assert_eq!(state.ts().len(), 1);
    assert_eq!(state.qs().len(), 1);
    assert_eq!(state.query_node_root().usize(), 0);
    let (qi, ti) = state.find_trapezoid(2);
    assert_eq!(qi.usize(), 0);
    assert_eq!(ti.usize(), 0);
    assert!(state.check_consistency());
}

#[test]
fn stepwise_insertion() {
    // A triangle, inserted by hand: vertices, then segments from the lower
    // end to the upper end, keeping the structure consistent at every step
    let list = PolygonList::from_polygon(poly(&[[0, 0], [4, 1], [1, 5]]));
    let mut state = TrapezoidationState::new(&list);
    let root = state.query_node_root();
    let n0 = state.add_vertex(0, root).expect("add_vertex failed");
    assert!(state.check_consistency());
    let n1 = state.add_vertex(1, root).expect("add_vertex failed");
    let n2 = state.add_vertex(2, root).expect("add_vertex failed");
    assert!(state.check_consistency());
    // A search for a vertex just inserted ends in the trapezoid below its
    // nexus
    let (_, below) = state.find_trapezoid(2);
    assert_eq!(state.ts()[below.usize()].up.map(|n| n.usize()), Some(n2.usize()));
    assert_eq!(state.ns().len(), 3);
    assert_eq!(state.ts().len(), 4);
    assert_eq!(state.qs().len(), 7);
    assert_eq!(state.ns()[n1.usize()].vertex(), 1);

    // A vertex above every other is found in the top trapezoid, which is
    // bounded below by the highest nexus
    let (qi, ti) = state.find_trapezoid(2);
    assert!(matches!(state.qs()[qi.usize()], QueryNode::Sink(t) if t.usize() == ti.usize()));

    state.add_segment(n0, n1).expect("add_segment failed");
    assert!(state.check_consistency());
    state.add_segment(n1, n2).expect("add_segment failed");
    assert!(state.check_consistency());
    state.add_segment(n0, n2).expect("add_segment failed");
    assert!(state.check_consistency());
    assert_eq!(state.ss().len(), 3);
    assert_eq!(state.ts().len(), 7);
}

#[test]
fn built_state_triangulates() {
    let list = PolygonList::from_polygons(&samples()[3]);
    let traps = TrapezoidationState::new(&list).build().expect("build failed");
    let mut output = Vec::<Vec<usize>>::new();
    let fans = traps.triangulate(IndexedFanFormat::new(&mut output)).expect("Triangulation failed");
    assert_eq!(fans.iter().map(|f| f.len() - 2).sum::<usize>(), 8);
}

#[test]
fn every_nexus_joins_two_segments() {
    for polygons in samples() {
        let list = PolygonList::from_polygons(&polygons);
        let traps = list.trapezoidize().expect("Trapezoidation failed");
        for n in traps.ns().iter() {
            assert!(n.final_type().is_ok());
        }
    }
}

#[test]
fn redundant_polygon_breaks() {
    let vertices = poly(&[[0, 0], [4, 1], [1, 5]]);
    let plain = PolygonList::new(
        vertices.clone(),
        vec![PolygonElement::ContinuePolygon(0), PolygonElement::ContinuePolygon(1), PolygonElement::ContinuePolygon(2)],
    );
    let padded = PolygonList::new(
        vertices,
        vec![
            PolygonElement::NewPolygon,
            PolygonElement::ContinuePolygon(0),
            PolygonElement::ContinuePolygon(1),
            PolygonElement::ContinuePolygon(2),
            PolygonElement::NewPolygon,
            PolygonElement::NewPolygon,
        ],
    );
    let a = plain.trapezoidize().expect("Trapezoidation failed");
    let b = padded.trapezoidize().expect("Trapezoidation failed");
    assert_eq!(a.ns().len(), 3);
    assert_eq!(b.ns().len(), 3);
    assert_eq!(a.ts().len(), b.ts().len());
}

#[test]
fn segments_are_the_polygon_edges() {
    // Every segment joins two vertices that are neighbours on a polygon,
    // from its lower end to its upper end, and every edge has a segment
    for polygons in samples() {
        let list = PolygonList::from_polygons(&polygons);
        let traps = list.trapezoidize().expect("Trapezoidation failed");
        let mut edges = Vec::new();
        let mut base = 0usize;
        for p in polygons.iter() {
            for k in 0..p.len() {
                let a = base + k;
                let b = base + (k + 1) % p.len();
                edges.push((a.min(b), a.max(b)));
            }
            base += p.len();
        }
        let mut seen = Vec::new();
        for s in traps.ss().iter() {
            let a = traps.ns()[s.ni_min().usize()].vertex();
            let b = traps.ns()[s.ni_max().usize()].vertex();
            let ca = traps.ns()[s.ni_min().usize()].coords();
            let cb = traps.ns()[s.ni_max().usize()].coords();
            assert!(!cb.lt(&ca));
            let e = (a.min(b), a.max(b));
            assert!(edges.contains(&e));
            seen.push(e);
        }
        for e in edges.iter() {
            assert!(seen.contains(e));
        }
    }
}
