use triangulate::builders::{VecDelimitedIndexedError, VecDelimitedIndexedFanBuilder, VecVecIndexedFanBuilder};
use triangulate::formats::{DeindexError, DelimitedFanError, DelimitedFanFormat, lookup_vertex};
use triangulate::{is_left_of_line, math_n, Coords, FanBuilder, Idx, PolygonList, TriangleWinding, TriangulationError};

#[test]
fn wrapped_steps() {
    let slice = [10, 20, 30];
    let last: Idx<u8> = Idx::new(2);
    assert_eq!(last.next_wrapped(&slice).usize(), 0);
    let first: Idx<u8> = Idx::new(0);
    assert_eq!(first.prev_wrapped(&slice).usize(), 2);
    for i in 0..3 {
        let idx: Idx<u8> = Idx::new(i);
        assert_eq!(idx.next_wrapped(&slice).prev_wrapped(&slice).usize(), i);
        assert_eq!(idx.prev_wrapped(&slice).next_wrapped(&slice).usize(), i);
    }
    let mut moving: Idx<u8> = Idx::new(2);
    assert_eq!(moving.advance_wrapped(&slice).usize(), 2);
    assert_eq!(moving.usize(), 0);
    assert_eq!(moving.recede_wrapped(&slice).usize(), 0);
    assert_eq!(moving.usize(), 2);
    let mut stays: Idx<u8> = Idx::new(0);
    stays.recede();
    assert_eq!(stays.usize(), 0);
}

#[test]
fn iterated_logarithm_steps() {
    // log2(16) = 4, log2(4) = 2, log2(2) = 1, log2(1) = 0
    assert_eq!(math_n(16, 0), 1);
    assert_eq!(math_n(16, 1), 4);
    assert_eq!(math_n(16, 2), 8);
    assert_eq!(math_n(16, 3), 16);
    assert_eq!(math_n(16, 4), usize::MAX);
    // floor(log2(10)) = 3, so 10 / 3 rounded up
    assert_eq!(math_n(10, 1), 4);
    assert_eq!(math_n(1, 1), usize::MAX);
}

#[test]
fn orientation_test() {
    let lo = Coords::new(0, 0);
    let hi = Coords::new(0, 10);
    assert!(is_left_of_line(lo, hi, Coords::new(-1, 5)));
    assert!(!is_left_of_line(lo, hi, Coords::new(1, 5)));
    // At the height of an end, left of that end
    assert!(is_left_of_line(lo, hi, Coords::new(-1, 10)));
    assert!(!is_left_of_line(lo, hi, Coords::new(0, 0)));
    // Extreme coordinates do not overflow
    let a = Coords::new(i32::MIN, i32::MIN);
    let b = Coords::new(i32::MAX, i32::MAX);
    assert!(is_left_of_line(a, b, Coords::new(i32::MIN, i32::MAX - 1)));
    assert!(!is_left_of_line(a, b, Coords::new(i32::MAX, i32::MIN + 1)));
}

#[test]
fn winding_reverse() {
    assert_eq!(TriangleWinding::Counterclockwise.reverse(), TriangleWinding::Clockwise);
    assert_eq!(TriangleWinding::Clockwise.reverse().reverse(), TriangleWinding::Clockwise);
}

#[test]
fn sweep_order() {
    assert!(Coords::new(5, 0).lt(&Coords::new(0, 1)));
    assert!(Coords::new(0, 1).lt(&Coords::new(1, 1)));
    assert!(!Coords::new(1, 1).lt(&Coords::new(1, 1)));
    assert!(Coords::new(1, 1).le(&Coords::new(1, 1)));
}

#[test]
fn delimiter_in_indices_is_an_error() {
    let square = vec![Coords::new(0, 0), Coords::new(0, 1), Coords::new(1, 1), Coords::new(1, 0)];
    let list = PolygonList::from_polygon(square);
    let mut output = Vec::new();
    // Every triangle of a square uses vertex 0 or vertex 2, so either
    // delimiter is met
    for delimiter in [0usize, 2] {
        match list.triangulate(DelimitedFanFormat::new(&mut output, delimiter)) {
            Err(TriangulationError::FanBuilder(DelimitedFanError::IndexMatchesDelimiter)) => {},
            _ => panic!("expected the delimiter error"),
        }
    }
}

#[test]
fn vertex_lookup() {
    let list = PolygonList::from_polygon(vec![Coords::new(3, 4), Coords::new(5, 6), Coords::new(7, 9)]);
    assert_eq!(lookup_vertex(&list, 1), Ok(Coords::new(5, 6)));
    assert_eq!(lookup_vertex(&list, 3), Err(DeindexError::VertexNotFound));
}

#[test]
fn vec_vec_builder_collects_fans() {
    let mut fans = vec![vec![7usize, 8, 9]];
    let mut b = VecVecIndexedFanBuilder::new(&mut fans, 0usize, 1, 2);
    b.extend_fan(3).unwrap();
    b.new_fan(4, 5, 6).unwrap();
    // The output is the part added: the (empty) fan held before the first
    // one, then the fans built
    let out = b.build().unwrap();
    assert_eq!(out.to_vec(), vec![vec![], vec![0, 1, 2, 3], vec![4, 5, 6]]);
    assert_eq!(fans[0], vec![7, 8, 9]);
}

#[test]
fn vec_vec_builder_fail_restores() {
    let mut fans = vec![vec![7usize, 8, 9]];
    {
        let mut b = VecVecIndexedFanBuilder::new(&mut fans, 0usize, 1, 2);
        b.new_fan(4, 5, 6).unwrap();
        b.fail(&TriangulationError::NoVertices);
    }
    assert_eq!(fans, vec![vec![7, 8, 9]]);
}

#[test]
fn vec_delimited_builder() {
    let mut list = vec![1usize];
    let mut b = VecDelimitedIndexedFanBuilder::new(&mut list, usize::MAX, 2, 3, 4).unwrap();
    b.extend_fan(5).unwrap();
    b.new_fan(6, 7, 8).unwrap();
    assert_eq!(b.extend_fan(usize::MAX), Err(VecDelimitedIndexedError::DelimiterIndexReached));
    // The output is the part added: a delimiter after the old contents,
    // then the fans separated by delimiters
    let out = b.build().unwrap();
    assert_eq!(out.to_vec(), vec![usize::MAX, 2, 3, 4, 5, usize::MAX, 6, 7, 8]);
    assert_eq!(list, vec![1, usize::MAX, 2, 3, 4, 5, usize::MAX, 6, 7, 8]);
}

#[test]
fn index_order_and_top_positions() {
    let a: Idx<u8> = Idx::new(3);
    let b: Idx<u8> = Idx::new(7);
    assert!(a < b);
    assert!(!(b < a));
    assert!(a == Idx::new(3));
    assert_eq!(a.cmp(&b), std::cmp::Ordering::Less);
    let mut top: Idx<u8> = Idx::new(usize::MAX - 2);
    assert_eq!(top.advance().usize(), usize::MAX - 2);
    assert_eq!(top.usize(), usize::MAX - 1);
    let slice = [1u8, 2, 3];
    assert_eq!(top.next_wrapped(&slice).usize(), 0);
}

#[test]
fn failed_flat_list_keeps_earlier_items() {
    let mut v = vec![5u32, 6, 7, 8];
    let mut gl = triangulate::formats::GenericList::<&mut Vec<u32>, u32>::new(&mut v);
    gl.new_triangle(0, 1, 2);
    let _ = gl.fail();
    assert_eq!(v, vec![5, 6, 7, 8]);
}

#[test]
fn flat_list_truncates_from_the_end() {
    let mut v = vec![9u32, 1, 2, 3, 4, 5, 6];
    assert_eq!(triangulate::List::len(&v), 2);
    triangulate::List::truncate(&mut v, 1);
    assert_eq!(v, vec![9, 1, 2, 3]);
}

#[test]
fn refresh_schedule_uses_rounded_logarithms() {
    assert_eq!(math_n(100, 1), 17);
    assert_eq!(math_n(3, 2), usize::MAX);
}
