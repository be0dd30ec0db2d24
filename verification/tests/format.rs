use triangulate::formats::{
    DeindexedFanFormat, DeindexedListFormat, DelimitedFanFormat, IndexedFanFormat, IndexedListFormat,
    into_fan_format,
};
use triangulate::{Coords, FanBuilder, FanFormat, PolygonList, TriangulationError};

fn poly(points: &[[i32; 2]]) -> Vec<Coords> {
    points.iter().map(|p| Coords::new(p[0], p[1])).collect()
}

/// A 4-pointed star polygon
fn star() -> Vec<Coords> {
    poly(&[[1, 0], [2, 2], [0, 1], [-2, 2], [-1, 0], [-2, -2], [0, -1], [2, -2]])
}

/// A concave half frame polygon (the unit shape scaled by 20)
fn half_frame() -> Vec<Coords> {
    poly(&[[0, 0], [1, 1], [19, 1], [19, 19], [20, 20], [20, 0]])
}

#[derive(Debug, PartialEq, Eq, Clone, Copy)]
enum BuilderError {
    Initialize,
    NewFan,
    ExtendFan,
    Build,
}

struct ErrorFormat<'b>(BuilderError, &'b mut bool);

impl<'b> ErrorFormat<'b> {
    fn new(raised_error: BuilderError, failed_flag: &'b mut bool) -> Self {
        *failed_flag = false;
        Self(raised_error, failed_flag)
    }

    fn check_error(&self, error: BuilderError) -> Result<(), BuilderError> {
        if self.0 == error {
            Err(error)
        } else {
            Ok(())
        }
    }

    fn set_failed_flag(&mut self) {
        *self.1 = true;
    }
}

impl<'b> FanFormat<usize> for ErrorFormat<'b> {
    type Builder = Self;

    fn initialize(self, _vi0: usize, _vi1: usize, _vi2: usize) -> Result<Self::Builder, BuilderError> {
        self.check_error(BuilderError::Initialize)?;
        Ok(self)
    }
}

impl<'b> FanBuilder<usize> for ErrorFormat<'b> {
    type Output = ();
    type Error = BuilderError;

    fn new_fan(&mut self, _vi0: usize, _vi1: usize, _vi2: usize) -> Result<(), Self::Error> {
        self.check_error(BuilderError::NewFan)?;
        Ok(())
    }

    fn extend_fan(&mut self, _vi: usize) -> Result<(), Self::Error> {
        self.check_error(BuilderError::ExtendFan)?;
        Ok(())
    }

    fn build(self) -> Result<Self::Output, Self::Error> {
        self.check_error(BuilderError::Build)?;
        Ok(())
    }

    fn fail(mut self, _error: &TriangulationError<Self::Error>) {
        self.set_failed_flag();
    }
}

#[test]
fn error_propagation() {
    // Builder-raised errors are propagated back to the `triangulate` call, and `FanBuilder::fail` is called if applicable
    let list = PolygonList::from_polygon(star());
    for builder_error in [BuilderError::Initialize, BuilderError::NewFan, BuilderError::ExtendFan, BuilderError::Build] {
        let mut failed = false;
        match list.triangulate(ErrorFormat::new(builder_error, &mut failed)) {
            Ok(()) => panic!("Triangulation completed successfully"),
            Err(TriangulationError::FanBuilder(err)) => {
                assert_eq!(err, builder_error);
                // For `initialize` and `build`, `fail` will not be called, because the Builder does not yet exist, or has been moved into `build`, respectively
                if builder_error != BuilderError::Initialize && builder_error != BuilderError::Build {
                    assert!(failed);
                }
            },
            Err(_) => panic!("Unexpected non-builder error"),
        }
    }
}

#[test]
fn separate_trapezoidation() {
    let mut output = Vec::<Vec<usize>>::new();
    let builder = IndexedFanFormat::new(&mut output);
    let list = PolygonList::from_polygon(star());
    let traps = list.trapezoidize().expect("Trapezoidation failed");
    traps.triangulate(builder).expect("Triangulation failed");
}

#[test]
fn fan_to_list() {
    let mut output = Vec::<[usize; 3]>::new();
    let builder = into_fan_format(IndexedListFormat::new(&mut output));
    let list = PolygonList::from_polygon(star());
    let result = list.triangulate(builder).expect("Triangulation failed");
    assert_eq!(result.len(), 6);
}

#[test]
fn reverse_winding() {
    let list = PolygonList::from_polygon(star());

    let mut output0 = Vec::<Vec<usize>>::new();
    let mut output1 = Vec::<Vec<usize>>::new();
    let builder0 = IndexedFanFormat::new(&mut output0);
    let builder1 = triangulate::reverse_winding(IndexedFanFormat::new(&mut output1));
    let result0 = list.triangulate(builder0).expect("Triangulation failed");
    let result1 = list.triangulate(builder1).expect("Triangulation failed");

    assert_ne!(result0, result1);
}

#[test]
fn deindexed_fan() {
    fn require_coords(_c: Coords) {}

    let list = PolygonList::from_polygon(star());

    let mut output = Vec::<Vec<Coords>>::new();
    let builder = DeindexedFanFormat::new(&mut output, &list);
    let result = list.triangulate(builder).expect("Triangulation failed");

    require_coords(result[0][0]);
    // Every position output is a vertex of the star
    let vertices = star();
    assert!(result.iter().all(|f| f.iter().all(|c| vertices.contains(c))));
}

#[test]
fn deindexed_list() {
    fn require_coords(_c: Coords) {}

    let list = PolygonList::from_polygon(star());

    let mut output = Vec::<Coords>::new();
    let builder = into_fan_format(DeindexedListFormat::new(&mut output, &list));
    let result = list.triangulate(builder).expect("Triangulation failed");

    require_coords(result[0]);
    // 6 triangles of 3 positions each
    assert_eq!(result.len(), 18);
}

#[test]
fn delimited_fan() {
    let delimiter = usize::MAX;

    let list = PolygonList::from_polygon(half_frame());

    let mut output = Vec::new();
    let builder = DelimitedFanFormat::new(&mut output, delimiter);
    list.triangulate(builder).expect("Triangulation failed");

    assert!(output.into_iter().filter(|i| *i == delimiter).count() > 0);
}

#[test]
fn indexed_fan_appends_to_existing_fans() {
    // Fans already held are kept, and the new ones follow
    let list = PolygonList::from_polygon(star());
    let mut output = vec![vec![100usize, 101, 102]];
    let fans = list.triangulate(IndexedFanFormat::new(&mut output)).expect("Triangulation failed");
    assert_eq!(fans[0], vec![100, 101, 102]);
    let triangles: usize = fans[1..].iter().map(|f| f.len() - 2).sum();
    assert_eq!(triangles, 6);
}

#[test]
fn failed_triangulation_restores_output() {
    // A delimiter equal to a vertex index that is not in the first triangle
    // stops the triangulation once the builder exists; it is then told of
    // the failure, and the output holds only what it held before
    let list = PolygonList::from_polygon(star());
    let mut fans = Vec::<Vec<usize>>::new();
    let first: Vec<usize> = list.triangulate(IndexedFanFormat::new(&mut fans)).expect("Triangulation failed")[0][..3].to_vec();
    for delimiter in (0..8usize).filter(|d| !first.contains(d)) {
        let mut output = vec![100usize, 101];
        match list.triangulate(DelimitedFanFormat::new(&mut output, delimiter)) {
            Err(TriangulationError::FanBuilder(_)) => {},
            _ => panic!("expected the delimiter error"),
        }
        assert_eq!(output, vec![100, 101]);
    }
}
