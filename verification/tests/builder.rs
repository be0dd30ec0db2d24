use triangulate::{Coords, FanBuilder, FanFormat, PolygonList, TriangulationError};

fn star() -> PolygonList {
    let points = [[1, 0], [2, 2], [0, 1], [-2, 2], [-1, 0], [-2, -2], [0, -1], [2, -2]];
    PolygonList::from_polygon(points.iter().map(|p| Coords::new(p[0], p[1])).collect())
}

#[derive(Debug, PartialEq, Eq)]
enum BuilderError {
    New,
    NewFan,
    ExtendFan,
    Build,
}

/// A format whose builder raises `raise` at the corresponding step.
struct RaisingFormat {
    raise: BuilderError,
}

struct RaisingBuilder {
    raise: BuilderError,
}

impl FanFormat<usize> for RaisingFormat {
    type Builder = RaisingBuilder;

    fn initialize(self, _vi0: usize, _vi1: usize, _vi2: usize) -> Result<RaisingBuilder, BuilderError> {
        if self.raise == BuilderError::New {
            Err(BuilderError::New)
        } else {
            Ok(RaisingBuilder { raise: self.raise })
        }
    }
}

impl FanBuilder<usize> for RaisingBuilder {
    type Output = ();
    type Error = BuilderError;

    fn new_fan(&mut self, _vi0: usize, _vi1: usize, _vi2: usize) -> Result<(), Self::Error> {
        if self.raise == BuilderError::NewFan {
            Err(BuilderError::NewFan)
        } else {
            Ok(())
        }
    }

    fn extend_fan(&mut self, _vi: usize) -> Result<(), Self::Error> {
        if self.raise == BuilderError::ExtendFan {
            Err(BuilderError::ExtendFan)
        } else {
            Ok(())
        }
    }

    fn build(self) -> Result<Self::Output, Self::Error> {
        if self.raise == BuilderError::Build {
            Err(BuilderError::Build)
        } else {
            Ok(())
        }
    }

    fn fail(self, _error: &TriangulationError<Self::Error>) {}
}

#[test]
fn new_error() {
    if let TriangulationError::FanBuilder(err) = star().triangulate(RaisingFormat { raise: BuilderError::New }).unwrap_err() {
        assert_eq!(err, BuilderError::New);
    } else {
        assert!(false);
    }
}

#[test]
fn new_fan_error() {
    if let TriangulationError::FanBuilder(err) = star().triangulate(RaisingFormat { raise: BuilderError::NewFan }).unwrap_err() {
        assert_eq!(err, BuilderError::NewFan);
    } else {
        assert!(false);
    }
}

#[test]
fn extend_fan_error() {
    if let TriangulationError::FanBuilder(err) = star().triangulate(RaisingFormat { raise: BuilderError::ExtendFan }).unwrap_err() {
        assert_eq!(err, BuilderError::ExtendFan);
    } else {
        assert!(false);
    }
}

#[test]
fn build_error() {
    if let TriangulationError::FanBuilder(err) = star().triangulate(RaisingFormat { raise: BuilderError::Build }).unwrap_err() {
        assert_eq!(err, BuilderError::Build);
    } else {
        assert!(false);
    }
}
