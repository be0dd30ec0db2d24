use vstd::prelude::*;

verus! {

/// A trapezoidation or triangulation precondition was violated by the
/// input, or an inconsistency was found while processing it.
#[derive(Debug)]
pub struct InternalError {
    /// What was found
    pub msg: String,
}

impl InternalError {
    /// An error carrying `msg`.
    pub fn new(msg: &str) -> (r: Self)
        ensures
            r.msg@ == msg@,
    {
        InternalError { msg: msg.to_owned() }
    }
}

/// Describes an error which occurred during trapezoidation
#[derive(Debug)]
pub enum TrapezoidationError {
    /// A polygon was encountered with fewer than 3 vertices
    NotEnoughVertices(usize),
    /// A trapezoidation precondition was violated in the provided polygon list, or a trapezoidation bug was encountered.
    InternalError(InternalError),
}

/// Describes an error which occurred during triangulation
#[derive(Debug)]
pub enum TriangulationError<FBError> {
    /// An error occured during the trapezoidation step
    TrapezoidationError(TrapezoidationError),
    /// No vertices were included within the polygon list
    NoVertices,
    /// A triangulation precondition was violated in the provided polygon list,
    /// or a triangulation bug was encountered.
    InternalError(InternalError),
    /// The fan builder returned an error.
    FanBuilder(FBError),
}

impl<FBError> TriangulationError<FBError> {
    /// An internal error carrying `msg`.
    pub fn internal(msg: &str) -> (r: Self)
        ensures
            r matches TriangulationError::InternalError(e) && e.msg@ == msg@,
    {
        TriangulationError::InternalError(InternalError::new(msg))
    }

    /// Wraps an error raised by the fan builder.
    pub fn from_builder(e: FBError) -> (r: Self)
        ensures
            r == TriangulationError::FanBuilder(e),
    {
        TriangulationError::FanBuilder(e)
    }
}

} // verus!
