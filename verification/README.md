# triangulate

Subdivides a set of non-self-intersecting polygons (outlines and holes) into
non-overlapping triangles, following Raimund Seidel's randomized algorithm:
the polygon edges are inserted in random order into a trapezoidation of the
plane, the trapezoids are walked from the top to collect monotone pieces, and
each monotone piece is cut into triangle fans that are handed to an output
format.

The library is written in Verus. Positions are exact integer coordinates
(`Coords`), and the orientation tests use exact wide arithmetic, so no result
depends on rounding.

## Layout

- `src/idx.rs`: typed indices into the arenas of nexuses, segments,
  trapezoids and query nodes.
- `src/inputs/`: positions and polygon lists, with the polygon sizes they
  describe.
- `src/math.rs`: the orientation test and the iterated logarithm that spaces
  out the relocation of vertices not yet inserted.
- `src/nexus.rs`, `src/segment.rs`, `src/trapezoid.rs`, `src/querynode.rs`:
  the pieces of a trapezoidation.
- `src/trapezoidation.rs`: building the trapezoidation (vertex and segment
  insertion, the point-location search and why stored search results stay
  valid) and walking it into monotone pieces.
- `src/monotone.rs`, `src/chain.rs`: collecting monotone chains and cutting
  them into fans.
- `src/outputs/`: the fan and list formats that receive the triangles.
- `tests/`: scenarios run against the compiled library.
- `app/`: floating-point input (snapped to the integer grid) and displayable
  copies of the error types.

## Preconditions

No edge may cross another, each vertex belongs to exactly two edges, and no
two vertices share both coordinates. These are not checked; an invalid
polygon set most likely yields `TriangulationError::InternalError`.

## Results

Because the edges are inserted in random order, the exact triangulation may
differ between runs.
