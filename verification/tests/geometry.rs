use mvt_geometry::geometry::GEOM_COMMAND_CLOSE_PATH_WITH_COUNT1;
use mvt_geometry::geometry::GEOM_COMMAND_LINE_TO;
use mvt_geometry::geometry::GEOM_COMMAND_MOVE_TO;
use mvt_geometry::geometry::GEOM_COMMAND_MOVE_TO_WITH_COUNT1;
use mvt_geometry::geometry::GeometryEncoder;
use mvt_geometry::zigzag::zigzag;

#[test]
fn test_linestring_with_two_vertices() {
    // Test that linestrings with exactly 2 vertices work correctly
    let mut encoder = GeometryEncoder::new();
    encoder.add_linestring(&[[0, 0], [10, 10]]);
    let geometry = encoder.into_vec();

    // Expected: MoveTo(1) + coords(2) + LineTo(1) + coords(2)
    assert_eq!(geometry.len(), 6);
    assert_eq!(geometry[0], GEOM_COMMAND_MOVE_TO_WITH_COUNT1); // MoveTo with count=1
    assert_eq!(geometry[1], zigzag(0)); // dx = 0
    assert_eq!(geometry[2], zigzag(0)); // dy = 0
    assert_eq!(geometry[3], GEOM_COMMAND_LINE_TO | (1 << 3)); // LineTo with count=1
    assert_eq!(geometry[4], zigzag(10)); // dx = 10
    assert_eq!(geometry[5], zigzag(10)); // dy = 10
}

#[test]
fn test_linestring_with_duplicate_points_filtered() {
    // Test that duplicate consecutive points are filtered out
    // This simulates what happens at low zoom levels
    let mut encoder = GeometryEncoder::new();
    encoder.add_linestring(&[[0, 0], [0, 0], [0, 0]]);
    let geometry = encoder.into_vec();

    // Expected: MoveTo(1) + coords(2) + LineTo(1) + coords(2) [zero-length segment]
    assert_eq!(geometry.len(), 6);
    assert_eq!(geometry[0], GEOM_COMMAND_MOVE_TO_WITH_COUNT1);
    assert_eq!(geometry[3], GEOM_COMMAND_LINE_TO | (1 << 3)); // LineTo with count=1
    assert_eq!(geometry[4], 0); // dx = 0 (repeated point)
    assert_eq!(geometry[5], 0); // dy = 0 (repeated point)
}

#[test]
fn test_empty_inputs_are_noops() {
    // Empty input to any add_* method writes nothing and leaves the
    // delta-encoding state untouched.
    let mut encoder = GeometryEncoder::new();
    encoder.add_points(&[]);
    encoder.add_linestring(&[]);
    encoder.add_ring(&[]);
    // The next point is still a delta from the origin.
    encoder.add_points(&[[1, 1]]);
    let geometry = encoder.into_vec();
    assert_eq!(geometry, vec![GEOM_COMMAND_MOVE_TO_WITH_COUNT1, zigzag(1), zigzag(1)]);
}

#[test]
fn test_points_duplicates_collapse() {
    // A run of exact duplicates collapses to one emitted point; the next
    // distinct point's delta is taken from the literal previous point.
    let mut encoder = GeometryEncoder::new();
    encoder.add_points(&[[5, 5], [5, 5], [5, 5], [7, 9]]);
    let geometry = encoder.into_vec();
    assert_eq!(
        geometry,
        vec![
            GEOM_COMMAND_MOVE_TO | (2 << 3), // MoveTo with count=2 after collapsing
            zigzag(5),
            zigzag(5),
            zigzag(2), // dx = 7 - 5
            zigzag(4), // dy = 9 - 5
        ]
    );
}

#[test]
fn test_points_count_back_patched() {
    // The MoveTo count reflects the points actually emitted.
    let mut encoder = GeometryEncoder::new();
    encoder.add_points(&[[1, 1], [2, 2], [3, 3]]);
    let geometry = encoder.into_vec();
    assert_eq!(
        geometry,
        vec![
            GEOM_COMMAND_MOVE_TO | (3 << 3),
            zigzag(1),
            zigzag(1),
            zigzag(1),
            zigzag(1),
            zigzag(1),
            zigzag(1),
        ]
    );
}

#[test]
fn test_ring_always_closes() {
    // A ring whose subsequent points are all filtered out still gets the
    // degenerate zero-delta segment and exactly one trailing ClosePath.
    let mut encoder = GeometryEncoder::new();
    encoder.add_ring(&[[3, 3], [3, 3]]);
    let geometry = encoder.into_vec();
    assert_eq!(
        geometry,
        vec![
            GEOM_COMMAND_MOVE_TO_WITH_COUNT1,
            zigzag(3),
            zigzag(3),
            GEOM_COMMAND_LINE_TO | (1 << 3),
            0,
            0,
            GEOM_COMMAND_CLOSE_PATH_WITH_COUNT1,
        ]
    );
    assert_eq!(*geometry.last().unwrap(), GEOM_COMMAND_CLOSE_PATH_WITH_COUNT1);
}

#[test]
fn test_parts_chain_deltas() {
    // The first point of a later part is encoded relative to the last point
    // of the part before it, not relative to (0, 0).
    let mut encoder = GeometryEncoder::new();
    encoder.add_linestring(&[[0, 0], [10, 10]]);
    encoder.add_linestring(&[[20, 20], [30, 30]]);
    let geometry = encoder.into_vec();
    assert_eq!(
        geometry,
        vec![
            GEOM_COMMAND_MOVE_TO_WITH_COUNT1,
            zigzag(0),
            zigzag(0),
            GEOM_COMMAND_LINE_TO | (1 << 3),
            zigzag(10),
            zigzag(10),
            GEOM_COMMAND_MOVE_TO_WITH_COUNT1,
            zigzag(10), // dx = 20 - 10, chained from the previous part
            zigzag(10), // dy = 20 - 10
            GEOM_COMMAND_LINE_TO | (1 << 3),
            zigzag(10),
            zigzag(10),
        ]
    );
}

#[test]
fn test_two_rings_end_to_end() {
    // Two rings on one encoder produce two independent
    // MoveTo/LineTo/ClosePath blocks; the second MoveTo is a delta from the
    // first ring's last point (10, 0), not from the origin.
    let mut encoder = GeometryEncoder::new();
    encoder.add_ring(&[[0, 0], [0, 10], [10, 10], [10, 0]]);
    encoder.add_ring(&[[20, 20], [20, 30], [30, 30], [30, 20]]);
    let geometry = encoder.into_vec();
    assert_eq!(
        geometry,
        vec![
            GEOM_COMMAND_MOVE_TO_WITH_COUNT1,
            zigzag(0),
            zigzag(0),
            GEOM_COMMAND_LINE_TO | (3 << 3),
            zigzag(0),
            zigzag(10),
            zigzag(10),
            zigzag(0),
            zigzag(0),
            zigzag(-10),
            GEOM_COMMAND_CLOSE_PATH_WITH_COUNT1,
            GEOM_COMMAND_MOVE_TO_WITH_COUNT1,
            zigzag(10), // dx = 20 - 10, not 20 - 0
            zigzag(20), // dy = 20 - 0
            GEOM_COMMAND_LINE_TO | (3 << 3),
            zigzag(0),
            zigzag(10),
            zigzag(10),
            zigzag(0),
            zigzag(0),
            zigzag(-10),
            GEOM_COMMAND_CLOSE_PATH_WITH_COUNT1,
        ]
    );
    // Not encoded relative to the origin:
    assert_ne!(geometry[12], zigzag(20));
}

#[test]
fn test_mixed_parts_chain() {
    // Chaining also holds across different part kinds: a point part after a
    // ring is encoded relative to the ring's last point.
    let mut encoder = GeometryEncoder::new();
    encoder.add_ring(&[[0, 0], [5, 0], [5, 5]]);
    encoder.add_points(&[[6, 6]]);
    let geometry = encoder.into_vec();
    assert_eq!(
        &geometry[geometry.len() - 3..],
        &[GEOM_COMMAND_MOVE_TO | (1 << 3), zigzag(1), zigzag(1)]
    );
}

#[test]
fn test_negative_deltas() {
    // Moving back toward the origin produces negative deltas.
    let mut encoder = GeometryEncoder::new();
    encoder.add_linestring(&[[10, 10], [4, 2]]);
    let geometry = encoder.into_vec();
    assert_eq!(
        geometry,
        vec![
            GEOM_COMMAND_MOVE_TO_WITH_COUNT1,
            zigzag(10),
            zigzag(10),
            GEOM_COMMAND_LINE_TO | (1 << 3),
            zigzag(-6),
            zigzag(-8),
        ]
    );
}

#[test]
fn test_default_is_fresh() {
    let mut encoder = GeometryEncoder::default();
    encoder.add_points(&[[2, 3]]);
    let geometry = encoder.into_vec();
    assert_eq!(geometry, vec![GEOM_COMMAND_MOVE_TO_WITH_COUNT1, zigzag(2), zigzag(3)]);
}
