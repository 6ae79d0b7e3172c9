use combat_core::position::{MapPosition, MapPositionDirection};

#[test]
fn distance_is_manhattan() {
    let a = MapPosition::new(2, 3);
    let b = MapPosition::new(5, 1);
    assert_eq!(a.distance_to(&b), 5);
    assert_eq!(b.distance_to(&a), 5);
    assert_eq!(a.distance_to(&a), 0);
}

#[test]
fn direction_is_axis_aligned_only() {
    let c = MapPosition::new(5, 5);
    assert!(matches!(
        c.direction_to(&MapPosition::new(8, 5)),
        Some(MapPositionDirection::SudEst)
    ));
    assert!(matches!(
        c.direction_to(&MapPosition::new(2, 5)),
        Some(MapPositionDirection::NordWest)
    ));
    assert!(matches!(
        c.direction_to(&MapPosition::new(5, 9)),
        Some(MapPositionDirection::SudWest)
    ));
    assert!(matches!(
        c.direction_to(&MapPosition::new(5, 2)),
        Some(MapPositionDirection::NordEst)
    ));
    assert!(c.direction_to(&MapPosition::new(6, 6)).is_none());
    assert!(c.direction_to(&c).is_none());
}

#[test]
fn straight_path_walks_the_asked_distance() {
    let p = MapPosition::new(5, 5);
    let path = p.unchecked_path_torward(MapPositionDirection::SudEst, 3);
    assert_eq!(
        path,
        vec![MapPosition::new(6, 5), MapPosition::new(7, 5), MapPosition::new(8, 5)]
    );
}

#[test]
fn straight_path_stops_at_the_numeric_edge() {
    let p = MapPosition::new(1, 0);
    let path = p.unchecked_path_torward(MapPositionDirection::NordWest, 5);
    assert_eq!(path, vec![MapPosition::new(0, 0)]);
}

#[test]
fn surrounding_positions_honor_distance_band_and_bounds() {
    let c = MapPosition::new(1, 1);
    let ring = c.get_surrounding_positions(1, 1, 3, 3);
    assert_eq!(ring.len(), 4);
    assert!(ring.contains(&MapPosition::new(0, 1)));
    assert!(ring.contains(&MapPosition::new(2, 1)));
    assert!(ring.contains(&MapPosition::new(1, 0)));
    assert!(ring.contains(&MapPosition::new(1, 2)));

    let corner = MapPosition::new(0, 0).get_surrounding_positions(1, 2, 3, 3);
    assert_eq!(corner.len(), 5);
    assert!(!corner.contains(&MapPosition::new(0, 0)));
}

#[test]
fn line_on_a_row_visits_every_cell() {
    let a = MapPosition::new(1, 2);
    let b = MapPosition::new(4, 2);
    let line = a.line_to(&b);
    assert_eq!(
        line,
        vec![
            MapPosition::new(1, 2),
            MapPosition::new(2, 2),
            MapPosition::new(3, 2),
            MapPosition::new(4, 2)
        ]
    );
}

#[test]
fn diagonal_line_steps_both_axes_on_ties() {
    let a = MapPosition::new(0, 0);
    let b = MapPosition::new(3, 3);
    let line = a.line_to(&b);
    assert_eq!(
        line,
        vec![
            MapPosition::new(0, 0),
            MapPosition::new(1, 1),
            MapPosition::new(2, 2),
            MapPosition::new(3, 3)
        ]
    );
}

#[test]
fn supercover_line_includes_crossed_corners() {
    let a = MapPosition::new(0, 0);
    let b = MapPosition::new(2, 1);
    let line = a.line_to(&b);
    assert_eq!(
        line,
        vec![
            MapPosition::new(0, 0),
            MapPosition::new(1, 0),
            MapPosition::new(1, 1),
            MapPosition::new(2, 1)
        ]
    );
}

#[test]
fn line_is_symmetric_under_reversal() {
    let a = MapPosition::new(1, 7);
    let b = MapPosition::new(6, 2);
    let mut forward = a.line_to(&b);
    let backward = b.line_to(&a);
    forward.reverse();
    assert_eq!(forward, backward);
}

#[test]
fn single_cell_line_is_the_cell_itself() {
    let a = MapPosition::new(4, 4);
    assert_eq!(a.line_to(&a), vec![a]);
}

#[test]
fn surrounding_positions_come_in_row_major_order() {
    let c = MapPosition::new(1, 1);
    let ring = c.get_surrounding_positions(1, 1, 3, 3);
    assert_eq!(
        ring,
        vec![
            MapPosition::new(1, 0),
            MapPosition::new(0, 1),
            MapPosition::new(2, 1),
            MapPosition::new(1, 2)
        ]
    );
}
