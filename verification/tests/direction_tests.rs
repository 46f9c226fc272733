use renderer::direction::Direction;

#[test]
fn from_str_reads_the_six_letters() {
    assert_eq!(Direction::from_str("a"), Ok(Direction::Above));
    assert_eq!(Direction::from_str("b"), Ok(Direction::Below));
    assert_eq!(Direction::from_str("n"), Ok(Direction::North));
    assert_eq!(Direction::from_str("s"), Ok(Direction::South));
    assert_eq!(Direction::from_str("e"), Ok(Direction::East));
    assert_eq!(Direction::from_str("w"), Ok(Direction::West));
}

#[test]
fn from_str_rejects_everything_else() {
    assert_eq!(Direction::from_str(""), Err(()));
    assert_eq!(Direction::from_str("x"), Err(()));
    assert_eq!(Direction::from_str("ab"), Err(()));
    assert_eq!(Direction::from_str("A"), Err(()));
}

#[test]
fn prism_extents_stretch_along_the_axis() {
    // Vertical pipes are tall, east-west pipes are wide, north-south deep.
    assert_eq!(Direction::Above.pipe_height(), 650);
    assert_eq!(Direction::Above.pipe_width(), 300);
    assert_eq!(Direction::Above.pipe_depth(), 300);
    assert_eq!(Direction::Below.pipe_height(), 650);
    assert_eq!(Direction::North.pipe_depth(), 650);
    assert_eq!(Direction::North.pipe_width(), 300);
    assert_eq!(Direction::South.pipe_depth(), 650);
    assert_eq!(Direction::East.pipe_width(), 650);
    assert_eq!(Direction::East.pipe_height(), 300);
    assert_eq!(Direction::West.pipe_width(), 650);
}

#[test]
fn prism_center_is_pushed_toward_the_direction() {
    let c = Direction::East.pipe_center(2, 3, 4);
    assert_eq!((c.x, c.y, c.z), (2175, 3000, 4000));
    let c = Direction::West.pipe_center(2, 3, 4);
    assert_eq!((c.x, c.y, c.z), (1825, 3000, 4000));
    let c = Direction::Above.pipe_center(2, 3, 4);
    assert_eq!((c.x, c.y, c.z), (2000, 3175, 4000));
    let c = Direction::Below.pipe_center(2, 3, 4);
    assert_eq!((c.x, c.y, c.z), (2000, 2825, 4000));
    let c = Direction::North.pipe_center(2, 3, 4);
    assert_eq!((c.x, c.y, c.z), (2000, 3000, 4175));
    let c = Direction::South.pipe_center(2, 3, 4);
    assert_eq!((c.x, c.y, c.z), (2000, 3000, 3825));
}
