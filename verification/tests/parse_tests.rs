use renderer::direction::Direction;
use renderer::layout::Coord;
use renderer::parse::ParseError;
use renderer::parse::parse_sol;

#[test]
fn empty_input_gives_empty_tables() {
    let p = parse_sol(b"").unwrap();
    assert!(p.positions.get(Coord { x: 1, y: 1, z: 1 }).is_none());
    assert!(p.pipe_positions.get(Coord { x: 1, y: 1, z: 1 }).is_none());
}

#[test]
fn block_pos_records_label() {
    let p = parse_sol(b"block_pos(2,1,3,7)").unwrap();
    assert_eq!(p.positions.get(Coord { x: 2, y: 1, z: 3 }), Some(&b"7".to_vec()));
    assert!(p.positions.get(Coord { x: 1, y: 1, z: 1 }).is_none());
}

#[test]
fn cell_value_records_label_too() {
    let p = parse_sol(b"cell_value(1,2,3,abc)").unwrap();
    assert_eq!(p.positions.get(Coord { x: 1, y: 2, z: 3 }), Some(&b"abc".to_vec()));
}

#[test]
fn pipe_pos_records_directions() {
    let p = parse_sol(b"pipe_pos(2,1,1,e,a)").unwrap();
    assert_eq!(
        p.pipe_positions.get(Coord { x: 2, y: 1, z: 1 }),
        Some(&(Direction::East, Direction::Above))
    );
}

#[test]
fn unknown_tokens_are_ignored() {
    let p = parse_sol(b"noise foo(1,2) block_pos(1,1,1,x) other").unwrap();
    assert_eq!(p.positions.get(Coord { x: 1, y: 1, z: 1 }), Some(&b"x".to_vec()));
}

#[test]
fn tokens_split_on_any_whitespace() {
    let p = parse_sol(b"  block_pos(1,1,1,a)\nblock_pos(2,1,1,b)\t block_pos(1,2,1,c) \r\n").unwrap();
    assert_eq!(p.positions.get(Coord { x: 1, y: 1, z: 1 }), Some(&b"a".to_vec()));
    assert_eq!(p.positions.get(Coord { x: 2, y: 1, z: 1 }), Some(&b"b".to_vec()));
    assert_eq!(p.positions.get(Coord { x: 1, y: 2, z: 1 }), Some(&b"c".to_vec()));
}

#[test]
fn later_atom_wins_for_same_cell() {
    let p = parse_sol(b"block_pos(1,1,1,old) block_pos(1,1,1,new)").unwrap();
    assert_eq!(p.positions.get(Coord { x: 1, y: 1, z: 1 }), Some(&b"new".to_vec()));
}

#[test]
fn extra_fields_are_ignored() {
    let p = parse_sol(b"block_pos(2,1,1,5,9)").unwrap();
    assert_eq!(p.positions.get(Coord { x: 2, y: 1, z: 1 }), Some(&b"5".to_vec()));
}

#[test]
fn solver_line_round_trips_into_tables() {
    let line = b"block_pos(2,1,1,1) block_pos(1,2,1,4) block_pos(1,1,2,7) block_pos(3,1,2,6) \
pipe_pos(2,1,1,e,a) pipe_pos(1,2,1,b,w) pipe_pos(1,1,2,n,s)";
    let p = parse_sol(line).unwrap();
    assert_eq!(p.positions.get(Coord { x: 2, y: 1, z: 1 }), Some(&b"1".to_vec()));
    assert_eq!(p.positions.get(Coord { x: 1, y: 2, z: 1 }), Some(&b"4".to_vec()));
    assert_eq!(p.positions.get(Coord { x: 1, y: 1, z: 2 }), Some(&b"7".to_vec()));
    assert_eq!(p.positions.get(Coord { x: 3, y: 1, z: 2 }), Some(&b"6".to_vec()));
    assert!(p.positions.get(Coord { x: 3, y: 3, z: 3 }).is_none());
    assert_eq!(
        p.pipe_positions.get(Coord { x: 2, y: 1, z: 1 }),
        Some(&(Direction::East, Direction::Above))
    );
    assert_eq!(
        p.pipe_positions.get(Coord { x: 1, y: 2, z: 1 }),
        Some(&(Direction::Below, Direction::West))
    );
    assert_eq!(
        p.pipe_positions.get(Coord { x: 1, y: 1, z: 2 }),
        Some(&(Direction::North, Direction::South))
    );
    assert!(p.pipe_positions.get(Coord { x: 1, y: 1, z: 1 }).is_none());
}

#[test]
fn unterminated_atom_is_reported() {
    assert!(matches!(parse_sol(b"block_pos(1,1,1,x"), Err(ParseError::UnterminatedAtom)));
    assert!(matches!(parse_sol(b"pipe_pos("), Err(ParseError::UnterminatedAtom)));
}

#[test]
fn missing_field_is_reported() {
    assert!(matches!(parse_sol(b"block_pos(1,1,1)"), Err(ParseError::MissingField)));
    assert!(matches!(parse_sol(b"pipe_pos(1,1,1,e)"), Err(ParseError::MissingField)));
}

#[test]
fn bad_integer_is_reported() {
    assert!(matches!(parse_sol(b"block_pos(a,1,1,x)"), Err(ParseError::BadInteger)));
    assert!(matches!(parse_sol(b"block_pos(1,,1,x)"), Err(ParseError::BadInteger)));
    assert!(matches!(parse_sol(b"block_pos(99999999999999999999999999,1,1,x)"), Err(ParseError::BadInteger)));
}

#[test]
fn bad_direction_is_reported() {
    assert!(matches!(parse_sol(b"pipe_pos(1,1,1,q,a)"), Err(ParseError::BadDirection)));
    assert!(matches!(parse_sol(b"pipe_pos(1,1,1,e,ee)"), Err(ParseError::BadDirection)));
}

#[test]
fn first_bad_token_decides_the_error() {
    assert!(matches!(parse_sol(b"block_pos(1,1,1,ok) pipe_pos(1,1,1,q,a) block_pos(x,1,1,y)"), Err(ParseError::BadDirection)));
}
