use snake::objects::Command;
use snake::objects::Direction;
use snake::objects::Point;
use snake::objects::Snake;

#[test]
fn opposite_pairs_and_involution() {
    let all = [Direction::Up, Direction::Right, Direction::Down, Direction::Left];
    assert_eq!(Direction::Up.opposite(), Direction::Down);
    assert_eq!(Direction::Right.opposite(), Direction::Left);
    assert_eq!(Direction::Down.opposite(), Direction::Up);
    assert_eq!(Direction::Left.opposite(), Direction::Right);
    for d in all {
        assert_eq!(d.opposite().opposite(), d);
    }
}

#[test]
fn transform_moves_along_each_axis() {
    let p = Point::new(5, 7);
    assert_eq!(p.transform(Direction::Up, 3), Point::new(5, 4));
    assert_eq!(p.transform(Direction::Down, 3), Point::new(5, 10));
    assert_eq!(p.transform(Direction::Left, 5), Point::new(0, 7));
    assert_eq!(p.transform(Direction::Right, 40000), Point::new(40005, 7));
    assert_eq!(p.transform(Direction::Up, 0), p);
}

#[test]
fn transform_round_trip() {
    let p = Point::new(9, 4);
    for d in [Direction::Up, Direction::Right, Direction::Down, Direction::Left] {
        for n in 0..5u16 {
            assert_eq!(p.transform(d, n).transform(d.opposite(), n), p);
        }
    }
}

#[test]
fn new_snake_lies_straight_behind_its_head() {
    let s = Snake::new(Point::new(10, 10), 4, Direction::Right);
    assert_eq!(
        s.get_body_points(),
        vec![Point::new(10, 10), Point::new(9, 10), Point::new(8, 10), Point::new(7, 10)]
    );
    assert_eq!(s.get_head_point(), Point::new(10, 10));
    assert_eq!(s.get_direction(), Direction::Right);
    let s = Snake::new(Point::new(3, 3), 1, Direction::Up);
    assert_eq!(s.get_body_points(), vec![Point::new(3, 3)]);
    let s = Snake::new(Point::new(2, 0), 3, Direction::Up);
    assert_eq!(s.get_body_points(), vec![Point::new(2, 0), Point::new(2, 1), Point::new(2, 2)]);
}

#[test]
fn contains_point_checks_every_cell() {
    let s = Snake::new(Point::new(5, 5), 3, Direction::Down);
    assert!(s.contains_point(&Point::new(5, 5)));
    assert!(s.contains_point(&Point::new(5, 3)));
    assert!(!s.contains_point(&Point::new(5, 6)));
    assert!(!s.contains_point(&Point::new(4, 4)));
}

#[test]
fn slither_keeps_length_without_a_meal() {
    let mut s = Snake::new(Point::new(5, 5), 3, Direction::Right);
    s.slither();
    assert_eq!(s.get_body_points(), vec![Point::new(6, 5), Point::new(5, 5), Point::new(4, 5)]);
}

#[test]
fn slither_after_grow_adds_one_cell_once() {
    let mut s = Snake::new(Point::new(5, 5), 3, Direction::Right);
    s.grow();
    s.grow();
    s.slither();
    assert_eq!(
        s.get_body_points(),
        vec![Point::new(6, 5), Point::new(5, 5), Point::new(4, 5), Point::new(3, 5)]
    );
    s.slither();
    assert_eq!(s.get_body_points().len(), 4);
    assert_eq!(s.get_head_point(), Point::new(7, 5));
}

#[test]
fn set_direction_steers_the_next_move() {
    let mut s = Snake::new(Point::new(5, 5), 2, Direction::Right);
    s.set_direction(Direction::Up);
    assert_eq!(s.get_direction(), Direction::Up);
    s.slither();
    assert_eq!(s.get_body_points(), vec![Point::new(5, 4), Point::new(5, 5)]);
    let c = Command::Turn(Direction::Left);
    assert_eq!(c, Command::Turn(Direction::Left));
}
