use snake::game::Game;
use snake::objects::Command;
use snake::objects::Direction;
use snake::objects::Point;

fn head(g: &Game) -> Point {
    g.snake().get_head_point()
}

fn frame(g: &Game) -> String {
    String::from_utf16(g.screen_buffer()).unwrap()
}

#[test]
fn default_board_starts_in_the_middle() {
    for d in 0..4u16 {
        let g = Game::default(d);
        assert_eq!(g.width(), 30);
        assert_eq!(g.height(), 10);
        assert_eq!(g.speed(), 2);
        assert_eq!(g.score(), 0);
        assert_eq!(g.food(), None);
        assert_eq!(head(&g), Point::new(15, 5));
        assert_eq!(g.snake().get_body_points().len(), 3);
        assert_eq!(g.screen_buffer_len(), 30 * 10 + 30 + 10);
    }
    assert_eq!(Game::default(0).snake().get_direction(), Direction::Up);
    assert_eq!(Game::default(1).snake().get_direction(), Direction::Right);
    assert_eq!(Game::default(2).snake().get_direction(), Direction::Down);
    assert_eq!(Game::default(3).snake().get_direction(), Direction::Left);
    assert_eq!(Game::default(9).snake().get_direction(), Direction::Left);
}

#[test]
fn one_tick_moves_the_head_one_cell() {
    let expected = [Point::new(15, 4), Point::new(16, 5), Point::new(15, 6), Point::new(14, 5)];
    for d in 0..4u16 {
        let mut g = Game::default(d);
        assert!(g.place_food(2, 2));
        assert!(!g.tick(None));
        assert_eq!(head(&g), expected[d as usize]);
        assert_eq!(g.snake().get_body_points().len(), 3);
        assert_eq!(g.score(), 0);
    }
}

#[test]
fn speed_is_clamped_and_sets_the_interval() {
    assert_eq!(Game::new(30, 10, 2, 0).calculate_interval(), 650);
    assert_eq!(Game::new(30, 10, 0, 0).calculate_interval(), 700);
    assert_eq!(Game::new(30, 10, 20, 0).calculate_interval(), 200);
    let g = Game::new(30, 10, 25, 0);
    assert_eq!(g.speed(), 20);
    assert_eq!(g.calculate_interval(), 200);
}

#[test]
fn food_is_only_placed_on_free_cells() {
    let mut g = Game::new(30, 10, 2, 1);
    assert!(!g.place_food(0, 3));
    assert!(!g.place_food(29, 3));
    assert!(!g.place_food(3, 9));
    assert!(!g.place_food(15, 5));
    assert!(!g.place_food(14, 5));
    assert_eq!(g.food(), None);
    assert!(g.place_food(28, 8));
    assert_eq!(g.food(), Some(Point::new(28, 8)));
    assert!(g.place_food(3, 3));
    assert_eq!(g.food(), Some(Point::new(28, 8)));
}

#[test]
fn reversal_and_same_heading_are_ignored() {
    let mut g = Game::new(30, 10, 2, 1);
    assert!(!g.tick(Some(Command::Turn(Direction::Left))));
    assert_eq!(g.snake().get_direction(), Direction::Right);
    assert_eq!(head(&g), Point::new(16, 5));
    assert!(!g.tick(Some(Command::Turn(Direction::Right))));
    assert_eq!(g.snake().get_direction(), Direction::Right);
    assert!(!g.tick(Some(Command::Turn(Direction::Down))));
    assert_eq!(g.snake().get_direction(), Direction::Down);
    assert_eq!(head(&g), Point::new(17, 6));
}

#[test]
fn wall_is_hit_one_cell_before_the_border() {
    // up: the check fires on row 1
    let mut g = Game::new(30, 10, 2, 0);
    for y in [4u16, 3, 2, 1] {
        assert!(!g.has_collided_with_wall());
        assert!(!g.tick(None));
        assert_eq!(head(&g).y, y);
    }
    assert!(g.has_collided_with_wall());
    assert!(g.tick(None));
    assert_eq!(head(&g), Point::new(15, 1));
    // down: the check fires on row height - 1
    let mut g = Game::new(30, 10, 2, 2);
    for _ in 0..4 {
        assert!(!g.tick(None));
    }
    assert_eq!(head(&g).y, 9);
    assert!(g.has_collided_with_wall());
    assert!(g.tick(None));
    // left: the check fires on column 1
    let mut g = Game::new(30, 10, 2, 3);
    for _ in 0..14 {
        assert!(!g.tick(None));
    }
    assert_eq!(head(&g).x, 1);
    assert!(g.tick(None));
}

#[test]
fn collision_with_the_right_wall_after_growing() {
    let mut g = Game::new(30, 10, 2, 1);
    assert!(g.place_food(16, 5));
    assert!(!g.tick(None));
    assert_eq!(g.score(), 1);
    assert!(g.place_food(1, 1));
    while head(&g).x < 27 {
        assert!(!g.tick(None));
    }
    assert_eq!(g.snake().get_body_points().len(), 4);
    assert_eq!(head(&g), Point::new(27, 5));
    assert!(!g.has_collided_with_wall());
    assert!(!g.tick(None));
    assert_eq!(head(&g), Point::new(28, 5));
    assert!(g.has_collided_with_wall());
    let before = g.snake().get_body_points();
    assert!(g.tick(None));
    assert_eq!(g.snake().get_body_points(), before);
}

#[test]
fn speed_rises_on_every_second_point() {
    let mut g = Game::new(30, 10, 2, 1);
    assert!(g.place_food(16, 5));
    assert!(!g.tick(None));
    assert_eq!(g.score(), 1);
    assert_eq!(g.speed(), 2);
    assert_eq!(g.food(), None);
    assert!(g.place_food(18, 5));
    assert!(!g.tick(None));
    assert_eq!(g.score(), 1);
    assert!(!g.tick(None));
    assert_eq!(g.score(), 2);
    assert_eq!(g.speed(), 3);
}

#[test]
fn speed_stays_at_the_highest() {
    let mut g = Game::new(30, 10, 20, 1);
    assert!(g.place_food(16, 5));
    assert!(!g.tick(None));
    assert!(g.place_food(17, 5));
    assert!(!g.tick(None));
    assert_eq!(g.score(), 2);
    assert_eq!(g.speed(), 20);
    assert_eq!(g.snake().get_body_points().len(), 4);
}

#[test]
fn running_into_the_body_ends_the_game() {
    let mut g = Game::new(30, 10, 2, 1);
    for x in [16u16, 17, 18] {
        assert!(g.place_food(x, 5));
        assert!(!g.tick(None));
    }
    assert_eq!(g.score(), 3);
    assert!(g.place_food(1, 1));
    assert!(!g.tick(Some(Command::Turn(Direction::Down))));
    assert!(!g.tick(Some(Command::Turn(Direction::Left))));
    assert_eq!(g.snake().get_body_points().len(), 6);
    assert!(!g.has_collided_with_wall());
    let before = g.snake().get_body_points();
    assert!(g.tick(Some(Command::Turn(Direction::Up))));
    assert_eq!(g.snake().get_body_points(), before);
    assert_eq!(g.snake().get_direction(), Direction::Up);
}

#[test]
fn draw_renders_border_snake_and_food() {
    let mut g = Game::new(6, 5, 0, 0);
    assert!(g.place_food(1, 1));
    g.draw();
    let expected = "######\n#•   #\n#  O #\n#  ║ #\n#  ║ #\n######";
    assert_eq!(frame(&g), expected);
    assert_eq!(g.screen_buffer_len(), 41);
}

#[test]
fn draw_renders_a_corner() {
    let mut g = Game::new(6, 5, 0, 0);
    assert!(!g.tick(Some(Command::Turn(Direction::Right))));
    assert_eq!(head(&g), Point::new(4, 2));
    g.draw();
    let expected = "######\n#    #\n#  ╔O#\n#  ║ #\n#    #\n######";
    assert_eq!(frame(&g), expected);
}

#[test]
fn draw_renders_the_other_corners() {
    let mut g = Game::new(8, 8, 0, 1);
    // head (4,4) facing right; turn down, then left, then up
    assert!(!g.tick(Some(Command::Turn(Direction::Down))));
    g.draw();
    let f = frame(&g);
    let rows: Vec<&str> = f.split('\n').collect();
    assert_eq!(rows[4], "#  ═╗  #");
    assert_eq!(rows[5], "#   O  #");
    assert!(!g.tick(Some(Command::Turn(Direction::Left))));
    g.draw();
    let f = frame(&g);
    let rows: Vec<&str> = f.split('\n').collect();
    assert_eq!(rows[4], "#   ║  #");
    assert_eq!(rows[5], "#  O╝  #");
    assert!(!g.tick(Some(Command::Turn(Direction::Up))));
    g.draw();
    let f = frame(&g);
    let rows: Vec<&str> = f.split('\n').collect();
    assert_eq!(rows[4], "#  O   #");
    assert_eq!(rows[5], "#  ╚═  #");
}
