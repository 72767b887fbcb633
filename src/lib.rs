//! A snake game on a bordered grid: geometry and the snake's body in
//! `objects`, the tick state machine and the frame renderer in `game`.

pub mod game;
pub mod objects;
