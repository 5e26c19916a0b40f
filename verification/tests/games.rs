use asterism::collision::CollisionData;
use asterism::framebuffer::{draw_rect, HEIGHT, WIDTH};
use asterism::jumper::{action_occurs, InputState};
use asterism::maze::{Collectible, MazeResources, Wall};
use asterism::omnipaddles::{BounceWall, CollisionEvent};
use asterism::paddles::{
    ActionID, BallID, CollisionEnt, EntID, PaddleID, RsrcPool, Score, ScoreID, State, UserQueryID, WallID,
};
use asterism::physics::PhysicsEvent;

const FRAME_LEN: usize = WIDTH as usize * HEIGHT as usize * 4;

fn byte(frame: &[u8], x: usize, y: usize, ch: usize) -> u8 {
    frame[4 * (WIDTH as usize * y + x) + ch]
}

#[test]
fn draw_rect_fills_exactly_the_rectangle() {
    let mut frame = vec![0u8; FRAME_LEN];
    draw_rect(2, 3, 4, 2, [1, 2, 3, 4], &mut frame);
    for y in 0..HEIGHT as usize {
        for x in 0..WIDTH as usize {
            let inside = (2..6).contains(&x) && (3..5).contains(&y);
            for ch in 0..4 {
                let want = if inside { [1u8, 2, 3, 4][ch] } else { 0 };
                assert_eq!(byte(&frame, x, y, ch), want, "pixel {} {} channel {}", x, y, ch);
            }
        }
    }
}

#[test]
fn draw_rect_is_cut_to_the_frame() {
    let mut frame = vec![9u8; FRAME_LEN];
    draw_rect(255, 250, 10, 10, [7, 7, 7, 7], &mut frame);
    // x is cut to 254, the width to 1; y stays 250, the height is cut to 5
    let painted = frame.iter().filter(|b| **b == 7).count();
    assert_eq!(painted, 5 * 4);
    assert_eq!(byte(&frame, 254, 250, 0), 7);
    assert_eq!(byte(&frame, 254, 254, 3), 7);
    assert_eq!(byte(&frame, 253, 250, 0), 9);
}

#[test]
fn draw_rect_of_zero_size_changes_nothing() {
    let mut frame = vec![5u8; FRAME_LEN];
    draw_rect(10, 10, 0, 4, [0, 0, 0, 0], &mut frame);
    draw_rect(10, 10, 4, 0, [0, 0, 0, 0], &mut frame);
    assert!(frame.iter().all(|b| *b == 5));
}

#[test]
fn draw_rect_needs_only_the_rows_it_paints() {
    // a frame just long enough for the rectangle
    let mut frame = vec![0u8; 4 * (WIDTH as usize * 1 + 3)];
    draw_rect(1, 0, 2, 2, [8, 8, 8, 8], &mut frame);
    assert_eq!(byte(&frame, 1, 1, 0), 8);
    assert_eq!(byte(&frame, 2, 1, 3), 8);
    assert_eq!(byte(&frame, 0, 1, 0), 0);
}

#[test]
fn maze_update_adds_score_and_removes_item() {
    let walls = vec![Wall::new(0, 0, 1, 1), Wall::new(5, 5, 2, 2)];
    let mut items = vec![Collectible::new(1, 1), Collectible::new(2, 2), Collectible::new(3, 3)];
    let mut r = MazeResources::new();
    assert_eq!((r.score, r.score_change, r.touched_item), (0, 0, None));
    r.score = 4;
    r.score_change = 10;
    r.touched_item = Some(3);
    r.update(&mut items, &walls);
    assert_eq!(r.score, 14);
    assert_eq!(r.score_change, 0);
    assert_eq!(r.touched_item, None);
    let left: Vec<(i16, i16)> = items.iter().map(|c| (c.x, c.y)).collect();
    assert_eq!(left, vec![(1, 1), (3, 3)]);
}

#[test]
fn maze_update_without_touch_keeps_items() {
    let walls = vec![Wall::new(0, 0, 1, 1)];
    let mut items = vec![Collectible::new(1, 1)];
    let mut r = MazeResources::new();
    r.score_change = 3;
    r.update(&mut items, &walls);
    assert_eq!(r.score, 3);
    assert_eq!(items.len(), 1);
    assert_eq!((walls[0].x, walls[0].y, walls[0].w, walls[0].h), (0, 0, 1, 1));
}

#[test]
fn paddles_ids_give_back_their_index() {
    assert_eq!(PaddleID::new(3).idx(), 3);
    assert_eq!(WallID::new(4).idx(), 4);
    assert_eq!(BallID::new(5).idx(), 5);
    assert_eq!(ScoreID::new(6).idx(), 6);
    assert_eq!(ActionID::new(7).idx(), 7);
    assert_eq!(UserQueryID::new(8).idx(), 8);
    assert!(ScoreID::new(1) < ScoreID::new(2));
    assert_eq!(RsrcPool::Score(ScoreID::new(1)), RsrcPool::Score(ScoreID::new(1)));
}

#[test]
fn score_starts_at_zero_and_is_set() {
    let mut s = Score::new();
    assert_eq!(s.value, 0);
    s.set_value(42);
    assert_eq!(s.value, 42);
    assert_eq!(Score::MIN, 0);
    assert_eq!(Score::MAX, u16::MAX);
}

#[test]
fn omnipaddles_records() {
    assert_eq!(BounceWall::new(2).0, 2);
    let e = CollisionEvent::new('a', 'b');
    assert!(e == CollisionEvent('a', 'b'));
    assert!(CollisionEvent::new(1, 2) < CollisionEvent::new(2, 0));
}

#[test]
fn collision_data_default_is_neither_solid_nor_fixed() {
    let d: CollisionData<u8> = CollisionData::default();
    assert!(!d.solid && !d.fixed);
    assert_eq!(d.id, 0);
    assert_ne!(PhysicsEvent::VelChange, PhysicsEvent::PosChange);
}

#[test]
fn action_occurs_for_pressed_only_when_new() {
    let last = [3u8, 4];
    assert!(!action_occurs(3u8, &InputState::Pressed, &last));
    assert!(action_occurs(5u8, &InputState::Pressed, &last));
    assert!(!action_occurs(4u8, &InputState::Released, &last));
    assert!(action_occurs(3u8, &InputState::On, &last));
    assert!(action_occurs(3u8, &InputState::Off, &last));
}

#[test]
fn add_control_map_numbers_controls_by_index() {
    let mut controls: Vec<(ActionID, char, bool)> = Vec::new();
    let a = asterism::paddles::add_control_map(&mut controls, 'w', true);
    let b = asterism::paddles::add_control_map(&mut controls, 's', false);
    assert_eq!(a.idx(), 0);
    assert_eq!(b.idx(), 1);
    assert_eq!(controls.len(), 2);
    assert!(controls[1].0 == b && controls[1].1 == 's' && !controls[1].2);
}

#[test]
fn drawing_a_rectangle_twice_is_drawing_it_once() {
    let mut once = vec![3u8; FRAME_LEN];
    draw_rect(10, 20, 30, 40, [9, 8, 7, 6], &mut once);
    let mut twice = once.clone();
    draw_rect(10, 20, 30, 40, [9, 8, 7, 6], &mut twice);
    assert_eq!(once, twice);
}

fn paddles_state() -> State {
    let mut s = State::new();
    s.paddles = vec![PaddleID::new(0), PaddleID::new(1)];
    s.walls = vec![WallID::new(0), WallID::new(1), WallID::new(2)];
    s.balls = vec![BallID::new(0)];
    s
}

#[test]
fn collision_indices_put_paddles_then_walls_then_balls() {
    let s = paddles_state();
    assert_eq!(s.get_col_idx(1, CollisionEnt::Paddle), 1);
    assert_eq!(s.get_col_idx(0, CollisionEnt::Wall), 2);
    assert_eq!(s.get_col_idx(2, CollisionEnt::Wall), 4);
    assert_eq!(s.get_col_idx(0, CollisionEnt::Ball), 5);
}

#[test]
fn collision_index_names_its_object() {
    let s = paddles_state();
    assert!(s.get_id(0) == EntID::Paddle(PaddleID::new(0)));
    assert!(s.get_id(1) == EntID::Paddle(PaddleID::new(1)));
    assert!(s.get_id(3) == EntID::Wall(WallID::new(1)));
    assert!(s.get_id(5) == EntID::Ball(BallID::new(0)));
    for i in 0..3 {
        assert!(s.get_id(s.get_col_idx(i, CollisionEnt::Wall)) == EntID::Wall(WallID::new(i)));
    }
}
