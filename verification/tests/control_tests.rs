use grid_puzzle::control::can_step;
use grid_puzzle::control::conflict_check;
use grid_puzzle::control::diagonal_step;
use grid_puzzle::control::move_cursor;
use grid_puzzle::control::puzzle_control;
use grid_puzzle::control::Keys;
use grid_puzzle::control::Outcome;
use grid_puzzle::control::Sound;
use grid_puzzle::control::Tint;
use grid_puzzle::control::Window;
use grid_puzzle::control::ACTION_WAIT_MS;
use grid_puzzle::control::MOVE_WAIT_MS;
use grid_puzzle::rotation::Rotation;
use grid_puzzle::selector::Point;
use grid_puzzle::selector::Selector;

const NONE: Keys =
    Keys { commit: false, rotate: false, left: false, right: false, up: false, down: false };

const WINDOW: Window = Window { width: 800, height: 600 };

fn at(x: i32, y: i32) -> Point {
    Point { x, y }
}

fn cursor(cells: Vec<u8>) -> Selector<2, 64> {
    Selector { rotation: Rotation::Up, conflict: false, pos: at(0, 0), puzzles: cells }
}

#[test]
fn tints_have_their_colours() {
    assert_eq!(Tint::Neutral.rgba(), (77, 162, 255, 64));
    assert_eq!(Tint::Warning.rgba(), (209, 145, 145, 128));
}

#[test]
fn rests_are_shorter_for_moves() {
    assert_eq!(ACTION_WAIT_MS, 200);
    assert_eq!(MOVE_WAIT_MS, 100);
}

#[test]
fn conflict_that_sets_in_warns() {
    let mut s: Selector<2, 64> = cursor(vec![0]);
    let tint: Option<Tint> = conflict_check(&mut s, at(10, 10), vec![at(20, 20)]);
    assert_eq!(tint, Some(Tint::Warning));
    assert!(s.conflict);
    assert_eq!(s.pos, at(10, 10));
}

#[test]
fn conflict_that_stays_gives_no_tint() {
    let mut s: Selector<2, 64> = cursor(vec![0]);
    s.conflict = true;
    assert_eq!(conflict_check(&mut s, at(10, 10), vec![at(20, 20)]), None);
    assert!(s.conflict);
    let mut free: Selector<2, 64> = cursor(vec![0]);
    assert_eq!(conflict_check(&mut free, at(10, 10), vec![at(200, 20)]), None);
    assert!(!free.conflict);
}

#[test]
fn conflict_that_ends_clears_the_tint() {
    let mut s: Selector<2, 64> = cursor(vec![0]);
    s.conflict = true;
    assert_eq!(conflict_check(&mut s, at(0, 0), vec![at(96, 0)]), Some(Tint::Neutral));
    assert!(!s.conflict);
}

#[test]
fn diagonal_step_is_the_step_over_root_two_rounded_down() {
    assert_eq!(diagonal_step(0), 0);
    assert_eq!(diagonal_step(1), 0);
    assert_eq!(diagonal_step(2), 1);
    assert_eq!(diagonal_step(3), 2);
    assert_eq!(diagonal_step(10), 7);
    assert_eq!(diagonal_step(64), 45);
    assert_eq!(diagonal_step(65535), 46340);
    assert_eq!(diagonal_step(u32::MAX), 3037000499);
}

#[test]
fn diagonal_step_is_never_longer_than_the_step() {
    for step in 0u32..2000 {
        let d: u64 = diagonal_step(step) as u64;
        let s: u64 = step as u64;
        assert!(2 * d * d <= s * s);
        assert!(s * s < 2 * (d + 1) * (d + 1));
    }
}

#[test]
fn a_move_along_an_axis_is_one_step() {
    let from: Point = at(10, -20);
    let right: Keys = Keys { right: true, ..NONE };
    assert_eq!(move_cursor::<2, 64>(from, &right, &WINDOW), (at(74, -20), true));
    let left: Keys = Keys { left: true, ..NONE };
    assert_eq!(move_cursor::<2, 64>(from, &left, &WINDOW), (at(-54, -20), true));
    let up: Keys = Keys { up: true, ..NONE };
    assert_eq!(move_cursor::<2, 64>(from, &up, &WINDOW), (at(10, 44), true));
    let down: Keys = Keys { down: true, ..NONE };
    assert_eq!(move_cursor::<2, 64>(from, &down, &WINDOW), (at(10, -84), true));
}

#[test]
fn a_move_out_of_the_window_is_not_made() {
    // The square is 192 wide: its middle may go up to (800 - 192) / 2 = 304
    // sideways and (600 - 192) / 2 = 204 upwards.
    let right: Keys = Keys { right: true, ..NONE };
    assert_eq!(move_cursor::<2, 64>(at(240, 0), &right, &WINDOW), (at(304, 0), true));
    assert_eq!(move_cursor::<2, 64>(at(241, 0), &right, &WINDOW), (at(241, 0), false));
    let left: Keys = Keys { left: true, ..NONE };
    assert_eq!(move_cursor::<2, 64>(at(-240, 0), &left, &WINDOW), (at(-304, 0), true));
    assert_eq!(move_cursor::<2, 64>(at(-241, 0), &left, &WINDOW), (at(-241, 0), false));
    let up: Keys = Keys { up: true, ..NONE };
    assert_eq!(move_cursor::<2, 64>(at(0, 140), &up, &WINDOW), (at(0, 204), true));
    assert_eq!(move_cursor::<2, 64>(at(0, 141), &up, &WINDOW), (at(0, 141), false));
    let down: Keys = Keys { down: true, ..NONE };
    assert_eq!(move_cursor::<2, 64>(at(0, -140), &down, &WINDOW), (at(0, -204), true));
    assert_eq!(move_cursor::<2, 64>(at(0, -141), &down, &WINDOW), (at(0, -141), false));
}

#[test]
fn a_window_of_odd_size_has_an_exact_half() {
    // 801 - 192 = 609: the middle may go up to 304.5.
    let window: Window = Window { width: 801, height: 600 };
    let right: Keys = Keys { right: true, ..NONE };
    assert_eq!(move_cursor::<2, 64>(at(240, 0), &right, &window), (at(304, 0), true));
    assert_eq!(move_cursor::<2, 64>(at(241, 0), &right, &window), (at(241, 0), false));
    let wider: Window = Window { width: 802, height: 600 };
    assert_eq!(move_cursor::<2, 64>(at(241, 0), &right, &wider), (at(305, 0), true));
}

#[test]
fn a_window_smaller_than_the_cursor_holds_no_move() {
    let window: Window = Window { width: 100, height: 100 };
    let right: Keys = Keys { right: true, ..NONE };
    assert_eq!(move_cursor::<2, 64>(at(0, 0), &right, &window), (at(0, 0), false));
    assert_eq!(move_cursor::<2, 64>(at(0, 0), &NONE, &window), (at(0, 0), false));
}

#[test]
fn a_diagonal_move_is_no_longer_than_a_step() {
    let keys: Keys = Keys { right: true, up: true, ..NONE };
    assert_eq!(move_cursor::<2, 64>(at(0, 0), &keys, &WINDOW), (at(45, 45), true));
    let keys: Keys = Keys { left: true, down: true, ..NONE };
    assert_eq!(move_cursor::<2, 64>(at(0, 0), &keys, &WINDOW), (at(-45, -45), true));
    let keys: Keys = Keys { left: true, up: true, ..NONE };
    assert_eq!(move_cursor::<2, 64>(at(0, 0), &keys, &WINDOW), (at(-45, 45), true));
    let keys: Keys = Keys { right: true, down: true, ..NONE };
    assert_eq!(move_cursor::<2, 64>(at(0, 0), &keys, &WINDOW), (at(45, -45), true));
}

#[test]
fn with_a_vertical_key_only_the_height_is_looked_at() {
    let keys: Keys = Keys { right: true, up: true, ..NONE };
    // Sideways the cursor leaves the window; upwards it stays.
    assert_eq!(move_cursor::<2, 64>(at(300, 0), &keys, &WINDOW), (at(345, 45), true));
    // Upwards it leaves; so nothing moves, though sideways there is room.
    assert_eq!(move_cursor::<2, 64>(at(0, 200), &keys, &WINDOW), (at(0, 200), false));
}

#[test]
fn opposite_keys_cancel() {
    let sideways: Keys = Keys { left: true, right: true, ..NONE };
    assert_eq!(move_cursor::<2, 64>(at(7, 7), &sideways, &WINDOW), (at(7, 7), true));
    let upright: Keys = Keys { up: true, down: true, right: true, ..NONE };
    // Up and down cancel, and the height is still what is looked at.
    assert_eq!(move_cursor::<2, 64>(at(400, 0), &upright, &WINDOW), (at(464, 0), true));
    assert_eq!(move_cursor::<2, 64>(at(0, 300), &upright, &WINDOW), (at(0, 300), false));
}

#[test]
fn a_frame_without_a_direction_is_a_move_of_no_length() {
    assert_eq!(move_cursor::<2, 64>(at(5, 900), &NONE, &WINDOW), (at(5, 900), true));
    assert_eq!(move_cursor::<2, 64>(at(305, 0), &NONE, &WINDOW), (at(305, 0), false));
}

#[test]
fn an_idle_frame_asks_for_nothing_but_the_rest_of_a_move() {
    let mut s: Selector<2, 64> = cursor(vec![0, 1]);
    let out: Outcome = puzzle_control(&mut s, at(0, 0), &NONE, &WINDOW);
    assert!(out.placed.is_empty());
    assert!(out.sounds.is_empty());
    assert_eq!(out.angle, None);
    assert_eq!(out.position, at(0, 0));
    assert_eq!(out.wait_ms, 100);
    assert_eq!(s.puzzles, vec![0, 1]);
    assert_eq!(s.rotation, Rotation::Up);
    let out: Outcome = puzzle_control(&mut s, at(1000, 0), &NONE, &WINDOW);
    assert_eq!(out.wait_ms, 0);
    assert_eq!(out.position, at(1000, 0));
}

#[test]
fn a_drop_in_conflict_places_nothing() {
    let mut s: Selector<2, 64> = cursor(vec![0, 4, 8]);
    s.conflict = true;
    let keys: Keys = Keys { commit: true, ..NONE };
    let out: Outcome = puzzle_control(&mut s, at(0, 0), &keys, &WINDOW);
    assert_eq!(out.placed.len(), 0);
    assert_eq!(out.sounds, vec![Sound::Error]);
    assert_eq!(out.angle, None);
    assert_eq!(out.wait_ms, 300);
    assert!(s.conflict);
    assert_eq!(s.puzzles, vec![0, 4, 8]);
}

#[test]
fn a_drop_out_of_conflict_places_each_cell_once() {
    let mut s: Selector<2, 64> = cursor(vec![0, 4, 8, 4]);
    s.pos = at(100, 100);
    let keys: Keys = Keys { commit: true, ..NONE };
    let out: Outcome = puzzle_control(&mut s, at(100, 100), &keys, &WINDOW);
    assert_eq!(out.placed.len(), 3);
    let places: Vec<Point> = out.placed.iter().map(|t| t.position).collect();
    assert_eq!(places, vec![at(36, 36), at(100, 100), at(164, 164)]);
    assert_eq!(out.sounds, vec![Sound::Drop]);
    assert_eq!(out.wait_ms, 300);
    assert_eq!(s.puzzles, vec![0, 4, 8, 4]);
    assert_eq!(s.pos, at(100, 100));
}

#[test]
fn a_drop_lands_where_the_cursor_was_checked() {
    let mut s: Selector<2, 64> = cursor(vec![4]);
    conflict_check(&mut s, at(64, 0), vec![]);
    let keys: Keys = Keys { commit: true, right: true, ..NONE };
    let out: Outcome = puzzle_control(&mut s, at(64, 0), &keys, &WINDOW);
    assert_eq!(out.placed.len(), 1);
    assert_eq!(out.placed[0].position, at(64, 0));
    assert_eq!(out.position, at(128, 0));
    assert_eq!(s.pos, at(64, 0));
}

#[test]
fn a_turn_turns_the_cursor() {
    let mut s: Selector<2, 64> = cursor(vec![0, 1, 2, 3, 4]);
    let keys: Keys = Keys { rotate: true, ..NONE };
    let out: Outcome = puzzle_control(&mut s, at(0, 0), &keys, &WINDOW);
    assert_eq!(out.angle, Some(90));
    assert_eq!(out.sounds, vec![Sound::Rotate]);
    assert!(out.placed.is_empty());
    assert_eq!(out.wait_ms, 300);
    assert_eq!(s.puzzles, vec![2, 5, 8, 1, 4]);
    assert_eq!(s.rotation, Rotation::Right);
}

#[test]
fn a_turn_works_in_conflict() {
    let mut s: Selector<2, 64> = cursor(vec![6]);
    s.conflict = true;
    let keys: Keys = Keys { rotate: true, ..NONE };
    let out: Outcome = puzzle_control(&mut s, at(0, 0), &keys, &WINDOW);
    assert_eq!(out.angle, Some(90));
    assert_eq!(s.puzzles, vec![0]);
    assert!(s.conflict);
}

#[test]
fn a_drop_comes_before_the_turn() {
    let mut s: Selector<2, 64> = cursor(vec![0]);
    let keys: Keys = Keys { commit: true, rotate: true, left: true, ..NONE };
    let out: Outcome = puzzle_control(&mut s, at(0, 0), &keys, &WINDOW);
    assert_eq!(out.placed.len(), 1);
    assert_eq!(out.placed[0].position, at(-64, -64));
    assert_eq!(out.placed[0].angle, 0);
    assert_eq!(out.sounds, vec![Sound::Drop, Sound::Rotate]);
    assert_eq!(out.angle, Some(90));
    assert_eq!(out.position, at(-64, 0));
    assert_eq!(out.wait_ms, 500);
    assert_eq!(s.puzzles, vec![2]);
}

#[test]
fn a_refused_move_costs_no_rest() {
    let mut s: Selector<2, 64> = cursor(vec![0]);
    let keys: Keys = Keys { right: true, ..NONE };
    let out: Outcome = puzzle_control(&mut s, at(304, 0), &keys, &WINDOW);
    assert_eq!(out.position, at(304, 0));
    assert_eq!(out.wait_ms, 0);
    let out: Outcome = puzzle_control(&mut s, at(240, 0), &keys, &WINDOW);
    assert_eq!(out.position, at(304, 0));
    assert_eq!(out.wait_ms, 100);
}

#[test]
fn the_placed_count_grows_by_the_cells_of_each_drop() {
    let mut s: Selector<2, 64> = cursor(vec![0, 1, 2, 3, 4]);
    let mut placed: Vec<Point> = Vec::new();
    let commit: Keys = Keys { commit: true, ..NONE };
    conflict_check(&mut s, at(0, 0), placed.clone());
    let out: Outcome = puzzle_control(&mut s, at(0, 0), &commit, &WINDOW);
    placed.extend(out.placed.iter().map(|t| t.position));
    assert_eq!(placed.len(), 5);
    // The cursor now stands over what it placed: a second drop is refused.
    conflict_check(&mut s, at(0, 0), placed.clone());
    assert!(s.conflict);
    let out: Outcome = puzzle_control(&mut s, at(0, 0), &commit, &WINDOW);
    placed.extend(out.placed.iter().map(|t| t.position));
    assert_eq!(placed.len(), 5);
    assert_eq!(out.sounds, vec![Sound::Error]);
}

#[test]
fn tints_are_colours_of_the_engine() {
    assert_eq!(Tint::Neutral.color(), bevy::color::Color::srgba_u8(77, 162, 255, 64));
    assert_eq!(Tint::Warning.color(), bevy::color::Color::srgba_u8(209, 145, 145, 128));
    assert_ne!(Tint::Neutral.color(), Tint::Warning.color());
}

#[test]
fn tints_hold_their_channels_out_of_255() {
    let neutral = Tint::Neutral.color().to_srgba();
    assert_eq!(neutral.red, 77.0 / 255.0);
    assert_eq!(neutral.green, 162.0 / 255.0);
    assert_eq!(neutral.blue, 1.0);
    assert_eq!(neutral.alpha, 64.0 / 255.0);
    let warning = Tint::Warning.color().to_srgba();
    assert_eq!(warning.red, 209.0 / 255.0);
    assert_eq!(warning.green, 145.0 / 255.0);
    assert_eq!(warning.blue, 145.0 / 255.0);
    assert_eq!(warning.alpha, 128.0 / 255.0);
}

#[test]
fn a_step_must_stay_on_the_axes() {
    assert!(can_step::<64>(at(0, 0)));
    assert!(can_step::<64>(at(i32::MAX - 64, i32::MIN + 64)));
    assert!(!can_step::<64>(at(i32::MAX - 63, 0)));
    assert!(!can_step::<64>(at(0, i32::MIN + 63)));
    assert!(can_step::<0>(at(i32::MAX, i32::MIN)));
}
