//! One frame of the game: the check for a conflict, and what the pressed keys
//! place, turn and move.
use vstd::prelude::*;
use bevy::color::Color;
use crate::grid::footprint_width;
use crate::selector::cell_set;
use crate::selector::cells_in_pattern;
use crate::selector::lemma_one_piece_per_cell;
use crate::selector::placements;
use crate::selector::Point;
use crate::selector::Selector;
use crate::selector::SelectorView;
use crate::selector::Transform;

verus! {

/// Milliseconds for which the game rests after a drop, accepted or not, and
/// after a turn.
pub const ACTION_WAIT_MS: u64 = 200;

/// Milliseconds for which the game rests after a move.
pub const MOVE_WAIT_MS: u64 = 100;

/// What the player holds down in a frame.
#[derive(Clone, Copy, Debug, PartialEq, Eq, Structural)]
pub struct Keys {
    /// Drop the cells that the cursor carries.
    pub commit: bool,
    /// Turn the cursor by a quarter.
    pub rotate: bool,
    pub left: bool,
    pub right: bool,
    pub up: bool,
    pub down: bool,
}

/// Size of the window in pixels.
#[derive(Clone, Copy, Debug, PartialEq, Eq, Structural)]
pub struct Window {
    pub width: u32,
    pub height: u32,
}

/// A sound with which the game answers a key.
#[derive(Clone, Copy, Debug, PartialEq, Eq, Structural)]
pub enum Sound {
    /// A drop was refused.
    Error,
    /// A drop placed its pieces.
    Drop,
    /// The cursor turned.
    Rotate,
}

/// Colour of the cursor.
#[derive(Clone, Copy, Debug, PartialEq, Eq, Structural)]
pub enum Tint {
    /// The cursor is free to drop.
    Neutral,
    /// The cursor stands over a placed piece.
    Warning,
}

/// What a frame asks of the game's surroundings.
#[derive(Debug)]
pub struct Outcome {
    /// Pieces to place for good, in the order of their cells.
    pub placed: Vec<Transform>,
    /// Sounds to play, in their order.
    pub sounds: Vec<Sound>,
    /// The angle in degrees to which the cursor turned, where it did.
    pub angle: Option<i16>,
    /// Where the cursor stands after the frame.
    pub position: Point,
    /// Milliseconds for which the game rests before the next frame.
    pub wait_ms: u64,
}

/// The engine's colour type. Nothing of what a colour holds is read here.
#[verifier::external_type_specification]
#[verifier::external_body]
pub struct ExColor(bevy::color::Color);

/// The colour that the engine makes of a red, a green, a blue and an opacity
/// channel, each out of 255.
pub uninterp spec fn srgba_color(red: u8, green: u8, blue: u8, alpha: u8) -> Color;

/// Calls `Color::srgba_u8` of bevy, which stores each channel divided by 255 as
/// an sRGB colour with opacity. The contract claims that the colour depends on
/// the four channels alone, and gives it its name.
#[verifier::external_body]
fn srgba_u8(red: u8, green: u8, blue: u8, alpha: u8) -> (color: Color)
    ensures
        color == srgba_color(red, green, blue, alpha),
{
    Color::srgba_u8(red, green, blue, alpha)
}

impl Tint {
    /// The tint as a colour of the engine.
    pub fn color(&self) -> (color: Color)
        ensures
            color == srgba_color(
                self.spec_rgba().0,
                self.spec_rgba().1,
                self.spec_rgba().2,
                self.spec_rgba().3,
            ),
    {
        let (red, green, blue, alpha): (u8, u8, u8, u8) = self.rgba();
        srgba_u8(red, green, blue, alpha)
    }

    /// Red, green, blue and opacity of the tint, each out of 255.
    pub open spec fn spec_rgba(&self) -> (u8, u8, u8, u8) {
        match self {
            Tint::Neutral => (77u8, 162u8, 255u8, 64u8),
            Tint::Warning => (209u8, 145u8, 145u8, 128u8),
        }
    }

    /// Red, green, blue and opacity of the tint, each out of 255.
    #[verifier::when_used_as_spec(spec_rgba)]
    pub fn rgba(&self) -> (channels: (u8, u8, u8, u8))
        ensures
            channels == self.spec_rgba(),
    {
        match self {
            Tint::Neutral => (77, 162, 255, 64),
            Tint::Warning => (209, 145, 145, 128),
        }
    }
}

/// The tint that the cursor takes when its conflict goes from `before` to
/// `after`: none while the conflict stays, the warning tint when it sets in,
/// the neutral one when it ends.
pub open spec fn tint_change(before: bool, after: bool) -> Option<Tint> {
    if before == after {
        None
    } else if after {
        Some(Tint::Warning)
    } else {
        Some(Tint::Neutral)
    }
}

/// Checks the cursor, standing at `position`, against the placed pieces at
/// `puzzle_pos`, and returns the tint to give it where its conflict changed.
pub fn conflict_check<const LEVEL: u8, const CELL: u16>(
    cursor: &mut Selector<LEVEL, CELL>,
    position: Point,
    puzzle_pos: Vec<Point>,
) -> (tint: Option<Tint>)
    requires
        Selector::<LEVEL, CELL>::configured(),
    ensures
        final(cursor)@ == old(cursor)@.checked(
            LEVEL as int,
            CELL as int,
            position,
            puzzle_pos@,
        ),
        tint == tint_change(old(cursor).conflict, final(cursor).conflict),
        old(cursor).wf() ==> final(cursor).wf(),
{
    let orig_conflict: bool = cursor.conflict;
    cursor.check_conflict(position, puzzle_pos);
    if orig_conflict != cursor.conflict {
        Some(if cursor.conflict { Tint::Warning } else { Tint::Neutral })
    } else {
        None
    }
}

/// Steps to the right that the held keys ask for: 1, 0 or -1. Keys of
/// opposite directions cancel.
pub open spec fn dir_x(keys: Keys) -> int {
    (if keys.right { 1int } else { 0int }) - (if keys.left { 1int } else { 0int })
}

/// Steps upwards that the held keys ask for: 1, 0 or -1.
pub open spec fn dir_y(keys: Keys) -> int {
    (if keys.up { 1int } else { 0int }) - (if keys.down { 1int } else { 0int })
}

/// Whether `d` is the whole number of pixels that a diagonal move of length
/// `step` covers on each axis: the largest whose diagonal is no longer than
/// `step`.
pub open spec fn is_diagonal_stride(step: int, d: int) -> bool {
    &&& 0 <= d
    &&& 2 * (d * d) <= step * step
    &&& step * step < 2 * ((d + 1) * (d + 1))
}

/// The pixels that a diagonal move of length `step` covers on each axis.
pub open spec fn diagonal_stride(step: int) -> int {
    choose|d: int| is_diagonal_stride(step, d)
}

/// The pixels that a move covers on each axis on which the keys ask for one:
/// the step along an axis, the diagonal stride where both axes are asked for.
pub open spec fn stride(step: int, keys: Keys) -> int {
    if dir_x(keys) != 0 && dir_y(keys) != 0 {
        diagonal_stride(step)
    } else {
        step
    }
}

/// Horizontal coordinate that the held keys ask the cursor to move to.
pub open spec fn candidate_x(step: int, from: Point, keys: Keys) -> int {
    from.x + dir_x(keys) * stride(step, keys)
}

/// Vertical coordinate that the held keys ask the cursor to move to.
pub open spec fn candidate_y(step: int, from: Point, keys: Keys) -> int {
    from.y + dir_y(keys) * stride(step, keys)
}

/// Whether a square of side `width` whose middle has the given coordinate
/// lies within a window of the given extent on that axis, the origin being the
/// middle of the window. All sides are doubled, so that no half is taken.
pub open spec fn within(width: int, extent: int, coordinate: int) -> bool {
    width - extent <= 2 * coordinate <= extent - width
}

/// Whether the move that the keys ask for is made. With the up or the down
/// key held, the cursor's square must stay within the height of the window;
/// otherwise within its width. The other axis is not looked at.
pub open spec fn move_applies(level: int, cell: int, window: Window, from: Point, keys: Keys) -> bool {
    if keys.up || keys.down {
        within(footprint_width(level, cell), window.height as int, candidate_y(cell, from, keys))
    } else {
        within(footprint_width(level, cell), window.width as int, candidate_x(cell, from, keys))
    }
}

/// Where the cursor stands after the keys were held at `from`: at the place
/// they ask for where the move is made, at `from` where it is not.
pub open spec fn moved_to(level: int, cell: int, window: Window, from: Point, keys: Keys) -> Point {
    if move_applies(level, cell, window, from, keys) {
        Point {
            x: candidate_x(cell, from, keys) as i32,
            y: candidate_y(cell, from, keys) as i32,
        }
    } else {
        from
    }
}

/// Whether a step from `from` along either axis has coordinates that an `i32`
/// holds.
pub open spec fn step_fits(cell: int, from: Point) -> bool {
    &&& i32::MIN <= from.x - cell
    &&& from.x + cell <= i32::MAX
    &&& i32::MIN <= from.y - cell
    &&& from.y + cell <= i32::MAX
}

/// Whether a step from `from` along either axis has coordinates that an `i32`
/// holds, the step being `CELL` pixels long.
pub fn can_step<const CELL: u16>(from: Point) -> (ok: bool)
    ensures
        ok == step_fits(CELL as int, from),
{
    let cell: i64 = CELL as i64;
    let x: i64 = from.x as i64;
    let y: i64 = from.y as i64;
    x - cell >= i32::MIN as i64 && x + cell <= i32::MAX as i64 && y - cell >= i32::MIN as i64 && y
        + cell <= i32::MAX as i64
}

/// A step has one diagonal stride only.
pub proof fn lemma_diagonal_stride_unique(step: int, a: int, b: int)
    requires
        is_diagonal_stride(step, a),
        is_diagonal_stride(step, b),
    ensures
        a == b,
{
    if a < b {
        assert((a + 1) * (a + 1) <= b * b) by (nonlinear_arith)
            requires
                0 <= a,
                a + 1 <= b,
        ;
    }
    if b < a {
        assert((b + 1) * (b + 1) <= a * a) by (nonlinear_arith)
            requires
                0 <= b,
                b + 1 <= a,
        ;
    }
}

/// The pixels that a diagonal move of length `step` covers on each axis: the
/// largest whole number whose diagonal is no longer than `step`.
pub fn diagonal_step(step: u32) -> (d: u32)
    ensures
        is_diagonal_stride(step as int, d as int),
        d == diagonal_stride(step as int),
        d <= step,
{
    assert(step * step <= 0xffff_ffff * 0xffff_ffff) by (nonlinear_arith)
        requires
            0 <= step <= 0xffff_ffff,
    ;
    let square: u64 = (step as u64) * (step as u64);
    let half: u64 = square / 2;
    let mut low: u64 = 0;
    let mut high: u64 = step as u64;
    assert(2 * (0int * 0int) <= step * step) by (nonlinear_arith);
    assert(step * step < 2 * ((step + 1) * (step + 1))) by (nonlinear_arith)
        requires
            0 <= step,
    ;
    while low < high
        invariant
            square == step * step,
            half == square / 2,
            low <= high <= step,
            2 * (low * low) <= square,
            square < 2 * ((high + 1) * (high + 1)),
        decreases high - low,
    {
        let mid: u64 = low + (high - low + 1) / 2;
        assert(mid * mid <= 0xffff_ffff * 0xffff_ffff) by (nonlinear_arith)
            requires
                mid <= 0xffff_ffff,
        ;
        if mid * mid <= half {
            low = mid;
        } else {
            high = mid - 1;
        }
    }
    proof {
        assert(is_diagonal_stride(step as int, low as int));
        assert(is_diagonal_stride(step as int, diagonal_stride(step as int)));
        lemma_diagonal_stride_unique(step as int, low as int, diagonal_stride(step as int));
    }
    low as u32
}

/// Moves the cursor as the held keys ask: by one step along an axis, or by the
/// diagonal stride along both, where its square then stays within the window
/// on the axis that is looked at. Returns where the cursor stands afterwards
/// and whether the move was made. A frame without a direction asks for a move
/// of no length, which is made like any other.
pub fn move_cursor<const LEVEL: u8, const CELL: u16>(
    position: Point,
    keys: &Keys,
    window: &Window,
) -> (moved: (Point, bool))
    requires
        Selector::<LEVEL, CELL>::configured(),
        step_fits(CELL as int, position),
    ensures
        moved.1 == move_applies(LEVEL as int, CELL as int, *window, position, *keys),
        moved.0 == moved_to(LEVEL as int, CELL as int, *window, position, *keys),
{
    let mut dir_h: i64 = 0;
    let mut dir_v: i64 = 0;
    let mut x_movement: bool = true;
    if keys.left {
        dir_h = dir_h - 1;
    }
    if keys.right {
        dir_h = dir_h + 1;
    }
    if keys.up {
        dir_v = dir_v + 1;
        x_movement = false;
    }
    if keys.down {
        dir_v = dir_v - 1;
        x_movement = false;
    }
    let step: u32 = Selector::<LEVEL, CELL>::step();
    let length: i64 = if dir_h != 0 && dir_v != 0 {
        diagonal_step(step) as i64
    } else {
        step as i64
    };
    assert(-length <= dir_h * length <= length && -length <= dir_v * length <= length)
        by (nonlinear_arith)
        requires
            -1 <= dir_h <= 1,
            -1 <= dir_v <= 1,
            0 <= length,
    ;
    let new_x: i64 = position.x as i64 + dir_h * length;
    let new_y: i64 = position.y as i64 + dir_v * length;
    let image: i64 = Selector::<LEVEL, CELL>::width() as i64;
    let inside: bool = if x_movement {
        let extent: i64 = window.width as i64;
        2 * new_x >= image - extent && 2 * new_x <= extent - image
    } else {
        let extent: i64 = window.height as i64;
        2 * new_y >= image - extent && 2 * new_y <= extent - image
    };
    if inside {
        (Point { x: new_x as i32, y: new_y as i32 }, true)
    } else {
        (position, false)
    }
}

/// The pieces that the held keys place: those of the cursor's cells where a
/// drop is asked for and the cursor is free of conflict, none otherwise.
pub open spec fn placed_by(level: int, cell: int, cursor: SelectorView, keys: Keys) -> Seq<Transform> {
    if keys.commit && !cursor.conflict {
        placements(level, cell, cursor.pos, cursor.rotation.spec_angle(), cursor.puzzles)
    } else {
        Seq::empty()
    }
}

/// The sounds that answer the held keys: for a drop the sound of a drop, or
/// that of an error where the cursor is in conflict; then the sound of a turn.
pub open spec fn sounds_of(cursor: SelectorView, keys: Keys) -> Seq<Sound> {
    let dropped = if !keys.commit {
        Seq::<Sound>::empty()
    } else if cursor.conflict {
        seq![Sound::Error]
    } else {
        seq![Sound::Drop]
    };
    if keys.rotate {
        dropped.push(Sound::Rotate)
    } else {
        dropped
    }
}

/// The cursor after the held keys were served: turned where a turn is asked
/// for, as it was otherwise.
pub open spec fn cursor_after(level: int, cursor: SelectorView, keys: Keys) -> SelectorView {
    if keys.rotate {
        cursor.turned(level)
    } else {
        cursor
    }
}

/// Milliseconds for which the game rests after the held keys were served: the
/// rest of an action for a drop, asked for with or without success, and for a
/// turn, and the rest of a move where the move is made.
pub open spec fn wait_of(keys: Keys, moved: bool) -> int {
    (if keys.commit { ACTION_WAIT_MS as int } else { 0 })
    + (if keys.rotate { ACTION_WAIT_MS as int } else { 0 })
    + (if moved { MOVE_WAIT_MS as int } else { 0 })
}

/// Serves the keys held in one frame, with the cursor drawn at `position`.
///
/// A drop places the pieces of the cursor's cells, unless the cursor is in
/// conflict: then nothing is placed and the sound of an error is asked for.
/// A turn turns the cursor and reports the new angle. Then the cursor moves as
/// [`move_cursor`] says. What is placed is placed before the turn, where the
/// cursor was last checked.
pub fn puzzle_control<const LEVEL: u8, const CELL: u16>(
    cursor: &mut Selector<LEVEL, CELL>,
    position: Point,
    keys: &Keys,
    window: &Window,
) -> (out: Outcome)
    requires
        Selector::<LEVEL, CELL>::configured(),
        keys.commit && !old(cursor).conflict ==> old(cursor).reach_fits(),
        keys.rotate ==> Selector::<LEVEL, CELL>::supported() && old(cursor).wf(),
        step_fits(CELL as int, position),
    ensures
        final(cursor)@ == cursor_after(LEVEL as int, old(cursor)@, *keys),
        old(cursor).wf() ==> final(cursor).wf(),
        out.placed@ == placed_by(LEVEL as int, CELL as int, old(cursor)@, *keys),
        old(cursor).wf() ==> out.placed.len() == if keys.commit && !old(cursor).conflict {
            cell_set(old(cursor).puzzles@).len()
        } else {
            0
        },
        out.sounds@ == sounds_of(old(cursor)@, *keys),
        out.angle == if keys.rotate {
            Some(old(cursor).rotation.next().spec_angle())
        } else {
            None
        },
        out.position == moved_to(LEVEL as int, CELL as int, *window, position, *keys),
        out.wait_ms == wait_of(
            *keys,
            move_applies(LEVEL as int, CELL as int, *window, position, *keys),
        ),
{
    proof {
        if cursor.wf() {
            lemma_commit_count(LEVEL as int, CELL as int, cursor@, *keys);
        }
    }
    let mut placed: Vec<Transform> = Vec::new();
    let mut sounds: Vec<Sound> = Vec::new();
    let mut angle: Option<i16> = None;
    let mut wait_ms: u64 = 0;

    if keys.commit {
        if cursor.conflict {
            sounds.push(Sound::Error);
        } else {
            placed = cursor.drop();
            sounds.push(Sound::Drop);
        }
        wait_ms = wait_ms + ACTION_WAIT_MS;
    }
    if keys.rotate {
        let quarter: i16 = cursor.rotate();
        angle = Some(quarter);
        sounds.push(Sound::Rotate);
        wait_ms = wait_ms + ACTION_WAIT_MS;
    }
    let (new_pos, moved): (Point, bool) = move_cursor::<LEVEL, CELL>(position, keys, window);
    if moved {
        wait_ms = wait_ms + MOVE_WAIT_MS;
    }
    Outcome { placed, sounds, angle, position: new_pos, wait_ms }
}

/// A drop asked for in conflict places nothing. One asked for out of conflict
/// places as many pieces as the cursor carries cells. No other key places
/// any.
pub proof fn lemma_commit_count(level: int, cell: int, cursor: SelectorView, keys: Keys)
    requires
        level >= 1,
        cells_in_pattern(level, cursor.puzzles),
    ensures
        cell_set(cursor.puzzles).finite(),
        placed_by(level, cell, cursor, keys).len() == if keys.commit && !cursor.conflict {
            cell_set(cursor.puzzles).len()
        } else {
            0
        },
{
    lemma_one_piece_per_cell(
        level,
        cell,
        cursor.pos,
        cursor.rotation.spec_angle(),
        cursor.puzzles,
    );
}

/// Every step that is not negative has a diagonal stride, which is no longer
/// than the step.
pub proof fn lemma_diagonal_stride(step: int)
    requires
        0 <= step,
    ensures
        is_diagonal_stride(step, diagonal_stride(step)),
        diagonal_stride(step) <= step,
{
    lemma_diagonal_stride_from(step, 0);
    let d = diagonal_stride(step);
    if d > step {
        assert(step * step < 2 * (d * d)) by (nonlinear_arith)
            requires
                0 <= step < d,
        ;
    }
}

/// A stride whose diagonal is no longer than the step is the diagonal stride,
/// or a longer one is.
proof fn lemma_diagonal_stride_from(step: int, d: int)
    requires
        0 <= d <= step,
        2 * (d * d) <= step * step,
    ensures
        exists|e: int| is_diagonal_stride(step, e),
    decreases step - d,
{
    if step * step < 2 * ((d + 1) * (d + 1)) {
        assert(is_diagonal_stride(step, d));
    } else {
        if d + 1 > step {
            assert(step * step < 2 * ((d + 1) * (d + 1))) by (nonlinear_arith)
                requires
                    0 <= step < d + 1,
            ;
        }
        lemma_diagonal_stride_from(step, d + 1);
    }
}

/// A move that would take the cursor's square out of the window on the axis
/// that is looked at leaves the cursor where it stands.
pub proof fn lemma_move_refused(level: int, cell: int, window: Window, from: Point, keys: Keys)
    requires
        !move_applies(level, cell, window, from, keys),
    ensures
        moved_to(level, cell, window, from, keys) == from,
{
}

/// A move along one axis that stays within the window takes the cursor one
/// step in the direction asked for, and leaves the other coordinate alone.
pub proof fn lemma_move_along_axis(level: int, cell: int, window: Window, from: Point, keys: Keys)
    requires
        move_applies(level, cell, window, from, keys),
        (dir_x(keys) == 0) != (dir_y(keys) == 0),
        0 <= cell,
        step_fits(cell, from),
    ensures
        moved_to(level, cell, window, from, keys).x == from.x + dir_x(keys) * cell,
        moved_to(level, cell, window, from, keys).y == from.y + dir_y(keys) * cell,
{
    assert(-cell <= dir_x(keys) * cell <= cell && -cell <= dir_y(keys) * cell <= cell)
        by (nonlinear_arith)
        requires
            -1 <= dir_x(keys) <= 1,
            -1 <= dir_y(keys) <= 1,
            0 <= cell,
    ;
}

/// A move along both axes that stays within the window takes the cursor the
/// diagonal stride along each, in the directions asked for: as far as whole
/// pixels go without the way being longer than one step.
pub proof fn lemma_move_diagonal(level: int, cell: int, window: Window, from: Point, keys: Keys)
    requires
        move_applies(level, cell, window, from, keys),
        dir_x(keys) != 0,
        dir_y(keys) != 0,
        0 <= cell,
        step_fits(cell, from),
    ensures
        is_diagonal_stride(cell, diagonal_stride(cell)),
        moved_to(level, cell, window, from, keys).x == from.x + dir_x(keys) * diagonal_stride(
            cell,
        ),
        moved_to(level, cell, window, from, keys).y == from.y + dir_y(keys) * diagonal_stride(
            cell,
        ),
{
    lemma_diagonal_stride(cell);
    let d = diagonal_stride(cell);
    assert(-d <= dir_x(keys) * d <= d && -d <= dir_y(keys) * d <= d) by (nonlinear_arith)
        requires
            -1 <= dir_x(keys) <= 1,
            -1 <= dir_y(keys) <= 1,
            0 <= d,
    ;
}

} // verus!
