//! The cursor, its footprint on the pixel grid, and what it places.
use vstd::prelude::*;
use crate::grid::cell_count;
use crate::grid::footprint_width;
use crate::grid::in_pattern;
use crate::grid::lemma_four_turns;
use crate::grid::lemma_index_at;
use crate::grid::lemma_rotated_index;
use crate::grid::offset_x;
use crate::grid::offset_y;
use crate::grid::rotated_index;
use crate::grid::side;
use crate::rotation::full_turn;
use crate::rotation::Rotation;

verus! {

/// Layer on which the cursor is drawn.
pub const SELECTOR_LAYER: i32 = 0;

/// Layer of the pieces that a drop places: above the cursor's own.
pub const PUZZLE_LAYER: i32 = 1;

/// A point of the window, in whole pixels. The origin is the middle of the
/// window, `x` grows to the right and `y` upwards.
#[derive(Clone, Copy, Debug, PartialEq, Eq, Structural)]
pub struct Point {
    pub x: i32,
    pub y: i32,
}

/// Where and how a piece is drawn: its middle, its layer and its angle in
/// degrees.
#[derive(Clone, Copy, Debug, PartialEq, Eq, Structural)]
pub struct Transform {
    pub position: Point,
    pub layer: i32,
    pub angle: i16,
}

/// The cursor of a game whose patterns have level `LEVEL` and whose cells are
/// `CELL` pixels wide.
#[derive(Clone, Debug)]
pub struct Selector<const LEVEL: u8, const CELL: u16> {
    pub rotation: Rotation,
    /// Whether the cursor stood over a placed piece when last checked.
    pub conflict: bool,
    /// Where the cursor stood when last checked.
    pub pos: Point,
    /// The cells of the pattern that the cursor carries. A cell that occurs
    /// twice counts once.
    pub puzzles: Vec<u8>,
}

/// Why a cursor cannot be made.
#[derive(Clone, Copy, Debug, PartialEq, Eq, Structural)]
pub enum ConfigError {
    /// The level is one whose quarter turn is not known.
    UnsupportedLevel,
    /// One of the cells is no cell of the pattern.
    CellOutOfPattern,
}

/// What a [`Selector`] holds, as plain values.
pub struct SelectorView {
    pub rotation: Rotation,
    pub conflict: bool,
    pub pos: Point,
    pub puzzles: Seq<u8>,
}

impl<const LEVEL: u8, const CELL: u16> View for Selector<LEVEL, CELL> {
    type V = SelectorView;

    open spec fn view(&self) -> SelectorView {
        SelectorView {
            rotation: self.rotation,
            conflict: self.conflict,
            pos: self.pos,
            puzzles: self.puzzles@,
        }
    }
}

/// Whether the cell `idx` is among `cells`.
pub open spec fn active(cells: Seq<u8>, idx: int) -> bool {
    exists|i: int| 0 <= i < cells.len() && cells[i] == idx
}

/// The cells that `cells` names, each once.
pub open spec fn cell_set(cells: Seq<u8>) -> Set<int> {
    Set::new(|idx: int| active(cells, idx))
}

/// Whether every one of `cells` is a cell of the pattern of `level`.
pub open spec fn cells_in_pattern(level: int, cells: Seq<u8>) -> bool {
    forall|i: int| 0 <= i < cells.len() ==> in_pattern(level, #[trigger] cells[i] as int)
}

/// How far, in pixels, the middles of the outermost cells lie from the middle
/// of the pattern.
pub open spec fn reach(level: int, cell: int) -> int {
    (level - 1) * cell
}

/// Whether `p` lies strictly inside the square of side
/// `footprint_width(level, cell)` whose middle is `center`: on each axis `p`
/// is nearer to `center` than half that side. The distances are doubled, so
/// that an odd side needs no half.
pub open spec fn inside(level: int, cell: int, center: Point, p: Point) -> bool {
    let w = footprint_width(level, cell);
    &&& -w < 2 * (p.x - center.x) < w
    &&& -w < 2 * (p.y - center.y) < w
}

/// A point lies strictly inside the cursor's square if and only if, on each
/// axis, twice its distance from the middle is less than the side.
pub proof fn lemma_inside_by_distance(level: int, cell: int, center: Point, p: Point)
    ensures
        inside(level, cell, center, p) <==> {
            &&& 2 * vstd::math::abs(p.x - center.x) < footprint_width(level, cell)
            &&& 2 * vstd::math::abs(p.y - center.y) < footprint_width(level, cell)
        },
{
}

/// Whether one of `placed` lies strictly inside the cursor's square round
/// `center`.
pub open spec fn covers(level: int, cell: int, center: Point, placed: Seq<Point>) -> bool {
    exists|i: int| 0 <= i < placed.len() && inside(level, cell, center, #[trigger] placed[i])
}

/// The cells to which a quarter turn of the pattern carries `cells`, one by
/// one and in their order.
pub open spec fn rotated_cells(level: int, cells: Seq<u8>) -> Seq<u8> {
    cells.map_values(|c: u8| rotated_index(level, c as int) as u8)
}

impl SelectorView {
    /// The cursor after it was checked at `current_pos` against the pieces at
    /// `puzzle_pos`: it stands there, and is in conflict if and only if one
    /// of the pieces lies strictly inside its square.
    pub open spec fn checked(
        self,
        level: int,
        cell: int,
        current_pos: Point,
        puzzle_pos: Seq<Point>,
    ) -> SelectorView {
        SelectorView {
            rotation: self.rotation,
            conflict: covers(level, cell, current_pos, puzzle_pos),
            pos: current_pos,
            puzzles: self.puzzles,
        }
    }

    /// The cursor after a quarter turn: each of its cells is carried along,
    /// and its orientation is the next of the cycle.
    pub open spec fn turned(self, level: int) -> SelectorView {
        SelectorView {
            rotation: self.rotation.next(),
            conflict: self.conflict,
            pos: self.pos,
            puzzles: rotated_cells(level, self.puzzles),
        }
    }
}

/// The piece that stands for the cell `idx` of a pattern whose middle is at
/// `pos`.
pub open spec fn placement(level: int, cell: int, pos: Point, angle: i16, idx: int) -> Transform {
    Transform {
        position: Point {
            x: (pos.x + offset_x(level, cell, idx)) as i32,
            y: (pos.y + offset_y(level, cell, idx)) as i32,
        },
        layer: PUZZLE_LAYER,
        angle,
    }
}

/// The pieces for those of the first `bound` cells of the pattern that are
/// among `cells`, in the order of their indices.
pub open spec fn placements_below(
    level: int,
    cell: int,
    pos: Point,
    angle: i16,
    cells: Seq<u8>,
    bound: int,
) -> Seq<Transform> {
    Seq::new(bound as nat, |idx: int| idx).filter(|idx: int| active(cells, idx)).map_values(
        |idx: int| placement(level, cell, pos, angle, idx),
    )
}

/// The pieces for the cells of the pattern that are among `cells`: one for
/// each, in the order of their indices.
pub open spec fn placements(level: int, cell: int, pos: Point, angle: i16, cells: Seq<u8>) -> Seq<
    Transform,
> {
    placements_below(level, cell, pos, angle, cells, cell_count(level))
}

/// The pieces below `bound + 1` are those below `bound`, and the piece for
/// `bound` where that cell is among `cells`.
pub proof fn lemma_placements_step(
    level: int,
    cell: int,
    pos: Point,
    angle: i16,
    cells: Seq<u8>,
    bound: int,
)
    requires
        0 <= bound,
    ensures
        placements_below(level, cell, pos, angle, cells, bound + 1) == if active(cells, bound) {
            placements_below(level, cell, pos, angle, cells, bound).push(
                placement(level, cell, pos, angle, bound),
            )
        } else {
            placements_below(level, cell, pos, angle, cells, bound)
        },
{
    let below = Seq::new(bound as nat, |idx: int| idx);
    let among = |idx: int| active(cells, idx);
    let piece = |idx: int| placement(level, cell, pos, angle, idx);
    assert(Seq::new((bound + 1) as nat, |idx: int| idx) =~= below.push(bound));
    below.lemma_filter_push(bound, among);
    below.filter(among).lemma_push_map_commute(piece, bound);
}

/// Where a quarter turn carries the cell `i` of the pattern of `LEVEL`, by
/// the table of that level. Levels 1 and 2 have a table.
pub fn idx_map<const LEVEL: u8>(i: &u8) -> (turned: u8)
    requires
        LEVEL == 1 || LEVEL == 2,
        in_pattern(LEVEL as int, *i as int),
    ensures
        turned == rotated_index(LEVEL as int, *i as int),
{
    if LEVEL == 1 {
        assert(side(1) * side(1) == 1) by (nonlinear_arith)
            requires
                side(1) == 1,
        ;
        *i
    } else {
        assert(side(2) * side(2) == 9) by (nonlinear_arith)
            requires
                side(2) == 3,
        ;
        assert(rotated_index(2, *i as int) == (*i as int % 3) * 3 + (2 - *i as int / 3));
        match *i {
            0 => 2,
            1 => 5,
            2 => 8,
            3 => 1,
            4 => 4,
            5 => 7,
            6 => 0,
            7 => 3,
            _ => 6,
        }
    }
}

impl<const LEVEL: u8, const CELL: u16> Selector<LEVEL, CELL> {
    /// Whether the level is one that a pattern can have: at least 1.
    pub open spec fn configured() -> bool {
        LEVEL >= 1
    }

    /// Whether the level is one whose quarter turn is known: 1 or 2.
    pub open spec fn supported() -> bool {
        LEVEL == 1 || LEVEL == 2
    }

    /// Whether every cell that the cursor carries is a cell of its pattern.
    pub open spec fn wf(&self) -> bool {
        &&& Self::configured()
        &&& cells_in_pattern(LEVEL as int, self.puzzles@)
    }

    /// Whether the pieces of every cell of the pattern, placed round the
    /// cursor, have coordinates that an `i32` holds.
    pub open spec fn reach_fits(&self) -> bool {
        &&& i32::MIN <= self.pos.x - reach(LEVEL as int, CELL as int)
        &&& self.pos.x + reach(LEVEL as int, CELL as int) <= i32::MAX
        &&& i32::MIN <= self.pos.y - reach(LEVEL as int, CELL as int)
        &&& self.pos.y + reach(LEVEL as int, CELL as int) <= i32::MAX
    }

    /// A cursor at the origin that points up, is free of conflict and carries
    /// `puzzles`. None is made for a level whose quarter turn is not known,
    /// nor with a cell that is no cell of the pattern.
    pub fn new(puzzles: Vec<u8>) -> (made: Result<Self, ConfigError>)
        ensures
            match made {
                Ok(cursor) => {
                    &&& Self::supported()
                    &&& cursor.wf()
                    &&& cursor@ == (SelectorView {
                        rotation: Rotation::Up,
                        conflict: false,
                        pos: Point { x: 0, y: 0 },
                        puzzles: puzzles@,
                    })
                },
                Err(ConfigError::UnsupportedLevel) => !Self::supported(),
                Err(ConfigError::CellOutOfPattern) => {
                    &&& Self::supported()
                    &&& !cells_in_pattern(LEVEL as int, puzzles@)
                },
            },
    {
        if !Self::is_supported() {
            return Err(ConfigError::UnsupportedLevel);
        }
        let cursor = Selector {
            rotation: Rotation::Up,
            conflict: false,
            pos: Point { x: 0, y: 0 },
            puzzles,
        };
        if cursor.is_wf() {
            Ok(cursor)
        } else {
            Err(ConfigError::CellOutOfPattern)
        }
    }

    /// Side of the square that the cursor covers, in pixels.
    pub fn width() -> (w: u32)
        requires
            Self::configured(),
        ensures
            w == footprint_width(LEVEL as int, CELL as int),
    {
        let cell: u32 = CELL as u32;
        let rings: u32 = (LEVEL - 1) as u32;
        assert(rings * 2 * cell <= 254 * 2 * 65535) by (nonlinear_arith)
            requires
                rings <= 254,
                cell <= 65535,
        ;
        cell + rings * 2 * cell
    }

    /// Distance of one move of the cursor, in pixels: the width of a cell.
    pub fn step() -> (s: u32)
        ensures
            s == CELL,
    {
        CELL as u32
    }

    /// Moves the cursor to `current_pos` and sets its conflict: whether one of
    /// the pieces at `puzzle_pos` lies strictly inside the cursor's square.
    pub fn check_conflict(&mut self, current_pos: Point, puzzle_pos: Vec<Point>)
        requires
            Self::configured(),
        ensures
            final(self)@ == old(self)@.checked(
                LEVEL as int,
                CELL as int,
                current_pos,
                puzzle_pos@,
            ),
            old(self).wf() ==> final(self).wf(),
    {
        self.conflict = true;
        self.pos = current_pos;
        let w: i64 = Self::width() as i64;
        assert(0 <= w <= 509 * 65535) by (nonlinear_arith)
            requires
                w == CELL + (LEVEL - 1) * 2 * CELL,
                1 <= LEVEL <= 255,
                0 <= CELL <= 65535,
        ;
        for k in 0..puzzle_pos.len()
            invariant
                w == footprint_width(LEVEL as int, CELL as int),
                0 <= w <= 509 * 65535,
                self.conflict,
                self.pos == current_pos,
                self.rotation == old(self).rotation,
                self.puzzles@ == old(self).puzzles@,
                forall|i: int|
                    0 <= i < k ==> !inside(
                        LEVEL as int,
                        CELL as int,
                        current_pos,
                        #[trigger] puzzle_pos@[i],
                    ),
        {
            let p: Point = puzzle_pos[k];
            let dx: i64 = 2 * (p.x as i64 - self.pos.x as i64);
            let dy: i64 = 2 * (p.y as i64 - self.pos.y as i64);
            if -w < dx && dx < w && -w < dy && dy < w {
                return ;
            }
        }
        self.conflict = false;
    }

    /// Turns the cursor by a quarter: carries each of its cells to where the
    /// turn of the pattern takes it, advances the orientation, and returns the
    /// new angle in degrees.
    pub fn rotate(&mut self) -> (angle: i16)
        requires
            Self::supported(),
            old(self).wf(),
        ensures
            final(self)@ == old(self)@.turned(LEVEL as int),
            angle == final(self).rotation.spec_angle(),
            final(self).wf(),
    {
        let mut rotated_puzzles: Vec<u8> = Vec::new();
        for k in 0..self.puzzles.len()
            invariant
                Self::supported(),
                self.wf(),
                self@ == old(self)@,
                rotated_puzzles.len() == k,
                forall|i: int|
                    0 <= i < k ==> #[trigger] rotated_puzzles@[i] == rotated_index(
                        LEVEL as int,
                        self.puzzles@[i] as int,
                    ),
        {
            let turned: u8 = idx_map::<LEVEL>(&self.puzzles[k]);
            rotated_puzzles.push(turned);
        }
        proof {
            assert(rotated_puzzles@ =~= rotated_cells(LEVEL as int, self.puzzles@));
            assert forall|i: int| 0 <= i < rotated_puzzles.len() implies in_pattern(
                LEVEL as int,
                #[trigger] rotated_puzzles@[i] as int,
            ) by {
                lemma_rotated_index(LEVEL as int, self.puzzles@[i] as int);
            }
        }
        self.puzzles = rotated_puzzles;
        self.rotation.rotate()
    }

    /// Whether the cursor's level is one that a pattern can have.
    pub fn is_configured() -> (ok: bool)
        ensures
            ok == Self::configured(),
    {
        LEVEL >= 1
    }

    /// Whether the cursor's level is one whose quarter turn is known.
    pub fn is_supported() -> (ok: bool)
        ensures
            ok == Self::supported(),
    {
        LEVEL == 1 || LEVEL == 2
    }

    /// Whether every cell that the cursor carries is a cell of its pattern.
    pub fn is_wf(&self) -> (ok: bool)
        ensures
            ok == self.wf(),
    {
        if LEVEL < 1 {
            return false;
        }
        let n: u32 = 2 * (LEVEL as u32) - 1;
        assert(n * n <= 509 * 509) by (nonlinear_arith)
            requires
                n <= 509,
        ;
        let count: u32 = n * n;
        for k in 0..self.puzzles.len()
            invariant
                Self::configured(),
                count == cell_count(LEVEL as int),
                forall|i: int| 0 <= i < k ==> in_pattern(LEVEL as int, #[trigger] self.puzzles@[i] as int),
        {
            if self.puzzles[k] as u32 >= count {
                return false;
            }
        }
        true
    }

    /// Whether the pieces of every cell of the pattern, placed round the
    /// cursor, have coordinates that an `i32` holds.
    pub fn has_room(&self) -> (ok: bool)
        requires
            Self::configured(),
        ensures
            ok == self.reach_fits(),
    {
        let level: i64 = LEVEL as i64;
        let cell: i64 = CELL as i64;
        assert(0 <= (level - 1) * cell <= 254 * 65535) by (nonlinear_arith)
            requires
                1 <= level <= 255,
                0 <= cell <= 65535,
        ;
        let far: i64 = (level - 1) * cell;
        let x: i64 = self.pos.x as i64;
        let y: i64 = self.pos.y as i64;
        x - far >= i32::MIN as i64 && x + far <= i32::MAX as i64 && y - far >= i32::MIN as i64 && y
            + far <= i32::MAX as i64
    }

    /// Whether `idx` is among the cells that the cursor carries.
    fn carries(&self, idx: u32) -> (found: bool)
        ensures
            found == active(self.puzzles@, idx as int),
    {
        let mut k: usize = 0;
        while k < self.puzzles.len()
            invariant
                k <= self.puzzles.len(),
                forall|i: int| 0 <= i < k ==> self.puzzles@[i] != idx,
            decreases self.puzzles.len() - k,
        {
            if self.puzzles[k] as u32 == idx {
                return true;
            }
            k += 1;
        }
        false
    }

    /// The pieces that the cursor places where it stands: one for each cell
    /// that it carries, at the cursor's position moved by the cell's offset
    /// from the middle of the pattern, turned as the cursor is, on the layer
    /// of the pieces. The cursor itself stays as it is. Only a cursor that is
    /// free of conflict may drop.
    pub fn drop(&self) -> (out: Vec<Transform>)
        requires
            Self::configured(),
            !self.conflict,
            self.reach_fits(),
        ensures
            out@ == placements(
                LEVEL as int,
                CELL as int,
                self.pos,
                self.rotation.spec_angle(),
                self.puzzles@,
            ),
            self.wf() ==> out.len() == cell_set(self.puzzles@).len(),
    {
        proof {
            if self.wf() {
                lemma_one_piece_per_cell(
                    LEVEL as int,
                    CELL as int,
                    self.pos,
                    self.rotation.spec_angle(),
                    self.puzzles@,
                );
            }
        }
        let level: i64 = LEVEL as i64;
        let cell: i64 = CELL as i64;
        let n: u32 = 2 * (LEVEL as u32) - 1;
        let angle: i16 = self.rotation.angle();
        let mut out: Vec<Transform> = Vec::new();
        assert(placements_below(
            LEVEL as int,
            CELL as int,
            self.pos,
            angle,
            self.puzzles@,
            (1 - 1) * n,
        ).len() == 0) by {
            reveal(Seq::filter);
        }
        for i in 1..(n + 1)
            invariant
                n == side(LEVEL as int),
                1 <= n <= 509,
                level == LEVEL,
                cell == CELL,
                angle == self.rotation.spec_angle(),
                self.reach_fits(),
                out@ == placements_below(
                    LEVEL as int,
                    CELL as int,
                    self.pos,
                    angle,
                    self.puzzles@,
                    (i - 1) * n,
                ),
        {
            for j in 1..(n + 1)
                invariant
                    n == side(LEVEL as int),
                    1 <= n <= 509,
                    1 <= i <= n,
                    level == LEVEL,
                    cell == CELL,
                    angle == self.rotation.spec_angle(),
                    self.reach_fits(),
                    out@ == placements_below(
                        LEVEL as int,
                        CELL as int,
                        self.pos,
                        angle,
                        self.puzzles@,
                        (i - 1) * n + (j - 1),
                    ),
            {
                assert((i - 1) * n + (j - 1) < 509 * 509) by (nonlinear_arith)
                    requires
                        1 <= i <= n,
                        1 <= j <= n,
                        n <= 509,
                ;
                let puzzle_idx: u32 = (i - 1) * n + (j - 1);
                proof {
                    lemma_index_at(LEVEL as int, i - 1, j - 1);
                    lemma_placements_step(
                        LEVEL as int,
                        CELL as int,
                        self.pos,
                        angle,
                        self.puzzles@,
                        puzzle_idx as int,
                    );
                }
                if self.carries(puzzle_idx) {
                    let i_idx: i64 = i as i64 - level;
                    let j_idx: i64 = j as i64 - level;
                    assert(-reach(LEVEL as int, CELL as int) <= i_idx * cell <= reach(
                        LEVEL as int,
                        CELL as int,
                    ) && -reach(LEVEL as int, CELL as int) <= j_idx * cell <= reach(
                        LEVEL as int,
                        CELL as int,
                    )) by (nonlinear_arith)
                        requires
                            -(level - 1) <= i_idx <= level - 1,
                            -(level - 1) <= j_idx <= level - 1,
                            0 <= cell,
                            level == LEVEL,
                            cell == CELL,
                    ;
                    assert(reach(LEVEL as int, CELL as int) <= 254 * 65535) by (nonlinear_arith)
                        requires
                            1 <= LEVEL <= 255,
                            0 <= CELL <= 65535,
                    ;
                    let x: i64 = self.pos.x as i64 + i_idx * cell;
                    let y: i64 = self.pos.y as i64 + j_idx * cell;
                    out.push(
                        Transform {
                            position: Point { x: x as i32, y: y as i32 },
                            layer: PUZZLE_LAYER,
                            angle,
                        },
                    );
                }
            }
            assert((i - 1) * n + (n + 1 - 1) == (i + 1 - 1) * n) by (nonlinear_arith);
        }
        out
    }
}

/// Those of the first `bound` cells of the pattern that are among `cells`.
pub open spec fn cells_below(cells: Seq<u8>, bound: int) -> Set<int> {
    Set::new(|idx: int| 0 <= idx < bound && active(cells, idx))
}

/// Below any bound there is one piece for each cell that is among `cells`.
proof fn lemma_count_below(
    level: int,
    cell: int,
    pos: Point,
    angle: i16,
    cells: Seq<u8>,
    bound: int,
)
    requires
        0 <= bound,
    ensures
        cells_below(cells, bound).finite(),
        placements_below(level, cell, pos, angle, cells, bound).len() == cells_below(
            cells,
            bound,
        ).len(),
    decreases bound,
{
    if bound == 0 {
        assert(cells_below(cells, 0) =~= Set::empty());
        assert(placements_below(level, cell, pos, angle, cells, 0).len() == 0) by {
            reveal(Seq::filter);
        }
    } else {
        lemma_count_below(level, cell, pos, angle, cells, bound - 1);
        lemma_placements_step(level, cell, pos, angle, cells, bound - 1);
        if active(cells, bound - 1) {
            assert(cells_below(cells, bound) =~= cells_below(cells, bound - 1).insert(bound - 1));
        } else {
            assert(cells_below(cells, bound) =~= cells_below(cells, bound - 1));
        }
    }
}

/// A drop places as many pieces as the cursor carries cells, a cell that
/// occurs twice counted once.
pub proof fn lemma_one_piece_per_cell(level: int, cell: int, pos: Point, angle: i16, cells: Seq<u8>)
    requires
        level >= 1,
        cells_in_pattern(level, cells),
    ensures
        cell_set(cells).finite(),
        placements(level, cell, pos, angle, cells).len() == cell_set(cells).len(),
{
    assert(0 <= cell_count(level)) by (nonlinear_arith)
        requires
            cell_count(level) == side(level) * side(level),
    ;
    lemma_count_below(level, cell, pos, angle, cells, cell_count(level));
    assert(cells_below(cells, cell_count(level)) =~= cell_set(cells));
}

/// Whether `piece` is the piece of one of the first `bound` cells of the
/// pattern that is among `cells`.
pub open spec fn placed_for(
    level: int,
    cell: int,
    pos: Point,
    angle: i16,
    cells: Seq<u8>,
    bound: int,
    piece: Transform,
) -> bool {
    exists|idx: int|
        0 <= idx < bound && active(cells, idx) && piece == #[trigger] placement(
            level,
            cell,
            pos,
            angle,
            idx,
        )
}

/// Below any bound, the pieces are those of the cells that are among `cells`.
proof fn lemma_placed_below(
    level: int,
    cell: int,
    pos: Point,
    angle: i16,
    cells: Seq<u8>,
    bound: int,
)
    requires
        0 <= bound,
    ensures
        forall|idx: int|
            0 <= idx < bound && active(cells, idx) ==> placements_below(
                level,
                cell,
                pos,
                angle,
                cells,
                bound,
            ).contains(#[trigger] placement(level, cell, pos, angle, idx)),
        forall|k: int|
            0 <= k < placements_below(level, cell, pos, angle, cells, bound).len()
                ==> placed_for(
                level,
                cell,
                pos,
                angle,
                cells,
                bound,
                #[trigger] placements_below(level, cell, pos, angle, cells, bound)[k],
            ),
    decreases bound,
{
    let now = placements_below(level, cell, pos, angle, cells, bound);
    if bound == 0 {
        assert(now.len() == 0) by {
            reveal(Seq::filter);
        }
    } else {
        let before = placements_below(level, cell, pos, angle, cells, bound - 1);
        lemma_placed_below(level, cell, pos, angle, cells, bound - 1);
        lemma_placements_step(level, cell, pos, angle, cells, bound - 1);
        assert forall|idx: int| 0 <= idx < bound && active(cells, idx) implies now.contains(
            #[trigger] placement(level, cell, pos, angle, idx),
        ) by {
            if idx == bound - 1 {
                assert(now[now.len() - 1] == placement(level, cell, pos, angle, idx));
            } else {
                let k = choose|k: int|
                    0 <= k < before.len() && before[k] == placement(level, cell, pos, angle, idx);
                assert(now[k] == placement(level, cell, pos, angle, idx));
            }
        }
        assert forall|k: int| 0 <= k < now.len() implies placed_for(
            level,
            cell,
            pos,
            angle,
            cells,
            bound,
            #[trigger] now[k],
        ) by {
            if k < before.len() {
                assert(placed_for(level, cell, pos, angle, cells, bound - 1, before[k]));
                let idx = choose|idx: int|
                    0 <= idx < bound - 1 && active(cells, idx) && before[k] == placement(
                        level,
                        cell,
                        pos,
                        angle,
                        idx,
                    );
                assert(now[k] == placement(level, cell, pos, angle, idx));
            } else {
                assert(now[k] == placement(level, cell, pos, angle, bound - 1));
            }
        }
    }
}

/// A drop places the piece of every cell of the pattern that the cursor
/// carries, and no other piece.
pub proof fn lemma_placed_cells(level: int, cell: int, pos: Point, angle: i16, cells: Seq<u8>)
    requires
        level >= 1,
    ensures
        forall|idx: int|
            in_pattern(level, idx) && active(cells, idx) ==> placements(
                level,
                cell,
                pos,
                angle,
                cells,
            ).contains(#[trigger] placement(level, cell, pos, angle, idx)),
        forall|k: int|
            0 <= k < placements(level, cell, pos, angle, cells).len() ==> placed_for(
                level,
                cell,
                pos,
                angle,
                cells,
                cell_count(level),
                #[trigger] placements(level, cell, pos, angle, cells)[k],
            ),
{
    assert(0 <= cell_count(level)) by (nonlinear_arith)
        requires
            cell_count(level) == side(level) * side(level),
    ;
    lemma_placed_below(level, cell, pos, angle, cells, cell_count(level));
}

/// A quarter turn carries cells of the pattern to cells of the pattern.
pub proof fn lemma_rotated_cells_in_pattern(level: int, cells: Seq<u8>)
    requires
        1 <= level <= 8,
        cells_in_pattern(level, cells),
    ensures
        cells_in_pattern(level, rotated_cells(level, cells)),
        rotated_cells(level, cells).len() == cells.len(),
        forall|i: int|
            0 <= i < cells.len() ==> #[trigger] rotated_cells(level, cells)[i] == rotated_index(
                level,
                cells[i] as int,
            ),
{
    assert(cell_count(level) <= 225) by (nonlinear_arith)
        requires
            cell_count(level) == side(level) * side(level),
            1 <= side(level) <= 15,
    ;
    assert forall|i: int| 0 <= i < cells.len() implies in_pattern(
        level,
        #[trigger] rotated_cells(level, cells)[i] as int,
    ) && rotated_cells(level, cells)[i] == rotated_index(level, cells[i] as int) by {
        lemma_rotated_index(level, cells[i] as int);
    }
}

/// Four quarter turns bring the cursor back to where it was: its cells, each
/// in its place, and its orientation.
pub proof fn lemma_four_turns_restore(level: int, cursor: SelectorView)
    requires
        1 <= level <= 8,
        cells_in_pattern(level, cursor.puzzles),
    ensures
        cursor.turned(level).turned(level).turned(level).turned(level) == cursor,
{
    let once = rotated_cells(level, cursor.puzzles);
    let twice = rotated_cells(level, once);
    let thrice = rotated_cells(level, twice);
    let full = rotated_cells(level, thrice);
    lemma_rotated_cells_in_pattern(level, cursor.puzzles);
    lemma_rotated_cells_in_pattern(level, once);
    lemma_rotated_cells_in_pattern(level, twice);
    lemma_rotated_cells_in_pattern(level, thrice);
    assert forall|i: int| 0 <= i < cursor.puzzles.len() implies full[i] == cursor.puzzles[i] by {
        lemma_four_turns(level, cursor.puzzles[i] as int);
        assert(once[i] == rotated_index(level, cursor.puzzles[i] as int));
        assert(twice[i] == rotated_index(level, once[i] as int));
        assert(thrice[i] == rotated_index(level, twice[i] as int));
        assert(full[i] == rotated_index(level, thrice[i] as int));
    }
    assert(full =~= cursor.puzzles);
    full_turn(cursor.rotation);
}

impl<const LEVEL: u8, const CELL: u16> Default for Selector<LEVEL, CELL> {
    /// A cursor at the origin that points up, is free of conflict and carries
    /// no cell.
    fn default() -> (cursor: Self)
        ensures
            cursor@ == (SelectorView {
                rotation: Rotation::Up,
                conflict: false,
                pos: Point { x: 0, y: 0 },
                puzzles: Seq::empty(),
            }),
    {
        Selector {
            rotation: Rotation::Up,
            conflict: false,
            pos: Point { x: 0, y: 0 },
            puzzles: Vec::new(),
        }
    }
}

} // verus!
