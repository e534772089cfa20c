//! The game state machine: board generation with randomized mine placement,
//! the reveal cascade, flag handling, chord clicks, win/loss detection and
//! the per-second timer. Player actions mutate the grid and hand back the
//! per-cell change notifications and follow-up commands as plain data.

use vstd::prelude::*;
use crate::game_settings::{Difficulty, ParseDifficultyError, ParseSizeError, Size};
use crate::rng::{rand_below, shuffle};

verus! {

/// Rows of a board of the given size.
pub open spec fn spec_rows(size: Size) -> int {
    match size {
        Size::Small => 8,
        Size::Medium => 10,
        Size::Large => 12,
    }
}

/// Columns of a board of the given size.
pub open spec fn spec_columns(size: Size) -> int {
    match size {
        Size::Small => 12,
        Size::Medium => 15,
        Size::Large => 18,
    }
}

/// Mine probability of a difficulty, as a percentage.
pub open spec fn difficulty_percent(d: Difficulty) -> int {
    match d {
        Difficulty::Easy => 15,
        Difficulty::Normal => 25,
        Difficulty::Hard => 35,
    }
}

/// Number of mines on a board: the cell count times the difficulty's mine
/// probability, rounded down.
pub open spec fn spec_mine_count(rows: int, columns: int, d: Difficulty) -> int {
    rows * columns * difficulty_percent(d) / 100
}

/// For every difficulty and size the mine count is positive, and small enough
/// that a mine-free cell remains even after the nine cells of the first
/// click's safe zone are set aside.
pub proof fn lemma_mine_count_bounds(d: Difficulty, size: Size)
    ensures
        0 < spec_mine_count(spec_rows(size), spec_columns(size), d),
        spec_mine_count(spec_rows(size), spec_columns(size), d) + 9 < spec_rows(size)
            * spec_columns(size),
{
    assert(spec_mine_count(8, 12, Difficulty::Easy) == 14);
    assert(spec_mine_count(8, 12, Difficulty::Normal) == 24);
    assert(spec_mine_count(8, 12, Difficulty::Hard) == 33);
    assert(spec_mine_count(10, 15, Difficulty::Easy) == 22);
    assert(spec_mine_count(10, 15, Difficulty::Normal) == 37);
    assert(spec_mine_count(10, 15, Difficulty::Hard) == 52);
    assert(spec_mine_count(12, 18, Difficulty::Easy) == 32);
    assert(spec_mine_count(12, 18, Difficulty::Normal) == 54);
    assert(spec_mine_count(12, 18, Difficulty::Hard) == 75);
}

/// Whether the game is waiting for a first dig, running, or finished.
#[derive(Copy, Clone, Debug, PartialEq, Eq, Structural)]
pub enum GameStatus {
    Idle,
    Started,
    GameOver,
    Victory,
}

impl Default for GameStatus {
    fn default() -> (r: Self)
        ensures
            r == GameStatus::Idle,
    {
        GameStatus::Idle
    }
}

/// What the player has done to a cell so far.
#[derive(Copy, Clone, Debug, PartialEq, Eq, Structural)]
pub enum CellInteraction {
    Untouched,
    Cleared,
    Flagged,
}

impl Default for CellInteraction {
    fn default() -> (r: Self)
        ensures
            r == CellInteraction::Untouched,
    {
        CellInteraction::Untouched
    }
}

/// What a cell holds: a mine, or the count of mines among its neighbors.
#[derive(Copy, Clone, Debug, PartialEq, Eq, Structural)]
pub enum CellKind {
    Mine,
    Clear(u32),
}

impl Default for CellKind {
    fn default() -> (r: Self)
        ensures
            r == CellKind::Clear(0),
    {
        CellKind::Clear(0)
    }
}

/// One grid position, owned by the game state.
#[derive(Copy, Clone, Debug, PartialEq, Eq, Structural)]
pub struct CellState {
    pub interaction: CellInteraction,
    pub kind: CellKind,
}

/// The state every cell starts in and is reset to.
pub open spec fn default_cell() -> CellState {
    CellState { interaction: CellInteraction::Untouched, kind: CellKind::Clear(0) }
}

impl Default for CellState {
    fn default() -> (r: Self)
        ensures
            r == default_cell(),
    {
        CellState { interaction: CellInteraction::Untouched, kind: CellKind::Clear(0) }
    }
}

/// A cell that counts toward the cleared total: revealed and not a mine.
pub open spec fn cleared_cell(cs: CellState) -> bool {
    cs.interaction is Cleared && cs.kind matches CellKind::Clear(_)
}

/// A cell holding a mine.
pub open spec fn mine_cell(cs: CellState) -> bool {
    cs.kind is Mine
}

/// How many cells of the sequence are revealed non-mine cells.
pub open spec fn count_cleared(cells: Seq<CellState>) -> int
    decreases cells.len(),
{
    if cells.len() == 0 {
        0
    } else {
        count_cleared(cells.drop_last()) + if cleared_cell(cells.last()) {
            1int
        } else {
            0int
        }
    }
}

/// How many cells of the sequence hold mines.
pub open spec fn count_mines(cells: Seq<CellState>) -> int
    decreases cells.len(),
{
    if cells.len() == 0 {
        0
    } else {
        count_mines(cells.drop_last()) + if mine_cell(cells.last()) {
            1int
        } else {
            0int
        }
    }
}

/// Both counts stay within the length of the sequence.
pub proof fn lemma_count_bounds(cells: Seq<CellState>)
    ensures
        0 <= count_cleared(cells) <= cells.len(),
        0 <= count_mines(cells) <= cells.len(),
    decreases cells.len(),
{
    if cells.len() > 0 {
        lemma_count_bounds(cells.drop_last());
    }
}

/// Replacing one cell changes each count exactly by the difference the new
/// cell makes.
pub proof fn lemma_count_update(cells: Seq<CellState>, i: int, v: CellState)
    requires
        0 <= i < cells.len(),
    ensures
        count_cleared(cells.update(i, v)) == count_cleared(cells) - (if cleared_cell(cells[i]) {
            1int
        } else {
            0int
        }) + (if cleared_cell(v) {
            1int
        } else {
            0int
        }),
        count_mines(cells.update(i, v)) == count_mines(cells) - (if mine_cell(cells[i]) {
            1int
        } else {
            0int
        }) + (if mine_cell(v) {
            1int
        } else {
            0int
        }),
    decreases cells.len(),
{
    let updated = cells.update(i, v);
    if i == cells.len() - 1 {
        assert(updated.drop_last() =~= cells.drop_last());
    } else {
        assert(updated.drop_last() =~= cells.drop_last().update(i, v));
        lemma_count_update(cells.drop_last(), i, v);
    }
}

/// A sequence without revealed non-mine cells has a cleared count of zero;
/// one without mines has a mine count of zero.
pub proof fn lemma_count_zero(cells: Seq<CellState>)
    ensures
        (forall|i: int| 0 <= i < cells.len() ==> !cleared_cell(#[trigger] cells[i]))
            ==> count_cleared(cells) == 0,
        (forall|i: int| 0 <= i < cells.len() ==> !mine_cell(#[trigger] cells[i])) ==> count_mines(
            cells,
        ) == 0,
    decreases cells.len(),
{
    if cells.len() > 0 {
        lemma_count_zero(cells.drop_last());
    }
}

/// Revealing cells only ever raises the cleared count.
pub proof fn lemma_count_cleared_monotone(a: Seq<CellState>, b: Seq<CellState>)
    requires
        a.len() == b.len(),
        forall|i: int| 0 <= i < a.len() ==> (cleared_cell(#[trigger] a[i]) ==> cleared_cell(
            #[trigger] b[i],
        )),
    ensures
        count_cleared(a) <= count_cleared(b),
    decreases a.len(),
{
    if a.len() > 0 {
        lemma_count_cleared_monotone(a.drop_last(), b.drop_last());
    }
}

/// The two parameters a game is created with.
#[derive(Copy, Clone, Debug, PartialEq, Eq, Structural)]
pub struct GameParams {
    pub difficulty: Difficulty,
    pub size: Size,
}

/// Why a pair of settings words does not name game parameters.
#[derive(Copy, Clone, Debug, PartialEq, Eq, Structural)]
pub enum GameParamsError {
    InvalidSize(ParseSizeError),
    InvalidDifficulty(ParseDifficultyError),
}

impl GameParams {
    /// Reads game parameters from their two stored words, rejecting a word
    /// that names no difficulty or no size.
    pub fn parse(difficulty: &str, size: &str) -> (r: Result<GameParams, GameParamsError>)
        ensures
            (match r {
                Ok(p) => difficulty@ == crate::game_settings::difficulty_name(p.difficulty)
                    && size@ == crate::game_settings::size_name(p.size),
                Err(GameParamsError::InvalidDifficulty(_)) => difficulty@
                    != crate::game_settings::difficulty_name(Difficulty::Easy) && difficulty@
                    != crate::game_settings::difficulty_name(Difficulty::Normal) && difficulty@
                    != crate::game_settings::difficulty_name(Difficulty::Hard),
                Err(GameParamsError::InvalidSize(_)) => size@ != crate::game_settings::size_name(
                    Size::Small,
                ) && size@ != crate::game_settings::size_name(Size::Medium) && size@
                    != crate::game_settings::size_name(Size::Large),
            }),
    {
        let d = match Difficulty::parse(difficulty) {
            Ok(d) => d,
            Err(e) => {
                return Err(GameParamsError::InvalidDifficulty(e));
            },
        };
        let z = match Size::parse(size) {
            Ok(z) => z,
            Err(e) => {
                return Err(GameParamsError::InvalidSize(e));
            },
        };
        Ok(GameParams { difficulty: d, size: z })
    }
}

/// The published snapshot of a running game: elapsed play time, progress and
/// status, recomputed after every action.
#[derive(Copy, Clone, Debug, PartialEq, Eq, Structural)]
pub struct GameInfo {
    pub elapsed_seconds: i64,
    pub cleared: isize,
    pub clear_total: isize,
    pub status: GameStatus,
}

impl Default for GameInfo {
    fn default() -> (r: Self)
        ensures
            r == (GameInfo {
                elapsed_seconds: 0,
                cleared: 0,
                clear_total: 0,
                status: GameStatus::Idle,
            }),
    {
        GameInfo { elapsed_seconds: 0, cleared: 0, clear_total: 0, status: GameStatus::Idle }
    }
}

/// One change notification: the cell at `(row, column)` is now shown with
/// this interaction and kind.
#[derive(Copy, Clone, Debug, PartialEq, Eq, Structural)]
pub struct CellUpdate {
    pub row: isize,
    pub column: isize,
    pub interaction: CellInteraction,
    pub kind: CellKind,
}

/// The completed run to submit to the leaderboard on a victory.
#[derive(Copy, Clone, Debug, PartialEq, Eq, Structural)]
pub struct ScoreSubmission {
    pub time_in_seconds: i64,
    pub difficulty: Difficulty,
    pub size: Size,
}

/// Everything one dig asks of the surrounding UI layer: whether to start the
/// timer task, the cell notifications in the order the changes happened, a
/// score to submit on victory, and the shuffled mine reveals to animate on a
/// loss.
#[derive(Clone, Debug)]
pub struct DigOutcome {
    pub timer_started: bool,
    pub updates: Vec<CellUpdate>,
    pub submit: Option<ScoreSubmission>,
    pub loss_reveal: Vec<CellUpdate>,
}

/// A dig never changes what a cell holds, only what the player has done to
/// it.
pub open spec fn kinds_unchanged(a: Seq<CellState>, b: Seq<CellState>) -> bool {
    forall|i: int| 0 <= i < a.len() ==> (#[trigger] b[i]).kind == a[i].kind
}

/// A dig moves cells only from untouched to cleared: flags stay, and nothing
/// is ever un-revealed.
pub open spec fn interactions_monotone(a: Seq<CellState>, b: Seq<CellState>) -> bool {
    forall|i: int|
        0 <= i < a.len() ==> ((#[trigger] b[i]).interaction != a[i].interaction ==> (
        a[i].interaction is Untouched && b[i].interaction is Cleared))
}



/// Every change notification of a dig reports a cell that the dig revealed,
/// with the interaction and kind the cell now shows.
pub open spec fn update_entries_ok(
    a: Seq<CellState>,
    b: Seq<CellState>,
    rows: int,
    columns: int,
    ups: Seq<CellUpdate>,
    from: int,
) -> bool {
    forall|k: int|
        from <= k < ups.len() ==> {
            let u = #[trigger] ups[k];
            &&& pos_in_bounds(rows, columns, u.row as int, u.column as int)
            &&& a[u.row as int * columns + u.column as int].interaction is Untouched
            &&& b[u.row as int * columns + u.column as int] == CellState {
                interaction: CellInteraction::Cleared,
                kind: u.kind,
            }
            &&& u.interaction is Cleared
        }
}


/// Number consistency depends only on kinds.
pub proof fn lemma_numbers_ok_pointwise(a: Seq<CellState>, b: Seq<CellState>, rows: int, columns: int)
    requires
        a.len() == b.len(),
        a.len() == rows * columns,
        kinds_unchanged(a, b),
        numbers_ok(a, rows, columns),
    ensures
        numbers_ok(b, rows, columns),
{
    assert forall|r: int, c: int|
        pos_in_bounds(rows, columns, r, c) implies ((#[trigger] b[r * columns + c]).kind matches
        CellKind::Clear(n) ==> n as int == nbr_mines(b, rows, columns, r, c)) by {
        lemma_index_bound(rows, columns, r, c);
        assert forall|i: int| 0 <= i < a.len() implies mine_cell(#[trigger] a[i]) == mine_cell(
            #[trigger] b[i],
        ) by {}
        lemma_nbr_mines_pointwise(a, b, rows, columns, r, c);
    }
}

/// One notification of a dig: either a revealed cell reported with its new
/// state, or — on the victory transition only — a cosmetic flag shown on a
/// still-untouched cell.
pub open spec fn dig_update_entry_ok(
    a: Seq<CellState>,
    b: Seq<CellState>,
    rows: int,
    columns: int,
    u: CellUpdate,
    victory: bool,
) -> bool {
    &&& pos_in_bounds(rows, columns, u.row as int, u.column as int)
    &&& ((a[u.row as int * columns + u.column as int].interaction is Untouched && b[u.row as int
        * columns + u.column as int] == (CellState {
        interaction: CellInteraction::Cleared,
        kind: u.kind,
    }) && u.interaction is Cleared) || (victory && b[u.row as int * columns
        + u.column as int].interaction is Untouched && u.interaction is Flagged && u.kind
        is Mine))
}

/// A dig that was a no-op: grid, counters, status, snapshot and the
/// notification list are exactly as they were.
pub open spec fn unchanged_dig(
    a: GameState,
    b: GameState,
    ua: Seq<CellUpdate>,
    ub: Seq<CellUpdate>,
) -> bool {
    &&& b.cell_states == a.cell_states
    &&& b.cleared == a.cleared
    &&& b.status == a.status
    &&& b.info == a.info
    &&& ub == ua
}

/// One pending step of the reveal cascade. A guarded item (from a chord
/// click) digs its cell only if that cell is still untouched when the item
/// is processed; an unguarded item (from a zero cascade) follows the full
/// dig rules, chording an already-revealed numbered cell.
#[derive(Copy, Clone)]
struct WorkItem {
    row: isize,
    column: isize,
    only_untouched: bool,
}

/// How many cells of the sequence are untouched.
pub open spec fn count_untouched(cells: Seq<CellState>) -> int
    decreases cells.len(),
{
    if cells.len() == 0 {
        0
    } else {
        count_untouched(cells.drop_last()) + if cells.last().interaction is Untouched {
            1int
        } else {
            0int
        }
    }
}

/// The untouched count stays within the length of the sequence.
pub proof fn lemma_count_untouched_bounds(cells: Seq<CellState>)
    ensures
        0 <= count_untouched(cells) <= cells.len(),
    decreases cells.len(),
{
    if cells.len() > 0 {
        lemma_count_untouched_bounds(cells.drop_last());
    }
}

/// Replacing one cell changes the untouched count exactly by the difference
/// the new cell makes.
pub proof fn lemma_count_untouched_update(cells: Seq<CellState>, i: int, v: CellState)
    requires
        0 <= i < cells.len(),
    ensures
        count_untouched(cells.update(i, v)) == count_untouched(cells) - (if cells[i].interaction
            is Untouched {
            1int
        } else {
            0int
        }) + (if v.interaction is Untouched {
            1int
        } else {
            0int
        }),
    decreases cells.len(),
{
    let updated = cells.update(i, v);
    if i == cells.len() - 1 {
        assert(updated.drop_last() =~= cells.drop_last());
    } else {
        assert(updated.drop_last() =~= cells.drop_last().update(i, v));
        lemma_count_untouched_update(cells.drop_last(), i, v);
    }
}

/// The termination budget of a cascade stack: a guarded item can at most
/// skip or reveal, an unguarded one can additionally chord, so it weighs
/// more.
spec fn stack_weight(stack: Seq<WorkItem>) -> int
    decreases stack.len(),
{
    if stack.len() == 0 {
        0
    } else {
        stack_weight(stack.drop_last()) + if stack.last().only_untouched {
            1int
        } else {
            10int
        }
    }
}

/// The stack budget is never negative.
proof fn lemma_stack_weight_nonneg(stack: Seq<WorkItem>)
    ensures
        stack_weight(stack) >= 0,
    decreases stack.len(),
{
    if stack.len() > 0 {
        lemma_stack_weight_nonneg(stack.drop_last());
    }
}

/// Pushes one cascade step and accounts for its termination budget.
fn push_item(stack: &mut Vec<WorkItem>, row: isize, column: isize, only_untouched: bool)
    ensures
        final(stack)@ == old(stack)@.push(WorkItem { row, column, only_untouched }),
        stack_weight(final(stack)@) == stack_weight(old(stack)@) + (if only_untouched {
            1int
        } else {
            10int
        }),
{
    stack.push(WorkItem { row, column, only_untouched });
    proof {
        assert(stack@.drop_last() =~= old(stack)@);
    }
}

/// A dig that changed nothing keeps every cascade guarantee trivially.
proof fn lemma_dig_noop_obligations(
    cells: Seq<CellState>,
    rows: int,
    columns: int,
    ups: Seq<CellUpdate>,
    from: int,
)
    requires
        from == ups.len(),
    ensures
        update_entries_ok(cells, cells, rows, columns, ups, from),
{
}

/// The notification bookkeeping after the first reveal of a dig: the one
/// appended entry reports the revealed cell, and it is the only cell that
/// changed.
proof fn lemma_updates_after_open(
    cells0: Seq<CellState>,
    now: Seq<CellState>,
    rows: int,
    columns: int,
    ups0: Seq<CellUpdate>,
    ups1: Seq<CellUpdate>,
    u: CellUpdate,
    i0: int,
)
    requires
        pos_in_bounds(rows, columns, u.row as int, u.column as int),
        i0 == u.row as int * columns + u.column as int,
        cells0.len() == rows * columns,
        now.len() == cells0.len(),
        forall|j: int| 0 <= j < now.len() && j != i0 ==> now[j] == #[trigger] cells0[j],
        cells0[i0].interaction is Untouched,
        now[i0] == (CellState { interaction: CellInteraction::Cleared, kind: u.kind }),
        u.interaction is Cleared,
        ups1 == ups0.push(u),
    ensures
        update_entries_ok(cells0, now, rows, columns, ups1, ups0.len() as int),
        ups1.subrange(0, ups0.len() as int) == ups0,
{
    assert(ups1.subrange(0, ups0.len() as int) =~= ups0);
}

/// The whole game: parameters, grid, counters, status and the published
/// snapshot.
pub struct GameState {
    pub params: GameParams,
    pub rows: isize,
    pub columns: isize,
    pub mines: isize,
    pub cleared: isize,
    pub cell_states: Vec<CellState>,
    pub status: GameStatus,
    pub info: GameInfo,
}

/// The fixed shape of a game never changes between resets.
pub open spec fn same_board(a: GameState, b: GameState) -> bool {
    &&& b.params == a.params
    &&& b.rows == a.rows
    &&& b.columns == a.columns
    &&& b.mines == a.mines
}

/// Whether a position lies on a board of the given shape.
pub open spec fn pos_in_bounds(rows: int, columns: int, r: int, c: int) -> bool {
    0 <= r < rows && 0 <= c < columns
}

/// One when the position is on the board and holds a mine, else zero.
pub open spec fn mine_ind(cells: Seq<CellState>, rows: int, columns: int, r: int, c: int) -> int {
    if pos_in_bounds(rows, columns, r, c) && mine_cell(cells[r * columns + c]) {
        1
    } else {
        0
    }
}

/// How many of the up to eight neighbors of a position hold mines.
pub open spec fn nbr_mines(cells: Seq<CellState>, rows: int, columns: int, r: int, c: int) -> int {
    mine_ind(cells, rows, columns, r - 1, c - 1) + mine_ind(cells, rows, columns, r - 1, c)
        + mine_ind(cells, rows, columns, r - 1, c + 1) + mine_ind(cells, rows, columns, r, c - 1)
        + mine_ind(cells, rows, columns, r, c + 1) + mine_ind(cells, rows, columns, r + 1, c - 1)
        + mine_ind(cells, rows, columns, r + 1, c) + mine_ind(cells, rows, columns, r + 1, c + 1)
}

/// One when the position is on the board and shows a flag, else zero.
pub open spec fn flag_ind(cells: Seq<CellState>, rows: int, columns: int, r: int, c: int) -> int {
    if pos_in_bounds(rows, columns, r, c) && cells[r * columns + c].interaction is Flagged {
        1
    } else {
        0
    }
}

/// How many of the up to eight neighbors of a position are flagged.
pub open spec fn nbr_flags(cells: Seq<CellState>, rows: int, columns: int, r: int, c: int) -> int {
    flag_ind(cells, rows, columns, r - 1, c - 1) + flag_ind(cells, rows, columns, r - 1, c)
        + flag_ind(cells, rows, columns, r - 1, c + 1) + flag_ind(cells, rows, columns, r, c - 1)
        + flag_ind(cells, rows, columns, r, c + 1) + flag_ind(cells, rows, columns, r + 1, c - 1)
        + flag_ind(cells, rows, columns, r + 1, c) + flag_ind(cells, rows, columns, r + 1, c + 1)
}

/// Every numbered cell carries exactly its neighbor mine count.
pub open spec fn numbers_ok(cells: Seq<CellState>, rows: int, columns: int) -> bool {
    forall|r: int, c: int|
        pos_in_bounds(rows, columns, r, c) ==> ((#[trigger] cells[r * columns + c]).kind matches
        CellKind::Clear(n) ==> n as int == nbr_mines(cells, rows, columns, r, c))
}

/// Every cell is untouched with a zero count, as before the first dig.
pub open spec fn cells_all_default(cells: Seq<CellState>) -> bool {
    forall|i: int| 0 <= i < cells.len() ==> #[trigger] cells[i] == default_cell()
}

/// Before the first dig every cell still holds a zero count and nothing is
/// revealed; the player may already have placed flags.
pub open spec fn idle_cells(cells: Seq<CellState>) -> bool {
    forall|i: int|
        0 <= i < cells.len() ==> ((#[trigger] cells[i]).kind == CellKind::Clear(0) && !(
        cells[i].interaction is Cleared))
}

/// Some mine has been revealed — the game is lost.
pub open spec fn some_revealed_mine(cells: Seq<CellState>) -> bool {
    exists|i: int|
        0 <= i < cells.len() && mine_cell(#[trigger] cells[i]) && cells[i].interaction is Cleared
}

/// How many integers of `[0, x)` lie in `[lo, hi]`.
pub open spec fn rect_count_before(lo: int, hi: int, x: int) -> int {
    if hi < lo {
        0
    } else if x <= lo {
        0
    } else if x <= hi + 1 {
        x - lo
    } else {
        hi - lo + 1
    }
}

/// How many integers lie in `[lo, hi]`.
pub open spec fn rect_width(lo: int, hi: int) -> int {
    if hi < lo {
        0
    } else {
        hi - lo + 1
    }
}

/// The mine count of a sequence depends only on which cells are mines.
pub proof fn lemma_count_mines_pointwise(a: Seq<CellState>, b: Seq<CellState>)
    requires
        a.len() == b.len(),
        forall|i: int| 0 <= i < a.len() ==> mine_cell(#[trigger] a[i]) == mine_cell(#[trigger] b[i]),
    ensures
        count_mines(a) == count_mines(b),
    decreases a.len(),
{
    if a.len() > 0 {
        lemma_count_mines_pointwise(a.drop_last(), b.drop_last());
    }
}

/// A position on the board has a row-major index within the grid.
pub proof fn lemma_index_bound(rows: int, columns: int, r: int, c: int)
    requires
        pos_in_bounds(rows, columns, r, c),
    ensures
        0 <= r * columns + c < rows * columns,
{
    assert(0 <= r * columns + c < rows * columns) by (nonlinear_arith)
        requires
            0 <= r < rows,
            0 <= c < columns,
    ;
}

/// Neighbor mine counts depend only on which cells are mines.
pub proof fn lemma_nbr_mines_pointwise(
    a: Seq<CellState>,
    b: Seq<CellState>,
    rows: int,
    columns: int,
    r: int,
    c: int,
)
    requires
        a.len() == b.len(),
        a.len() == rows * columns,
        forall|i: int| 0 <= i < a.len() ==> mine_cell(#[trigger] a[i]) == mine_cell(#[trigger] b[i]),
    ensures
        nbr_mines(a, rows, columns, r, c) == nbr_mines(b, rows, columns, r, c),
{
    lemma_mine_ind_pointwise(a, b, rows, columns, r - 1, c - 1);
    lemma_mine_ind_pointwise(a, b, rows, columns, r - 1, c);
    lemma_mine_ind_pointwise(a, b, rows, columns, r - 1, c + 1);
    lemma_mine_ind_pointwise(a, b, rows, columns, r, c - 1);
    lemma_mine_ind_pointwise(a, b, rows, columns, r, c + 1);
    lemma_mine_ind_pointwise(a, b, rows, columns, r + 1, c - 1);
    lemma_mine_ind_pointwise(a, b, rows, columns, r + 1, c);
    lemma_mine_ind_pointwise(a, b, rows, columns, r + 1, c + 1);
}

/// The mine indicator of one position depends only on which cells are mines.
pub proof fn lemma_mine_ind_pointwise(
    a: Seq<CellState>,
    b: Seq<CellState>,
    rows: int,
    columns: int,
    r: int,
    c: int,
)
    requires
        a.len() == b.len(),
        a.len() == rows * columns,
        forall|i: int| 0 <= i < a.len() ==> mine_cell(#[trigger] a[i]) == mine_cell(#[trigger] b[i]),
    ensures
        mine_ind(a, rows, columns, r, c) == mine_ind(b, rows, columns, r, c),
{
    if pos_in_bounds(rows, columns, r, c) {
        lemma_index_bound(rows, columns, r, c);
    }
}

impl GameState {
    /// Number of cells on the board.
    pub open spec fn total(self) -> int {
        self.rows as int * self.columns as int
    }

    /// Whether a position lies on the board.
    pub open spec fn spec_in_bounds(self, r: int, c: int) -> bool {
        pos_in_bounds(self.rows as int, self.columns as int, r, c)
    }

    /// Row-major index of a position.
    pub open spec fn cell_index(self, r: int, c: int) -> int {
        r * (self.columns as int) + c
    }

    /// The cell at a position.
    pub open spec fn cell_at(self, r: int, c: int) -> CellState {
        self.cell_states@[self.cell_index(r, c)]
    }

    /// Dimensions and mine budget follow the parameters, and the grid has
    /// one cell per position.
    pub open spec fn dims_ok(self) -> bool {
        &&& self.rows as int == spec_rows(self.params.size)
        &&& self.columns as int == spec_columns(self.params.size)
        &&& self.mines as int == spec_mine_count(
            self.rows as int,
            self.columns as int,
            self.params.difficulty,
        )
        &&& self.cell_states@.len() == self.total()
    }

    /// How many of the up to eight neighbors of a position hold mines.
    pub open spec fn neighbor_mine_count(self, r: int, c: int) -> int {
        nbr_mines(self.cell_states@, self.rows as int, self.columns as int, r, c)
    }

    /// How many of the up to eight neighbors of a position are flagged.
    pub open spec fn neighbor_flag_count(self, r: int, c: int) -> int {
        nbr_flags(self.cell_states@, self.rows as int, self.columns as int, r, c)
    }

    /// Every numbered cell carries exactly its neighbor mine count.
    pub open spec fn numbers_consistent(self) -> bool {
        numbers_ok(self.cell_states@, self.rows as int, self.columns as int)
    }

    /// The board carries its full mine budget and consistent numbers; holds
    /// from the first dig up to the next reset.
    pub open spec fn mines_placed(self) -> bool {
        &&& count_mines(self.cell_states@) == self.mines as int
        &&& self.numbers_consistent()
    }

    /// Every cell is untouched with a zero count, as before the first dig.
    pub open spec fn all_default(self) -> bool {
        cells_all_default(self.cell_states@)
    }

    /// Some mine has been revealed — the game is lost.
    pub open spec fn has_revealed_mine(self) -> bool {
        some_revealed_mine(self.cell_states@)
    }

    /// Well-formedness of the grid and counters: the shape follows the
    /// parameters, `cleared` counts the revealed non-mine cells, an idle
    /// board is untouched, a started board carries its mines, and a mine is
    /// only ever revealed on a lost board.
    pub open spec fn grid_inv(self) -> bool {
        &&& self.dims_ok()
        &&& self.cleared as int == count_cleared(self.cell_states@)
        &&& (self.status is Idle ==> idle_cells(self.cell_states@))
        &&& (!(self.status is Idle) ==> self.mines_placed())
        &&& (!(self.status is GameOver) ==> !self.has_revealed_mine())
    }

    /// The published snapshot agrees with the game's own counters.
    pub open spec fn info_synced(self) -> bool {
        &&& self.info.cleared == self.cleared
        &&& self.info.status == self.status
        &&& self.info.clear_total as int == self.total() - self.mines as int
        &&& 0 <= self.info.elapsed_seconds
    }

    /// The public invariant: a well-formed grid with a synced snapshot.
    pub open spec fn inv(self) -> bool {
        self.grid_inv() && self.info_synced()
    }

    /// Builds an idle board for the given parameters: every cell untouched,
    /// nothing cleared, and the snapshot showing how many cells must be
    /// cleared to win.
    pub fn new(params: GameParams) -> (r: GameState)
        ensures
            r.inv(),
            r.params == params,
            r.status is Idle,
            r.cleared == 0,
            r.all_default(),
            r.info == (GameInfo {
                elapsed_seconds: 0,
                cleared: 0,
                clear_total: (r.total() - r.mines as int) as isize,
                status: GameStatus::Idle,
            }),
    {
        let (rows, columns): (isize, isize) = match params.size {
            Size::Small => (8, 12),
            Size::Medium => (10, 15),
            Size::Large => (12, 18),
        };
        proof {
            assert(0 <= rows as int <= 12 && 0 <= columns as int <= 18);
            assert((rows as int) * (columns as int) <= 216 && 0 <= (rows as int) * (
            columns as int)) by (nonlinear_arith)
                requires
                    0 <= rows as int <= 12,
                    0 <= columns as int <= 18,
            ;
        }
        let total = rows * columns;
        let pct: isize = match params.difficulty {
            Difficulty::Easy => 15,
            Difficulty::Normal => 25,
            Difficulty::Hard => 35,
        };
        let mines = total * pct / 100;
        let mut cell_states: Vec<CellState> = Vec::new();
        let n = total as usize;
        let mut i: usize = 0;
        while i < n
            invariant
                i <= n,
                cell_states@.len() == i,
                forall|j: int| 0 <= j < i ==> #[trigger] cell_states@[j] == default_cell(),
            decreases n - i,
        {
            cell_states.push(CellState { interaction: CellInteraction::Untouched, kind: CellKind::Clear(0) });
            i = i + 1;
        }
        proof {
            lemma_count_zero(cell_states@);
        }
        GameState {
            params,
            rows,
            columns,
            mines,
            cleared: 0,
            cell_states,
            status: GameStatus::Idle,
            info: GameInfo {
                elapsed_seconds: 0,
                cleared: 0,
                clear_total: total - mines,
                status: GameStatus::Idle,
            },
        }
    }

    /// The fixed `(rows, columns)` shape of this board.
    pub fn dimensions(&self) -> (r: (isize, isize))
        ensures
            r == (self.rows, self.columns),
    {
        (self.rows, self.columns)
    }

    /// The latest published snapshot.
    pub fn info(&self) -> (r: GameInfo)
        ensures
            r == self.info,
    {
        self.info
    }

    /// Row-major index of a position, or nothing when it is off the board.
    fn index(&self, row: isize, column: isize) -> (r: Option<usize>)
        requires
            self.dims_ok(),
        ensures
            (match r {
                Some(i) => self.spec_in_bounds(row as int, column as int) && i as int
                    == self.cell_index(row as int, column as int) && (i as int)
                    < self.cell_states@.len(),
                None => !self.spec_in_bounds(row as int, column as int),
            }),
    {
        if row >= 0 && column >= 0 && row < self.rows && column < self.columns {
            proof {
                assert(self.rows as int <= 12 && self.columns as int <= 18);
                assert((row as int) * (self.columns as int) + (column as int) < self.total() && 0
                    <= (row as int) * (self.columns as int) + (column as int) && (row as int)
                    * (self.columns as int) <= 198) by (nonlinear_arith)
                    requires
                        0 <= (row as int) && (row as int) < (self.rows as int),
                        0 <= (column as int) && (column as int) < (self.columns as int),
                        self.rows as int <= 12,
                        self.columns as int <= 18,
                ;
            }
            Some((row * self.columns + column) as usize)
        } else {
            None
        }
    }

    /// What a position currently shows, or nothing when it is off the board.
    pub fn get_cell_state(&self, row: isize, column: isize) -> (r: Option<
        (CellInteraction, CellKind),
    >)
        requires
            self.dims_ok(),
        ensures
            (match r {
                Some(p) => self.spec_in_bounds(row as int, column as int) && p == (
                    self.cell_at(row as int, column as int).interaction,
                    self.cell_at(row as int, column as int).kind,
                ),
                None => !self.spec_in_bounds(row as int, column as int),
            }),
    {
        match self.index(row, column) {
            Some(i) => {
                let cs = self.cell_states[i];
                Some((cs.interaction, cs.kind))
            },
            None => None,
        }
    }

    /// Whether the cell at a position is a mine; off-board positions count
    /// as mine-free.
    fn is_mine_at(&self, row: isize, column: isize) -> (r: bool)
        requires
            self.dims_ok(),
        ensures
            r == (self.spec_in_bounds(row as int, column as int) && mine_cell(
                self.cell_at(row as int, column as int),
            )),
            r == (mine_ind(
                self.cell_states@,
                self.rows as int,
                self.columns as int,
                row as int,
                column as int,
            ) == 1),
    {
        match self.index(row, column) {
            Some(i) => matches!(self.cell_states[i].kind, CellKind::Mine),
            None => false,
        }
    }

    /// Whether the cell at a position is flagged; off-board positions count
    /// as unflagged.
    fn is_flagged_at(&self, row: isize, column: isize) -> (r: bool)
        requires
            self.dims_ok(),
        ensures
            r == (flag_ind(
                self.cell_states@,
                self.rows as int,
                self.columns as int,
                row as int,
                column as int,
            ) == 1),
    {
        match self.index(row, column) {
            Some(i) => matches!(self.cell_states[i].interaction, CellInteraction::Flagged),
            None => false,
        }
    }

    /// Counts the mines among the up to eight neighbors of an on-board
    /// position.
    fn count_adjacent_mines(&self, row: isize, column: isize) -> (n: u32)
        requires
            self.dims_ok(),
            self.spec_in_bounds(row as int, column as int),
        ensures
            n as int == nbr_mines(
                self.cell_states@,
                self.rows as int,
                self.columns as int,
                row as int,
                column as int,
            ),
            n <= 8,
    {
        let mut n: u32 = 0;
        if self.is_mine_at(row - 1, column - 1) {
            n = n + 1;
        }
        if self.is_mine_at(row - 1, column) {
            n = n + 1;
        }
        if self.is_mine_at(row - 1, column + 1) {
            n = n + 1;
        }
        if self.is_mine_at(row, column - 1) {
            n = n + 1;
        }
        if self.is_mine_at(row, column + 1) {
            n = n + 1;
        }
        if self.is_mine_at(row + 1, column - 1) {
            n = n + 1;
        }
        if self.is_mine_at(row + 1, column) {
            n = n + 1;
        }
        if self.is_mine_at(row + 1, column + 1) {
            n = n + 1;
        }
        n
    }

    /// Counts the flags among the up to eight neighbors of an on-board
    /// position.
    fn count_adjacent_flags(&self, row: isize, column: isize) -> (n: u32)
        requires
            self.dims_ok(),
            self.spec_in_bounds(row as int, column as int),
        ensures
            n as int == nbr_flags(
                self.cell_states@,
                self.rows as int,
                self.columns as int,
                row as int,
                column as int,
            ),
            n <= 8,
    {
        let mut n: u32 = 0;
        if self.is_flagged_at(row - 1, column - 1) {
            n = n + 1;
        }
        if self.is_flagged_at(row - 1, column) {
            n = n + 1;
        }
        if self.is_flagged_at(row - 1, column + 1) {
            n = n + 1;
        }
        if self.is_flagged_at(row, column - 1) {
            n = n + 1;
        }
        if self.is_flagged_at(row, column + 1) {
            n = n + 1;
        }
        if self.is_flagged_at(row + 1, column - 1) {
            n = n + 1;
        }
        if self.is_flagged_at(row + 1, column) {
            n = n + 1;
        }
        if self.is_flagged_at(row + 1, column + 1) {
            n = n + 1;
        }
        n
    }

    /// The clamped safe-zone rectangle rows around a clicked row: every
    /// on-board row within one of the click lies inside `[r0, r1]`, the
    /// rectangle lies on the board when nonempty, and it spans at most three
    /// rows.
    fn clamp_zone(click: isize, limit: isize) -> (r: (isize, isize))
        requires
            2 <= limit <= 18,
        ensures
            r.0 as int == (if click as int - 1 >= 0 {
                click as int - 1
            } else {
                0int
            }),
            r.1 as int == (if click as int + 1 <= limit as int - 1 {
                click as int + 1
            } else {
                limit as int - 1
            }),
            r.0 >= 0,
            r.1 <= limit - 1,
            r.1 - r.0 + 1 <= 3,
    {
        let lo = if click > 0 {
            click - 1
        } else {
            0
        };
        let hi = if click < limit - 1 {
            click + 1
        } else {
            limit - 1
        };
        (lo, hi)
    }

    /// Collects, in increasing order, the indices of every cell outside the
    /// safe-zone rectangle `[r0, r1] x [c0, c1]`; at most nine cells are left
    /// out.
    fn build_eligible(&self, r0: isize, r1: isize, c0: isize, c1: isize) -> (eligible: Vec<usize>)
        requires
            self.dims_ok(),
            r1 - r0 + 1 <= 3,
            c1 - c0 + 1 <= 3,
            0 <= r0 || r1 < r0,
            0 <= c0 || c1 < c0,
            c1 <= self.columns - 1,
        ensures
            eligible@.len() >= self.total() - 9,
            forall|k: int| 0 <= k < eligible@.len() ==> (#[trigger] eligible@[k]) < self.total(),
            forall|k1: int, k2: int|
                0 <= k1 < k2 < eligible@.len() ==> eligible@[k1] < eligible@[k2],
            forall|k: int|
                0 <= k < eligible@.len() ==> !(r0 as int <= ((#[trigger] eligible@[k]) as int)
                    / (self.columns as int) <= r1 as int && c0 as int <= ((eligible@[k]) as int)
                    % (self.columns as int) <= c1 as int),
    {
        let rows = self.rows;
        let columns = self.columns;
        let ghost cint = columns as int;
        let ghost zw = rect_width(c0 as int, c1 as int);
        let mut eligible: Vec<usize> = Vec::new();
        let mut next: usize = 0;
        let mut r: isize = 0;
        while r < rows
            invariant
                self.dims_ok(),
                rows == self.rows,
                columns == self.columns,
                cint == columns as int,
                zw == rect_width(c0 as int, c1 as int),
                r1 - r0 + 1 <= 3,
                c1 - c0 + 1 <= 3,
                0 <= c0 || c1 < c0,
                c1 <= columns - 1,
                0 <= r <= rows,
                next as int == r * cint,
                eligible@.len() == r * cint - rect_count_before(r0 as int, r1 as int, r as int)
                    * zw,
                forall|k: int| 0 <= k < eligible@.len() ==> (#[trigger] eligible@[k]) < next,
                forall|k1: int, k2: int|
                    0 <= k1 < k2 < eligible@.len() ==> eligible@[k1] < eligible@[k2],
                forall|k: int|
                    0 <= k < eligible@.len() ==> !(r0 as int <= ((#[trigger] eligible@[k]) as int)
                        / cint <= r1 as int && c0 as int <= ((eligible@[k]) as int) % cint
                        <= c1 as int),
            decreases rows - r,
        {
            let in_zone_row = r0 <= r && r <= r1;
            let ghost zrb = rect_count_before(r0 as int, r1 as int, r as int);
            let ghost len0 = eligible@.len() as int;
            let mut c: isize = 0;
            while c < columns
                invariant
                    self.dims_ok(),
                    rows == self.rows,
                    columns == self.columns,
                    cint == columns as int,
                    zw == rect_width(c0 as int, c1 as int),
                    r1 - r0 + 1 <= 3,
                    c1 - c0 + 1 <= 3,
                    0 <= c0 || c1 < c0,
                    c1 <= columns - 1,
                    0 <= r < rows,
                    0 <= c <= columns,
                    in_zone_row == (r0 <= r && r <= r1),
                    zrb == rect_count_before(r0 as int, r1 as int, r as int),
                    len0 == r * cint - zrb * zw,
                    next as int == r * cint + c,
                    eligible@.len() == len0 + (if in_zone_row {
                        c - rect_count_before(c0 as int, c1 as int, c as int)
                    } else {
                        c as int
                    }),
                    forall|k: int| 0 <= k < eligible@.len() ==> (#[trigger] eligible@[k]) < next,
                    forall|k1: int, k2: int|
                        0 <= k1 < k2 < eligible@.len() ==> eligible@[k1] < eligible@[k2],
                    forall|k: int|
                        0 <= k < eligible@.len() ==> !(r0 as int <= ((
                        #[trigger] eligible@[k]) as int) / cint <= r1 as int && c0 as int <= ((
                        eligible@[k]) as int) % cint <= c1 as int),
                decreases columns - c,
            {
                let skip = in_zone_row && c0 <= c && c <= c1;
                if !skip {
                    proof {
                        assert((next as int) / cint == r as int && (next as int) % cint
                            == c as int) by (nonlinear_arith)
                            requires
                                next as int == (r as int) * cint + (c as int),
                                0 <= (c as int) && (c as int) < cint,
                                0 <= r as int,
                                0 < cint,
                        ;
                    }
                    eligible.push(next);
                }
                next = next + 1;
                c = c + 1;
            }
            proof {
                if in_zone_row {
                    assert(rect_count_before(c0 as int, c1 as int, cint) == zw);
                    assert(eligible@.len() == r * cint - zrb * zw + cint - zw);
                    assert(rect_count_before(r0 as int, r1 as int, r as int + 1) == zrb + 1);
                    assert((zrb + 1) * zw == zrb * zw + zw) by (nonlinear_arith);
                    assert((r as int + 1) * cint == r * cint + cint) by (nonlinear_arith);
                } else {
                    assert(rect_count_before(r0 as int, r1 as int, r as int + 1) == zrb);
                    assert((r as int + 1) * cint == r * cint + cint) by (nonlinear_arith);
                }
            }
            r = r + 1;
        }
        proof {
            let zrall = rect_count_before(r0 as int, r1 as int, rows as int);
            assert(zrall <= 3);
            assert(zrall * zw <= 9) by (nonlinear_arith)
                requires
                    0 <= zrall <= 3,
                    0 <= zw <= 3,
            ;
            assert(rows as int * cint == self.total());
        }
        eligible
    }

    /// Lays out the board for the first dig at `(row, column)`: the full mine
    /// budget is placed outside the safe zone around the click, every
    /// non-mine cell receives its neighbor mine count, and the game moves to
    /// `Started`. Nothing the player sees changes yet: interactions, the
    /// cleared counter and the snapshot stay as they were.
    fn start(&mut self, row: isize, column: isize)
        requires
            old(self).grid_inv(),
            old(self).status is Idle,
        ensures
            final(self).grid_inv(),
            same_board(*old(self), *final(self)),
            final(self).info == old(self).info,
            final(self).status is Started,
            final(self).cleared == old(self).cleared,
            final(self).cell_states@.len() == old(self).cell_states@.len(),
            forall|i: int|
                0 <= i < final(self).cell_states@.len() ==> (#[trigger] final(self).cell_states@[i]).interaction == old(self).cell_states@[i].interaction,
            forall|r: int, c: int|
                final(self).spec_in_bounds(r, c) && row as int - 1 <= r <= row as int + 1
                    && column as int - 1 <= c <= column as int + 1 ==> !mine_cell(#[trigger] final(self).cell_at(r, c)),
    {
        proof {
            lemma_mine_count_bounds(self.params.difficulty, self.params.size);
        }
        let (r0, r1) = Self::clamp_zone(row, self.rows);
        let (c0, c1) = Self::clamp_zone(column, self.columns);
        let ghost cint = self.columns as int;
        let mut eligible = self.build_eligible(r0, r1, c0, c1);
        let ghost cells0 = self.cell_states@;
        proof {
            assert forall|i: int| 0 <= i < self.cell_states@.len() implies !mine_cell(
                #[trigger] self.cell_states@[i],
            ) && !cleared_cell(self.cell_states@[i]) by {
                assert(cells0[i].kind == CellKind::Clear(0));
            }
            lemma_count_zero(self.cell_states@);
        }

        let mut placed: isize = 0;
        while placed < self.mines
            invariant
                self.dims_ok(),
                same_board(*old(self), *self),
                self.status == old(self).status,
                self.cleared == old(self).cleared,
                self.info == old(self).info,
                cint == self.columns as int,
                self.cell_states@.len() == cells0.len(),
                0 <= placed <= self.mines,
                self.mines as int + 9 < self.total(),
                r0 >= 0 && r1 <= self.rows - 1,
                c0 >= 0 && c1 <= self.columns - 1,
                eligible@.len() >= cells0.len() - 9 - placed,
                count_mines(self.cell_states@) == placed as int,
                forall|k: int|
                    0 <= k < eligible@.len() ==> (#[trigger] eligible@[k]) < self.total(),
                forall|k1: int, k2: int|
                    0 <= k1 < k2 < eligible@.len() ==> eligible@[k1] != eligible@[k2],
                forall|k: int|
                    0 <= k < eligible@.len() ==> !mine_cell(
                        self.cell_states@[#[trigger] eligible@[k] as int],
                    ),
                forall|k: int|
                    0 <= k < eligible@.len() ==> !(r0 as int <= ((#[trigger] eligible@[k]) as int)
                        / cint <= r1 as int && c0 as int <= ((eligible@[k]) as int) % cint
                        <= c1 as int),
                forall|i: int|
                    0 <= i < self.cell_states@.len() ==> (#[trigger] self.cell_states@[i]).interaction
                        == cells0[i].interaction,
                forall|rr: int, cc: int|
                    r0 <= rr <= r1 && c0 <= cc <= c1 && 0 <= rr * cint + cc < cells0.len()
                        ==> !mine_cell(#[trigger] self.cell_states@[rr * cint + cc]),
            decreases self.mines - placed,
        {
            let j = rand_below(eligible.len());
            let idx = eligible[j];
            let cs = self.cell_states[idx];
            proof {
                lemma_count_update(self.cell_states@, idx as int, CellState { interaction: cs.interaction, kind: CellKind::Mine });
            }
            self.cell_states[idx] = CellState { interaction: cs.interaction, kind: CellKind::Mine };
            proof {
                assert forall|rr: int, cc: int|
                    r0 <= rr <= r1 && c0 <= cc <= c1 && 0 <= rr * cint + cc
                        < cells0.len() implies !mine_cell(
                    #[trigger] self.cell_states@[rr * cint + cc],
                ) by {
                    if rr * cint + cc == idx as int {
                        assert((idx as int) / cint == rr && (idx as int) % cint == cc)
                            by (nonlinear_arith)
                            requires
                                idx as int == rr * cint + cc,
                                0 <= cc < cint,
                                0 <= rr,
                                0 < cint,
                        ;
                    }
                }
            }
            eligible.swap_remove(j);
            placed = placed + 1;
        }

        let ghost mined = self.cell_states@;
        let rows = self.rows;
        let columns = self.columns;
        let mut r: isize = 0;
        while r < rows
            invariant
                self.dims_ok(),
                same_board(*old(self), *self),
                self.status == old(self).status,
                self.cleared == old(self).cleared,
                self.info == old(self).info,
                rows == self.rows,
                columns == self.columns,
                cint == self.columns as int,
                0 <= r <= rows,
                self.cell_states@.len() == mined.len(),
                mined.len() == cells0.len(),
                forall|i: int|
                    0 <= i < self.cell_states@.len() ==> mine_cell(
                        #[trigger] self.cell_states@[i],
                    ) == mine_cell(mined[i]),
                forall|i: int|
                    0 <= i < self.cell_states@.len() ==> (#[trigger] self.cell_states@[i]).interaction
                        == cells0[i].interaction,
                count_mines(mined) == self.mines as int,
                forall|rr: int, cc: int|
                    pos_in_bounds(self.rows as int, cint, rr, cc) && rr * cint + cc < r * cint
                        ==> ((#[trigger] self.cell_states@[rr * cint + cc]).kind matches
                        CellKind::Clear(n) ==> n as int == nbr_mines(
                        self.cell_states@,
                        self.rows as int,
                        cint,
                        rr,
                        cc,
                    )),
                forall|i: int|
                    r * cint <= i < self.cell_states@.len() ==> (#[trigger] self.cell_states@[i]).kind
                        == mined[i].kind,
            decreases rows - r,
        {
            let mut c: isize = 0;
            while c < columns
                invariant
                    self.dims_ok(),
                    same_board(*old(self), *self),
                    self.status == old(self).status,
                    self.cleared == old(self).cleared,
                    self.info == old(self).info,
                    rows == self.rows,
                    columns == self.columns,
                    cint == self.columns as int,
                    0 <= r < rows,
                    0 <= c <= columns,
                    self.cell_states@.len() == mined.len(),
                    mined.len() == cells0.len(),
                    forall|i: int|
                        0 <= i < self.cell_states@.len() ==> mine_cell(
                            #[trigger] self.cell_states@[i],
                        ) == mine_cell(mined[i]),
                    forall|i: int|
                        0 <= i < self.cell_states@.len() ==> (#[trigger] self.cell_states@[i]).interaction
                            == cells0[i].interaction,
                    count_mines(mined) == self.mines as int,
                    forall|rr: int, cc: int|
                        pos_in_bounds(self.rows as int, cint, rr, cc) && rr * cint + cc < r
                            * cint + c ==> ((#[trigger] self.cell_states@[rr * cint + cc]).kind
                            matches CellKind::Clear(n) ==> n as int == nbr_mines(
                            self.cell_states@,
                            self.rows as int,
                            cint,
                            rr,
                            cc,
                        )),
                    forall|i: int|
                        r * cint + c <= i < self.cell_states@.len() ==> (
                        #[trigger] self.cell_states@[i]).kind == mined[i].kind,
                decreases columns - c,
            {
                let idx = match self.index(r, c) {
                    Some(i) => i,
                    None => 0,
                };
                let ghost prev = self.cell_states@;
                let cs = self.cell_states[idx];
                if !matches!(cs.kind, CellKind::Mine) {
                    let n = self.count_adjacent_mines(r, c);
                    self.cell_states[idx] = CellState {
                        interaction: cs.interaction,
                        kind: CellKind::Clear(n),
                    };
                }
                proof {
                    assert forall|i: int| 0 <= i < self.cell_states@.len() implies mine_cell(
                        #[trigger] self.cell_states@[i],
                    ) == mine_cell(prev[i]) by {}
                    assert forall|rr: int, cc: int|
                        pos_in_bounds(self.rows as int, cint, rr, cc) implies #[trigger] nbr_mines(
                        self.cell_states@,
                        self.rows as int,
                        cint,
                        rr,
                        cc,
                    ) == nbr_mines(prev, self.rows as int, cint, rr, cc) by {
                        lemma_nbr_mines_pointwise(
                            self.cell_states@,
                            prev,
                            self.rows as int,
                            cint,
                            rr,
                            cc,
                        );
                    }
                    assert forall|rr: int, cc: int|
                        pos_in_bounds(self.rows as int, cint, rr, cc) && rr * cint + cc < (
                        r as int) * cint + (c as int) + 1 implies ((
                    #[trigger] self.cell_states@[rr * cint + cc]).kind matches CellKind::Clear(n)
                        ==> n as int == nbr_mines(
                        self.cell_states@,
                        self.rows as int,
                        cint,
                        rr,
                        cc,
                    )) by {
                        if rr * cint + cc == idx as int {
                            assert(rr == r as int && cc == c as int) by (nonlinear_arith)
                                requires
                                    rr * cint + cc == (r as int) * cint + (c as int),
                                    0 <= cc < cint,
                                    0 <= (c as int) && (c as int) < cint,
                                    0 <= rr,
                                    0 <= r as int,
                                ;
                        }
                    }
                }
                c = c + 1;
            }
            proof {
                assert(((r as int) + 1) * cint == (r as int) * cint + cint) by (nonlinear_arith);
            }
            r = r + 1;
        }

        self.status = GameStatus::Started;
        proof {
            lemma_count_mines_pointwise(self.cell_states@, mined);
            assert forall|i: int|
                0 <= i < self.cell_states@.len() implies !cleared_cell(
                #[trigger] self.cell_states@[i],
            ) && !(self.cell_states@[i].interaction is Cleared) by {
                assert(!(cells0[i].interaction is Cleared));
            }
            lemma_count_zero(self.cell_states@);
            assert forall|rr: int, cc: int|
                pos_in_bounds(self.rows as int, cint, rr, cc) implies 0 <= rr * cint + cc < (
            self.rows as int) * cint by {
                assert(rr * cint + cc < (self.rows as int) * cint && 0 <= rr * cint + cc)
                    by (nonlinear_arith)
                    requires
                        0 <= rr && rr < self.rows as int,
                        0 <= cc && cc < cint,
                        0 < cint,
                ;
            }
            assert(self.numbers_consistent());
            assert(!self.has_revealed_mine());
            assert(self.cleared as int == count_cleared(self.cell_states@));
        }
    }

    /// Reveals one untouched cell: it becomes cleared, its notification is
    /// appended, a non-mine raises the cleared counter by one, and a mine
    /// ends the game.
    fn reveal_cell(&mut self, i: usize, row: isize, column: isize, updates: &mut Vec<CellUpdate>)
        requires
            old(self).dims_ok(),
            old(self).spec_in_bounds(row as int, column as int),
            i as int == old(self).cell_index(row as int, column as int),
            old(self).cell_states@[i as int].interaction is Untouched,
            old(self).cleared as int == count_cleared(old(self).cell_states@),
        ensures
            same_board(*old(self), *final(self)),
            final(self).info == old(self).info,
            final(self).cell_states@ == old(self).cell_states@.update(
                i as int,
                CellState {
                    interaction: CellInteraction::Cleared,
                    kind: old(self).cell_states@[i as int].kind,
                },
            ),
            final(self).cleared as int == count_cleared(final(self).cell_states@),
            final(self).cleared == old(self).cleared + (if mine_cell(
                old(self).cell_states@[i as int],
            ) {
                0int
            } else {
                1int
            }),
            final(self).status == (if mine_cell(old(self).cell_states@[i as int]) {
                GameStatus::GameOver
            } else {
                old(self).status
            }),
            final(updates)@ == old(updates)@.push(
                CellUpdate {
                    row,
                    column,
                    interaction: CellInteraction::Cleared,
                    kind: old(self).cell_states@[i as int].kind,
                },
            ),
            count_untouched(final(self).cell_states@) == count_untouched(old(self).cell_states@)
                - 1,
    {
        proof {
            lemma_index_bound(
                self.rows as int,
                self.columns as int,
                row as int,
                column as int,
            );
            lemma_count_bounds(self.cell_states@);
            assert(self.rows as int <= 12 && self.columns as int <= 18);
            assert((self.rows as int) * (self.columns as int) <= 216) by (nonlinear_arith)
                requires
                    0 <= self.rows as int <= 12,
                    0 <= self.columns as int <= 18,
            ;
            lemma_count_update(
                self.cell_states@,
                i as int,
                CellState {
                    interaction: CellInteraction::Cleared,
                    kind: self.cell_states@[i as int].kind,
                },
            );
            lemma_count_untouched_update(
                self.cell_states@,
                i as int,
                CellState {
                    interaction: CellInteraction::Cleared,
                    kind: self.cell_states@[i as int].kind,
                },
            );
        }
        let cs = self.cell_states[i];
        self.cell_states[i] = CellState { interaction: CellInteraction::Cleared, kind: cs.kind };
        updates.push(
            CellUpdate { row, column, interaction: CellInteraction::Cleared, kind: cs.kind },
        );
        match cs.kind {
            CellKind::Mine => {
                self.status = GameStatus::GameOver;
            },
            CellKind::Clear(_) => {
                self.cleared = self.cleared + 1;
            },
        }
    }

    /// Reveals the untouched cell a dig landed on and records everything a
    /// dig promises about that single change: the notification, the counter,
    /// the status, and the untouched bookkeeping.
    #[verifier::rlimit(60)]
    #[verifier::spinoff_prover]
    fn open_cell(&mut self, i0: usize, row: isize, column: isize, updates: &mut Vec<CellUpdate>)
        requires
            old(self).grid_inv(),
            old(self).status is Started,
            old(self).spec_in_bounds(row as int, column as int),
            i0 as int == old(self).cell_index(row as int, column as int),
            old(self).cell_states@[i0 as int].interaction is Untouched,
        ensures
            same_board(*old(self), *final(self)),
            final(self).dims_ok(),
            final(self).info == old(self).info,
            final(self).cell_states@ == old(self).cell_states@.update(
                i0 as int,
                CellState {
                    interaction: CellInteraction::Cleared,
                    kind: old(self).cell_states@[i0 as int].kind,
                },
            ),
            final(self).cell_states@.len() == old(self).cell_states@.len(),
            kinds_unchanged(old(self).cell_states@, final(self).cell_states@),
            interactions_monotone(old(self).cell_states@, final(self).cell_states@),
            final(self).cleared as int == count_cleared(final(self).cell_states@),
            final(self).cleared >= old(self).cleared,
            final(self).status is Started || final(self).status is GameOver,
            final(self).status is GameOver <==> some_revealed_mine(final(self).cell_states@),
            final(self).status is GameOver <==> mine_cell(old(self).cell_states@[i0 as int]),
            final(updates)@ == old(updates)@.push(
                CellUpdate {
                    row,
                    column,
                    interaction: CellInteraction::Cleared,
                    kind: old(self).cell_states@[i0 as int].kind,
                },
            ),
            final(updates)@.subrange(0, old(updates)@.len() as int) == old(updates)@,
            update_entries_ok(
                old(self).cell_states@,
                final(self).cell_states@,
                old(self).rows as int,
                old(self).columns as int,
                final(updates)@,
                old(updates)@.len() as int,
            ),
            count_untouched(final(self).cell_states@) == count_untouched(old(self).cell_states@)
                - 1,
    {
        let ghost cells0 = self.cell_states@;
        let ghost ups0 = updates@;
        let ghost rint = self.rows as int;
        let ghost cint = self.columns as int;
        self.reveal_cell(i0, row, column, updates);
        proof {
            let now = self.cell_states@;
            if mine_cell(cells0[i0 as int]) {
                assert(mine_cell(now[i0 as int]) && now[i0 as int].interaction is Cleared);
                assert(some_revealed_mine(now));
            } else {
                assert forall|j: int| 0 <= j < now.len() implies !(mine_cell(#[trigger] now[j])
                    && now[j].interaction is Cleared) by {
                    if j != i0 as int {
                        assert(now[j] == cells0[j]);
                    }
                }
            }
            lemma_updates_after_open(
                cells0,
                now,
                rint,
                cint,
                ups0,
                updates@,
                CellUpdate {
                    row,
                    column,
                    interaction: CellInteraction::Cleared,
                    kind: cells0[i0 as int].kind,
                },
                i0 as int,
            );
        }
    }

    /// The full dig rules for one position, cascade included. An untouched
    /// cell is revealed; a revealed zero spreads to all its neighbors; a
    /// revealed numbered cell whose flagged-neighbor count matches its
    /// number digs its untouched neighbors (a chord); flags and off-board
    /// positions are left alone.
    #[verifier::rlimit(60)]
    #[verifier::spinoff_prover]
    fn dig_inner(&mut self, row: isize, column: isize, updates: &mut Vec<CellUpdate>)
        requires
            old(self).grid_inv(),
            old(self).status is Started,
        ensures
            final(self).grid_inv(),
            same_board(*old(self), *final(self)),
            final(self).info == old(self).info,
            final(self).cell_states@.len() == old(self).cell_states@.len(),
            kinds_unchanged(old(self).cell_states@, final(self).cell_states@),
            interactions_monotone(old(self).cell_states@, final(self).cell_states@),
            final(self).cleared >= old(self).cleared,
            final(self).status is Started || final(self).status is GameOver,
            final(self).status is GameOver <==> some_revealed_mine(final(self).cell_states@),
            final(updates)@.len() >= old(updates)@.len(),
            final(updates)@.subrange(0, old(updates)@.len() as int) == old(updates)@,
            update_entries_ok(
                old(self).cell_states@,
                final(self).cell_states@,
                old(self).rows as int,
                old(self).columns as int,
                final(updates)@,
                old(updates)@.len() as int,
            ),
            !old(self).spec_in_bounds(row as int, column as int) ==> unchanged_dig(
                *old(self),
                *final(self),
                old(updates)@,
                final(updates)@,
            ),
            (old(self).spec_in_bounds(row as int, column as int) && old(self).cell_at(
                row as int,
                column as int,
            ).interaction is Flagged) ==> unchanged_dig(
                *old(self),
                *final(self),
                old(updates)@,
                final(updates)@,
            ),
            (old(self).spec_in_bounds(row as int, column as int) && old(self).cell_at(
                row as int,
                column as int,
            ).interaction is Untouched) ==> final(self).cell_at(
                row as int,
                column as int,
            ).interaction is Cleared,
            (old(self).spec_in_bounds(row as int, column as int) && old(self).cell_at(
                row as int,
                column as int,
            ).interaction is Cleared && !(old(self).cell_at(row as int, column as int).kind
                matches CellKind::Clear(n) && n as int == nbr_flags(
                old(self).cell_states@,
                old(self).rows as int,
                old(self).columns as int,
                row as int,
                column as int,
            ))) ==> unchanged_dig(*old(self), *final(self), old(updates)@, final(updates)@),
    {
        let ghost cells0 = self.cell_states@;
        let ghost ups0 = updates@;
        let ghost rint = self.rows as int;
        let ghost cint = self.columns as int;
        let mut stack: Vec<WorkItem> = Vec::new();
        let i0 = match self.index(row, column) {
            None => {
                proof {
                    lemma_dig_noop_obligations(cells0, rint, cint, ups0, ups0.len() as int);
                    assert(updates@.subrange(0, ups0.len() as int) =~= ups0);
                }
                return ;
            },
            Some(i) => i,
        };
        let cs0 = self.cell_states[i0];
        match cs0.interaction {
            CellInteraction::Flagged => {
                proof {
                    lemma_dig_noop_obligations(cells0, rint, cint, ups0, ups0.len() as int);
                    assert(updates@.subrange(0, ups0.len() as int) =~= ups0);
                }
                return ;
            },
            CellInteraction::Cleared => {
                let mut chord = false;
                if let CellKind::Clear(n) = cs0.kind {
                    let flags = self.count_adjacent_flags(row, column);
                    if flags == n {
                        chord = true;
                    }
                }
                if !chord {
                    proof {
                        lemma_dig_noop_obligations(cells0, rint, cint, ups0, ups0.len() as int);
                        assert(updates@.subrange(0, ups0.len() as int) =~= ups0);
                    }
                    return ;
                }
                push_item(&mut stack, row + 1, column + 1, true);
                push_item(&mut stack, row + 1, column, true);
                push_item(&mut stack, row + 1, column - 1, true);
                push_item(&mut stack, row, column + 1, true);
                push_item(&mut stack, row, column - 1, true);
                push_item(&mut stack, row - 1, column + 1, true);
                push_item(&mut stack, row - 1, column, true);
                push_item(&mut stack, row - 1, column - 1, true);
                proof {
                    lemma_dig_noop_obligations(cells0, rint, cint, ups0, ups0.len() as int);
                    assert(updates@.subrange(0, ups0.len() as int) =~= ups0);
                }
            },
            CellInteraction::Untouched => {
                self.open_cell(i0, row, column, updates);
                if matches!(cs0.kind, CellKind::Clear(0)) {
                    push_item(&mut stack, row + 1, column + 1, false);
                    push_item(&mut stack, row + 1, column, false);
                    push_item(&mut stack, row + 1, column - 1, false);
                    push_item(&mut stack, row, column + 1, false);
                    push_item(&mut stack, row, column - 1, false);
                    push_item(&mut stack, row - 1, column + 1, false);
                    push_item(&mut stack, row - 1, column, false);
                    push_item(&mut stack, row - 1, column - 1, false);
                }
            },
        }
        self.run_cascade(Ghost(*old(self)), Ghost(ups0), stack, updates);
    }

    /// Runs the cascade stack to exhaustion, preserving every dig
    /// guarantee relative to the grid `g0` the dig started from.
    #[verifier::rlimit(60)]
    #[verifier::spinoff_prover]
    fn run_cascade(
        &mut self,
        Ghost(g0): Ghost<GameState>,
        Ghost(ups0): Ghost<Seq<CellUpdate>>,
        mut stack: Vec<WorkItem>,
        updates: &mut Vec<CellUpdate>,
    )
        requires
            g0.grid_inv(),
            g0.status is Started,
            same_board(g0, *old(self)),
            old(self).dims_ok(),
            old(self).info == g0.info,
            old(self).cell_states@.len() == g0.cell_states@.len(),
            kinds_unchanged(g0.cell_states@, old(self).cell_states@),
            interactions_monotone(g0.cell_states@, old(self).cell_states@),
            old(self).cleared as int == count_cleared(old(self).cell_states@),
            old(self).cleared >= g0.cleared,
            old(self).status is Started || old(self).status is GameOver,
            old(self).status is GameOver <==> some_revealed_mine(old(self).cell_states@),
            updates@.len() >= ups0.len(),
            updates@.subrange(0, ups0.len() as int) == ups0,
            update_entries_ok(
                g0.cell_states@,
                old(self).cell_states@,
                g0.rows as int,
                g0.columns as int,
                updates@,
                ups0.len() as int,
            ),
        ensures
            final(self).grid_inv(),
            same_board(g0, *final(self)),
            final(self).info == g0.info,
            final(self).cell_states@.len() == g0.cell_states@.len(),
            kinds_unchanged(g0.cell_states@, final(self).cell_states@),
            interactions_monotone(g0.cell_states@, final(self).cell_states@),
            interactions_monotone(old(self).cell_states@, final(self).cell_states@),
            final(self).cleared >= g0.cleared,
            final(self).status is Started || final(self).status is GameOver,
            final(self).status is GameOver <==> some_revealed_mine(final(self).cell_states@),
            final(updates)@.len() >= ups0.len(),
            final(updates)@.subrange(0, ups0.len() as int) == ups0,
            update_entries_ok(
                g0.cell_states@,
                final(self).cell_states@,
                g0.rows as int,
                g0.columns as int,
                final(updates)@,
                ups0.len() as int,
            ),
    {
        let ghost rint = g0.rows as int;
        let ghost cint = g0.columns as int;
        let ghost entry_cells = self.cell_states@;
        proof {
            lemma_count_untouched_bounds(self.cell_states@);
            lemma_stack_weight_nonneg(stack@);
        }
        while stack.len() > 0
            invariant
                g0.grid_inv(),
                g0.status is Started,
                same_board(g0, *self),
                self.dims_ok(),
                rint == g0.rows as int,
                cint == g0.columns as int,
                self.info == g0.info,
                self.cell_states@.len() == g0.cell_states@.len(),
                kinds_unchanged(g0.cell_states@, self.cell_states@),
                interactions_monotone(g0.cell_states@, self.cell_states@),
                interactions_monotone(entry_cells, self.cell_states@),
                entry_cells.len() == g0.cell_states@.len(),
                self.cleared as int == count_cleared(self.cell_states@),
                self.cleared >= g0.cleared,
                self.status is Started || self.status is GameOver,
                self.status is GameOver <==> some_revealed_mine(self.cell_states@),
                updates@.len() >= ups0.len(),
                updates@.subrange(0, ups0.len() as int) == ups0,
                update_entries_ok(
                    g0.cell_states@,
                    self.cell_states@,
                    rint,
                    cint,
                    updates@,
                    ups0.len() as int,
                ),
                stack_weight(stack@) >= 0,
                count_untouched(self.cell_states@) >= 0,
            decreases 100 * count_untouched(self.cell_states@) + stack_weight(stack@),
        {
            let ghost st0 = stack@;
            let ghost cells_before = self.cell_states@;
            let ghost ups_before = updates@;
            let it = match stack.pop() {
                Some(it) => it,
                None => {
                    return ;
                },
            };
            proof {
                assert(st0.drop_last() =~= stack@);
                lemma_stack_weight_nonneg(stack@);
            }
            match self.index(it.row, it.column) {
                None => {},
                Some(i) => {
                    let cs = self.cell_states[i];
                    match cs.interaction {
                        CellInteraction::Flagged => {},
                        CellInteraction::Cleared => {
                            let mut chorded = false;
                            if !it.only_untouched {
                                if let CellKind::Clear(n) = cs.kind {
                                    let flags = self.count_adjacent_flags(it.row, it.column);
                                    if flags == n {
                                        chorded = true;
                                        push_item(&mut stack, it.row + 1, it.column + 1, true);
                                        push_item(&mut stack, it.row + 1, it.column, true);
                                        push_item(&mut stack, it.row + 1, it.column - 1, true);
                                        push_item(&mut stack, it.row, it.column + 1, true);
                                        push_item(&mut stack, it.row, it.column - 1, true);
                                        push_item(&mut stack, it.row - 1, it.column + 1, true);
                                        push_item(&mut stack, it.row - 1, it.column, true);
                                        push_item(&mut stack, it.row - 1, it.column - 1, true);
                                    }
                                }
                            }
                            proof {
                                if chorded {
                                    assert(stack_weight(stack@) == stack_weight(st0) - 10 + 8);
                                }
                            }
                        },
                        CellInteraction::Untouched => {
                            self.reveal_cell(i, it.row, it.column, updates);
                            let revealed_zero = matches!(cs.kind, CellKind::Clear(0));
                            if revealed_zero {
                                push_item(&mut stack, it.row + 1, it.column + 1, false);
                                push_item(&mut stack, it.row + 1, it.column, false);
                                push_item(&mut stack, it.row + 1, it.column - 1, false);
                                push_item(&mut stack, it.row, it.column + 1, false);
                                push_item(&mut stack, it.row, it.column - 1, false);
                                push_item(&mut stack, it.row - 1, it.column + 1, false);
                                push_item(&mut stack, it.row - 1, it.column, false);
                                push_item(&mut stack, it.row - 1, it.column - 1, false);
                            }
                            proof {
                                let now = self.cell_states@;
                                lemma_count_untouched_bounds(now);
                                // the status still tracks whether a mine is revealed
                                if mine_cell(cells_before[i as int]) {
                                    assert(mine_cell(now[i as int]) && now[i as int].interaction
                                        is Cleared);
                                    assert(some_revealed_mine(now));
                                } else {
                                    if g0.status is Started && !(self.status is GameOver) {
                                        assert forall|j: int|
                                            0 <= j < now.len() implies !(mine_cell(
                                            #[trigger] now[j],
                                        ) && now[j].interaction is Cleared) by {
                                            if j != i as int {
                                                assert(now[j] == cells_before[j]);
                                            }
                                        }
                                    }
                                    if self.status is GameOver {
                                        let j = choose|j: int|
                                            0 <= j < cells_before.len() && mine_cell(
                                                #[trigger] cells_before[j],
                                            ) && cells_before[j].interaction is Cleared;
                                        assert(now[j] == cells_before[j]);
                                        assert(some_revealed_mine(now));
                                    }
                                }
                                // notification bookkeeping
                                assert(updates@.subrange(0, ups0.len() as int)
                                    =~= ups_before.subrange(0, ups0.len() as int));
                            }
                        },
                    }
                },
            }
        }
        proof {
            lemma_count_mines_pointwise(self.cell_states@, g0.cell_states@);
            lemma_numbers_ok_pointwise(g0.cell_states@, self.cell_states@, rint, cint);
            lemma_count_cleared_monotone(g0.cell_states@, self.cell_states@);
        }
    }

    /// Settles the outcome of a dig: on a win every remaining untouched cell
    /// is shown flagged as a mine and the finished run is handed back for
    /// submission; on a loss the untouched mines are collected in shuffled
    /// order for the reveal animation; and the published snapshot is brought
    /// up to date.
    #[verifier::rlimit(60)]
    fn update_score(&mut self, updates: &mut Vec<CellUpdate>) -> (r: (
        Option<ScoreSubmission>,
        Vec<CellUpdate>,
    ))
        requires
            old(self).grid_inv(),
            !(old(self).status is Idle),
            !(old(self).status is Victory),
            old(self).info.clear_total as int == old(self).total() - old(self).mines as int,
            0 <= old(self).info.elapsed_seconds,
        ensures
            final(self).inv(),
            same_board(*old(self), *final(self)),
            final(self).cell_states == old(self).cell_states,
            final(self).cleared == old(self).cleared,
            final(self).info.elapsed_seconds == old(self).info.elapsed_seconds,
            final(self).info.clear_total == old(self).info.clear_total,
            final(self).status == (if old(self).status is Started && old(self).cleared as int
                == old(self).total() - old(self).mines as int {
                GameStatus::Victory
            } else {
                old(self).status
            }),
            r.0 == (if final(self).status is Victory {
                Some(
                    ScoreSubmission {
                        time_in_seconds: old(self).info.elapsed_seconds,
                        difficulty: old(self).params.difficulty,
                        size: old(self).params.size,
                    },
                )
            } else {
                Option::<ScoreSubmission>::None
            }),
            forall|k: int|
                0 <= k < r.1@.len() ==> {
                    let u = #[trigger] r.1@[k];
                    &&& pos_in_bounds(
                        final(self).rows as int,
                        final(self).columns as int,
                        u.row as int,
                        u.column as int,
                    )
                    &&& final(self).cell_states@[u.row as int * (final(self).columns as int)
                        + u.column as int].interaction is Untouched
                    &&& mine_cell(
                        final(self).cell_states@[u.row as int * (final(self).columns as int)
                            + u.column as int],
                    )
                    &&& u.interaction is Cleared
                    &&& u.kind is Mine
                },
            !(final(self).status is GameOver) ==> r.1@.len() == 0,
            final(updates)@.len() >= old(updates)@.len(),
            final(updates)@.subrange(0, old(updates)@.len() as int) == old(updates)@,
            forall|k: int|
                old(updates)@.len() <= k < final(updates)@.len() ==> {
                    let u = #[trigger] final(updates)@[k];
                    &&& final(self).status is Victory
                    &&& pos_in_bounds(
                        final(self).rows as int,
                        final(self).columns as int,
                        u.row as int,
                        u.column as int,
                    )
                    &&& final(self).cell_states@[u.row as int * (final(self).columns as int)
                        + u.column as int].interaction is Untouched
                    &&& u.interaction is Flagged
                    &&& u.kind is Mine
                },
    {
        let ghost cint = self.columns as int;
        let rows = self.rows;
        let columns = self.columns;
        let mut submit: Option<ScoreSubmission> = None;
        let mut loss: Vec<CellUpdate> = Vec::new();
        let won = matches!(self.status, GameStatus::Started) && self.cleared
            == self.rows * self.columns - self.mines;
        if won {
            self.status = GameStatus::Victory;
            let mut r: isize = 0;
            while r < rows
                invariant
                    self.dims_ok(),
                    rows == self.rows,
                    columns == self.columns,
                    cint == self.columns as int,
                    0 <= r <= rows,
                    updates@.len() >= old(updates)@.len(),
                    updates@.subrange(0, old(updates)@.len() as int) == old(updates)@,
                    forall|k: int|
                        old(updates)@.len() <= k < updates@.len() ==> {
                            let u = #[trigger] updates@[k];
                            &&& pos_in_bounds(
                                self.rows as int,
                                cint,
                                u.row as int,
                                u.column as int,
                            )
                            &&& self.cell_states@[u.row as int * cint
                                + u.column as int].interaction is Untouched
                            &&& u.interaction is Flagged
                            &&& u.kind is Mine
                        },
                decreases rows - r,
            {
                let mut c: isize = 0;
                while c < columns
                    invariant
                        self.dims_ok(),
                        rows == self.rows,
                        columns == self.columns,
                        cint == self.columns as int,
                        0 <= r < rows,
                        0 <= c <= columns,
                        updates@.len() >= old(updates)@.len(),
                        updates@.subrange(0, old(updates)@.len() as int) == old(updates)@,
                        forall|k: int|
                            old(updates)@.len() <= k < updates@.len() ==> {
                                let u = #[trigger] updates@[k];
                                &&& pos_in_bounds(
                                    self.rows as int,
                                    cint,
                                    u.row as int,
                                    u.column as int,
                                )
                                &&& self.cell_states@[u.row as int * cint
                                    + u.column as int].interaction is Untouched
                                &&& u.interaction is Flagged
                                &&& u.kind is Mine
                            },
                    decreases columns - c,
                {
                    let idx = match self.index(r, c) {
                        Some(i) => i,
                        None => 0,
                    };
                    let cs = self.cell_states[idx];
                    if matches!(cs.interaction, CellInteraction::Untouched) {
                        proof {
                            assert(updates@.push(
                                CellUpdate {
                                    row: r,
                                    column: c,
                                    interaction: CellInteraction::Flagged,
                                    kind: CellKind::Mine,
                                },
                            ).subrange(0, old(updates)@.len() as int) =~= old(updates)@);
                        }
                        updates.push(
                            CellUpdate {
                                row: r,
                                column: c,
                                interaction: CellInteraction::Flagged,
                                kind: CellKind::Mine,
                            },
                        );
                    }
                    c = c + 1;
                }
                r = r + 1;
            }
            submit = Some(
                ScoreSubmission {
                    time_in_seconds: self.info.elapsed_seconds,
                    difficulty: self.params.difficulty,
                    size: self.params.size,
                },
            );
        } else if matches!(self.status, GameStatus::GameOver) {
            let mut r: isize = 0;
            while r < rows
                invariant
                    self.dims_ok(),
                    rows == self.rows,
                    columns == self.columns,
                    cint == self.columns as int,
                    0 <= r <= rows,
                    forall|k: int|
                        0 <= k < loss@.len() ==> {
                            let u = #[trigger] loss@[k];
                            &&& pos_in_bounds(
                                self.rows as int,
                                cint,
                                u.row as int,
                                u.column as int,
                            )
                            &&& self.cell_states@[u.row as int * cint
                                + u.column as int].interaction is Untouched
                            &&& mine_cell(self.cell_states@[u.row as int * cint
                                + u.column as int])
                            &&& u.interaction is Cleared
                            &&& u.kind is Mine
                        },
                decreases rows - r,
            {
                let mut c: isize = 0;
                while c < columns
                    invariant
                        self.dims_ok(),
                        rows == self.rows,
                        columns == self.columns,
                        cint == self.columns as int,
                        0 <= r < rows,
                        0 <= c <= columns,
                        forall|k: int|
                            0 <= k < loss@.len() ==> {
                                let u = #[trigger] loss@[k];
                                &&& pos_in_bounds(
                                    self.rows as int,
                                    cint,
                                    u.row as int,
                                    u.column as int,
                                )
                                &&& self.cell_states@[u.row as int * cint
                                    + u.column as int].interaction is Untouched
                                &&& mine_cell(self.cell_states@[u.row as int * cint
                                    + u.column as int])
                                &&& u.interaction is Cleared
                                &&& u.kind is Mine
                            },
                    decreases columns - c,
                {
                    let idx = match self.index(r, c) {
                        Some(i) => i,
                        None => 0,
                    };
                    let cs = self.cell_states[idx];
                    if matches!(cs.interaction, CellInteraction::Untouched) && matches!(
                        cs.kind,
                        CellKind::Mine,
                    ) {
                        loss.push(
                            CellUpdate {
                                row: r,
                                column: c,
                                interaction: CellInteraction::Cleared,
                                kind: CellKind::Mine,
                            },
                        );
                    }
                    c = c + 1;
                }
                r = r + 1;
            }
            let ghost pre = loss@;
            shuffle(&mut loss);
            proof {
                assert forall|k: int| 0 <= k < loss@.len() implies {
                    let u = #[trigger] loss@[k];
                    &&& pos_in_bounds(self.rows as int, cint, u.row as int, u.column as int)
                    &&& self.cell_states@[u.row as int * cint + u.column as int].interaction
                        is Untouched
                    &&& mine_cell(self.cell_states@[u.row as int * cint + u.column as int])
                    &&& u.interaction is Cleared
                    &&& u.kind is Mine
                } by {
                    let j = choose|j: int| 0 <= j < pre.len() && pre[j] == loss@[k];
                }
            }
        }
        self.info.cleared = self.cleared;
        self.info.status = self.status;
        (submit, loss)
    }

    /// One player dig at `(row, column)`. While the game is idle the first
    /// dig lays out the board with a safe zone around the click, starts the
    /// game, and asks for the timer task. The dig then follows the full
    /// reveal rules, the outcome is settled, and the refreshed snapshot is
    /// published. After a loss or a win the call is a no-op.
    #[verifier::rlimit(60)]
    #[verifier::spinoff_prover]
    pub fn dig(&mut self, row: isize, column: isize) -> (out: DigOutcome)
        requires
            old(self).inv(),
        ensures
            final(self).inv(),
            same_board(*old(self), *final(self)),
            final(self).info.elapsed_seconds == old(self).info.elapsed_seconds,
            final(self).info.clear_total == old(self).info.clear_total,
            out.timer_started == (old(self).status is Idle),
            (old(self).status is GameOver || old(self).status is Victory) ==> (
            final(self).cell_states == old(self).cell_states && final(self).status == old(self).status && final(self).cleared == old(self).cleared && final(self).info == old(self).info && out.updates@.len() == 0 && out.submit is None && out.loss_reveal@.len()
                == 0),
            final(self).cleared >= old(self).cleared,
            (old(self).status is Idle || old(self).status is Started) ==> (
                (final(self).status is GameOver <==> some_revealed_mine(
                    final(self).cell_states@,
                )) && (final(self).status is Victory <==> !some_revealed_mine(
                    final(self).cell_states@,
                ) && final(self).cleared as int == final(self).total() - final(self).mines as int) && interactions_monotone(
                    old(self).cell_states@,
                    final(self).cell_states@,
                )),
            old(self).status is Started ==> kinds_unchanged(
                old(self).cell_states@,
                final(self).cell_states@,
            ),
            old(self).status is Idle ==> (final(self).mines_placed() && (forall|r: int, c: int|
                final(self).spec_in_bounds(r, c) && row as int - 1 <= r <= row as int + 1
                    && column as int - 1 <= c <= column as int + 1 ==> !mine_cell(
                    #[trigger] final(self).cell_at(r, c),
                ))),
            ((old(self).status is Idle || old(self).status is Started) && old(self).spec_in_bounds(
                row as int,
                column as int,
            ) && old(self).cell_at(row as int, column as int).interaction is Untouched) ==> final(self).cell_at(row as int, column as int).interaction is Cleared,
            (old(self).status is Started && old(self).spec_in_bounds(row as int, column as int)
                && old(self).cell_at(row as int, column as int).interaction is Flagged) ==> (
            final(self).cell_states == old(self).cell_states && final(self).cleared == old(self).cleared),
            (old(self).status is Started && old(self).spec_in_bounds(row as int, column as int)
                && old(self).cell_at(row as int, column as int).interaction is Cleared && !(old(self).cell_at(row as int, column as int).kind matches CellKind::Clear(n) && n as int
                == nbr_flags(
                old(self).cell_states@,
                old(self).rows as int,
                old(self).columns as int,
                row as int,
                column as int,
            ))) ==> (final(self).cell_states == old(self).cell_states && final(self).cleared
                == old(self).cleared),
            forall|k: int|
                0 <= k < out.updates@.len() ==> dig_update_entry_ok(
                    old(self).cell_states@,
                    final(self).cell_states@,
                    old(self).rows as int,
                    old(self).columns as int,
                    #[trigger] out.updates@[k],
                    final(self).status is Victory,
                ),
            out.submit == (if final(self).status is Victory && !(old(self).status is Victory) {
                Some(
                    ScoreSubmission {
                        time_in_seconds: old(self).info.elapsed_seconds,
                        difficulty: old(self).params.difficulty,
                        size: old(self).params.size,
                    },
                )
            } else {
                Option::<ScoreSubmission>::None
            }),
            forall|k: int|
                0 <= k < out.loss_reveal@.len() ==> {
                    let u = #[trigger] out.loss_reveal@[k];
                    &&& pos_in_bounds(
                        final(self).rows as int,
                        final(self).columns as int,
                        u.row as int,
                        u.column as int,
                    )
                    &&& final(self).cell_states@[u.row as int * (final(self).columns as int)
                        + u.column as int].interaction is Untouched
                    &&& mine_cell(
                        final(self).cell_states@[u.row as int * (final(self).columns as int)
                            + u.column as int],
                    )
                    &&& u.interaction is Cleared
                    &&& u.kind is Mine
                },
            !(final(self).status is GameOver) ==> out.loss_reveal@.len() == 0,
    {
        let mut updates: Vec<CellUpdate> = Vec::new();
        let mut timer_started = false;
        match self.status {
            GameStatus::GameOver | GameStatus::Victory => {
                return DigOutcome {
                    timer_started: false,
                    updates,
                    submit: None,
                    loss_reveal: Vec::new(),
                };
            },
            GameStatus::Idle => {
                self.start(row, column);
                timer_started = true;
            },
            GameStatus::Started => {},
        }
        let ghost started = *self;
        self.dig_inner(row, column, &mut updates);
        let ghost mid = *self;
        let ghost mid_ups = updates@;
        let (submit, loss_reveal) = self.update_score(&mut updates);
        proof {
            let rint = old(self).rows as int;
            let cint = old(self).columns as int;
            assert forall|k: int|
                0 <= k < updates@.len() implies dig_update_entry_ok(
                old(self).cell_states@,
                self.cell_states@,
                rint,
                cint,
                #[trigger] updates@[k],
                self.status is Victory,
            ) by {
                if k < mid_ups.len() {
                    assert(updates@.subrange(0, mid_ups.len() as int)[k] == mid_ups[k]);
                    let u = mid_ups[k];
                    let idx = u.row as int * cint + u.column as int;
                    assert(pos_in_bounds(rint, cint, u.row as int, u.column as int));
                    lemma_index_bound(rint, cint, u.row as int, u.column as int);
                    assert(started.cell_states@[idx].interaction == old(
                        self,
                    ).cell_states@[idx].interaction);
                    assert(self.cell_states@[idx] == mid.cell_states@[idx]);
                }
            }
            if (old(self).status is Idle || old(self).status is Started) && old(
                self,
            ).spec_in_bounds(row as int, column as int) && old(self).cell_at(
                row as int,
                column as int,
            ).interaction is Untouched {
                let idx = (row as int) * cint + (column as int);
                lemma_index_bound(rint, cint, row as int, column as int);
                assert(started.cell_states@[idx].interaction == old(
                    self,
                ).cell_states@[idx].interaction);
                assert(started.cell_at(row as int, column as int).interaction is Untouched);
                assert(mid.cell_at(row as int, column as int).interaction is Cleared);
                assert(self.cell_states@[idx] == mid.cell_states@[idx]);
            }
            if old(self).status is Idle {
                assert forall|r: int, c: int|
                    pos_in_bounds(rint, cint, r, c) && row as int - 1 <= r <= row as int + 1
                        && column as int - 1 <= c <= column as int + 1 implies !mine_cell(
                    #[trigger] self.cell_states@[r * cint + c],
                ) by {
                    lemma_index_bound(rint, cint, r, c);
                    assert(!mine_cell(started.cell_at(r, c)));
                    assert(self.cell_states@[r * cint + c].kind == started.cell_states@[r * cint
                        + c].kind);
                }
            }
            if old(self).status is Idle || old(self).status is Started {
                assert forall|i: int|
                    0 <= i < old(self).cell_states@.len() implies ((
                #[trigger] self.cell_states@[i]).interaction != old(
                    self,
                ).cell_states@[i].interaction ==> (old(self).cell_states@[i].interaction
                    is Untouched && self.cell_states@[i].interaction is Cleared)) by {
                    assert(started.cell_states@[i].interaction == old(
                        self,
                    ).cell_states@[i].interaction);
                    assert(self.cell_states@[i] == mid.cell_states@[i]);
                }
            }
        }
        DigOutcome { timer_started, updates, submit, loss_reveal }
    }

    /// Toggles a flag on an untouched cell, or removes it from a flagged
    /// one; revealed cells, off-board positions and finished games are left
    /// alone. The notification for the changed cell, if any, is returned.
    #[verifier::rlimit(60)]
    pub fn flag(&mut self, row: isize, column: isize) -> (out: Option<CellUpdate>)
        requires
            old(self).inv(),
        ensures
            final(self).inv(),
            same_board(*old(self), *final(self)),
            final(self).status == old(self).status,
            final(self).cleared == old(self).cleared,
            final(self).info == old(self).info,
            kinds_unchanged(old(self).cell_states@, final(self).cell_states@),
            (old(self).status is GameOver || old(self).status is Victory || !old(self).spec_in_bounds(row as int, column as int)) ==> (final(self).cell_states == old(self).cell_states && out is None),
            (!(old(self).status is GameOver) && !(old(self).status is Victory) && old(self).spec_in_bounds(row as int, column as int)) ==> {
                let idx = (row as int) * (old(self).columns as int) + (column as int);
                let cell = old(self).cell_states@[idx];
                match cell.interaction {
                    CellInteraction::Untouched => final(self).cell_states@ == old(self).cell_states@.update(
                        idx,
                        CellState { interaction: CellInteraction::Flagged, kind: cell.kind },
                    ) && out == Some(
                        CellUpdate {
                            row,
                            column,
                            interaction: CellInteraction::Flagged,
                            kind: cell.kind,
                        },
                    ),
                    CellInteraction::Cleared => final(self).cell_states == old(self).cell_states
                        && out is None,
                    CellInteraction::Flagged => final(self).cell_states@ == old(self).cell_states@.update(
                        idx,
                        CellState { interaction: CellInteraction::Untouched, kind: cell.kind },
                    ) && out == Some(
                        CellUpdate {
                            row,
                            column,
                            interaction: CellInteraction::Untouched,
                            kind: cell.kind,
                        },
                    ),
                }
            },
    {
        if matches!(self.status, GameStatus::GameOver | GameStatus::Victory) {
            return None;
        }
        let i = match self.index(row, column) {
            Some(i) => i,
            None => {
                return None;
            },
        };
        let cs = self.cell_states[i];
        let new_interaction = match cs.interaction {
            CellInteraction::Untouched => CellInteraction::Flagged,
            CellInteraction::Cleared => {
                return None;
            },
            CellInteraction::Flagged => CellInteraction::Untouched,
        };
        proof {
            lemma_count_update(
                self.cell_states@,
                i as int,
                CellState { interaction: new_interaction, kind: cs.kind },
            );
        }
        self.cell_states[i] = CellState { interaction: new_interaction, kind: cs.kind };
        proof {
            let now = self.cell_states@;
            let before = old(self).cell_states@;
            if !(self.status is GameOver) {
                assert forall|j: int| 0 <= j < now.len() implies !(mine_cell(#[trigger] now[j])
                    && now[j].interaction is Cleared) by {
                    if j != i as int {
                        assert(now[j] == before[j]);
                    }
                }
            }
            if !(self.status is Idle) {
                lemma_numbers_ok_pointwise(
                    before,
                    now,
                    self.rows as int,
                    self.columns as int,
                );
                lemma_count_mines_pointwise(now, before);
            }
        }
        Some(CellUpdate { row, column, interaction: new_interaction, kind: cs.kind })
    }

    /// Starts over: the status returns to idle, every cell is reset to
    /// untouched with a zero count — discarding the mine layout — and a
    /// fresh snapshot is published. The returned notifications cover every
    /// cell in row-major order.
    #[verifier::rlimit(60)]
    pub fn reset(&mut self) -> (out: Vec<CellUpdate>)
        requires
            old(self).inv(),
        ensures
            final(self).inv(),
            same_board(*old(self), *final(self)),
            final(self).status is Idle,
            final(self).cleared == 0,
            final(self).all_default(),
            final(self).info == (GameInfo {
                elapsed_seconds: 0,
                cleared: 0,
                clear_total: (final(self).total() - final(self).mines as int) as isize,
                status: GameStatus::Idle,
            }),
            out@.len() == final(self).total(),
            forall|r: int, c: int|
                final(self).spec_in_bounds(r, c) ==> out@[r * (final(self).columns as int) + c]
                    == (CellUpdate {
                    row: r as isize,
                    column: c as isize,
                    interaction: CellInteraction::Untouched,
                    kind: CellKind::Clear(0),
                }),
    {
        let ghost cint = self.columns as int;
        let rows = self.rows;
        let columns = self.columns;
        let mut out: Vec<CellUpdate> = Vec::new();
        let mut r: isize = 0;
        while r < rows
            invariant
                self.dims_ok(),
                same_board(*old(self), *self),
                rows == self.rows,
                columns == self.columns,
                cint == self.columns as int,
                0 <= r <= rows,
                self.cell_states@.len() == old(self).cell_states@.len(),
                out@.len() == r * cint,
                forall|rr: int, cc: int|
                    pos_in_bounds(self.rows as int, cint, rr, cc) && rr * cint + cc < r * cint
                        ==> out@[rr * cint + cc] == (CellUpdate {
                        row: rr as isize,
                        column: cc as isize,
                        interaction: CellInteraction::Untouched,
                        kind: CellKind::Clear(0),
                    }),
                forall|i: int|
                    0 <= i < r * cint ==> #[trigger] self.cell_states@[i] == default_cell(),
            decreases rows - r,
        {
            let mut c: isize = 0;
            while c < columns
                invariant
                    self.dims_ok(),
                    same_board(*old(self), *self),
                    rows == self.rows,
                    columns == self.columns,
                    cint == self.columns as int,
                    0 <= r < rows,
                    0 <= c <= columns,
                    self.cell_states@.len() == old(self).cell_states@.len(),
                    out@.len() == r * cint + c,
                    forall|rr: int, cc: int|
                        pos_in_bounds(self.rows as int, cint, rr, cc) && rr * cint + cc < r
                            * cint + c ==> out@[rr * cint + cc] == (CellUpdate {
                            row: rr as isize,
                            column: cc as isize,
                            interaction: CellInteraction::Untouched,
                            kind: CellKind::Clear(0),
                        }),
                    forall|i: int|
                        0 <= i < r * cint + c ==> #[trigger] self.cell_states@[i]
                            == default_cell(),
                decreases columns - c,
            {
                let idx = match self.index(r, c) {
                    Some(i) => i,
                    None => 0,
                };
                self.cell_states[idx] = CellState {
                    interaction: CellInteraction::Untouched,
                    kind: CellKind::Clear(0),
                };
                out.push(
                    CellUpdate {
                        row: r,
                        column: c,
                        interaction: CellInteraction::Untouched,
                        kind: CellKind::Clear(0),
                    },
                );
                proof {
                    assert forall|rr: int, cc: int|
                        pos_in_bounds(self.rows as int, cint, rr, cc) && rr * cint + cc < r
                            * cint + c + 1 implies out@[rr * cint + cc] == (CellUpdate {
                            row: rr as isize,
                            column: cc as isize,
                            interaction: CellInteraction::Untouched,
                            kind: CellKind::Clear(0),
                        }) by {
                        lemma_index_bound(self.rows as int, cint, rr, cc);
                        if rr * cint + cc == idx as int {
                            assert(rr == r as int && cc == c as int) by (nonlinear_arith)
                                requires
                                    rr * cint + cc == (r as int) * cint + (c as int),
                                    0 <= cc < cint,
                                    0 <= (c as int) && (c as int) < cint,
                                    0 <= rr,
                                    0 <= r as int,
                            ;
                        }
                    }
                }
                c = c + 1;
            }
            proof {
                assert(((r as int) + 1) * cint == (r as int) * cint + cint) by (nonlinear_arith);
            }
            r = r + 1;
        }
        self.status = GameStatus::Idle;
        self.cleared = 0;
        self.info = GameInfo {
            elapsed_seconds: 0,
            cleared: 0,
            clear_total: self.rows * self.columns - self.mines,
            status: GameStatus::Idle,
        };
        proof {
            assert forall|i: int|
                0 <= i < self.cell_states@.len() implies !cleared_cell(
                #[trigger] self.cell_states@[i],
            ) by {
                assert(self.cell_states@[i] == default_cell());
            }
            lemma_count_zero(self.cell_states@);
            assert forall|rr: int, cc: int|
                pos_in_bounds(self.rows as int, cint, rr, cc) implies 0 <= rr * cint + cc < (
            self.rows as int) * cint by {
                lemma_index_bound(self.rows as int, cint, rr, cc);
            }
        }
        out
    }

    /// One step of the timer task: while the game is running the snapshot's
    /// elapsed time is set to the tick's second and the task carries on;
    /// otherwise nothing changes and the task stops for good.
    pub fn timer_tick(&mut self, second: i64) -> (cont: bool)
        requires
            old(self).inv(),
            0 <= second,
        ensures
            final(self).inv(),
            same_board(*old(self), *final(self)),
            final(self).cell_states == old(self).cell_states,
            final(self).status == old(self).status,
            final(self).cleared == old(self).cleared,
            cont == (old(self).status is Started),
            (if cont {
                final(self).info == (GameInfo { elapsed_seconds: second, ..old(self).info })
            } else {
                final(self).info == old(self).info
            }),
    {
        match self.status {
            GameStatus::Started => {
                self.info.elapsed_seconds = second;
                proof {
                    assert(self.grid_inv());
                    assert(self.info_synced());
                }
                true
            },
            _ => false,
        }
    }
}

} // verus!
