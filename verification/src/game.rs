use vstd::prelude::*;

use crate::geom::Vector2;
use crate::player::{Player, PlayerView, POINTS_PER_KILL};

verus! {

/// Board width in cells.
pub const BOARD_W: i64 = 64;

/// Board height in cells.
pub const BOARD_H: i64 = 24;

/// What one board cell holds: nothing, a fruit, or a segment of the snake
/// with the given roster index.
#[derive(Clone, Copy, PartialEq, Eq, Structural)]
pub enum Actor {
    Empty,
    Fruit,
    Player(usize),
}

/// Multiplayer rounds end when one snake is left; solo rounds only when
/// none is.
#[derive(Clone, Copy, PartialEq, Eq, Structural)]
pub enum GameMode {
    Snake,
    Solo,
}

/// One running round: the roster of snakes in fixed order, and the board,
/// which caches who occupies each cell.
pub struct Game {
    /// Opaque handle for the collaborator that displays the round; never
    /// read by the engine.
    pub stage: u64,
    pub(crate) game_mode: GameMode,
    pub(crate) players: Vec<Player>,
    pub(crate) board: Vec<Vec<Actor>>,
    pub(crate) board_size: Vector2,
}

/// The mathematical value of a `Game`.
#[verifier::ext_equal]
pub ghost struct GameView {
    pub stage: u64,
    pub game_mode: GameMode,
    pub players: Seq<PlayerView>,
    pub board: Seq<Seq<Actor>>,
    pub board_size: Vector2,
}

impl View for Game {
    type V = GameView;

    closed spec fn view(&self) -> GameView {
        GameView {
            stage: self.stage,
            game_mode: self.game_mode,
            players: self.players@.map_values(|p: Player| p@),
            board: self.board@.map_values(|r: Vec<Actor>| r@),
            board_size: self.board_size,
        }
    }
}

/// The row on which the snake with roster index `p` spawns when `n` players
/// start a round. The spacing keeps up to five snakes on distinct rows of
/// the 24-row board.
pub open spec fn spawn_row(n: int, p: int) -> int {
    (21int / (n + 1)) * (p + 1)
}

/// How many players of the roster are alive.
pub open spec fn alive_in(ps: Seq<PlayerView>) -> int
    decreases ps.len(),
{
    if ps.len() == 0 {
        0
    } else {
        alive_in(ps.drop_last()) + if ps.last().dead {
            0int
        } else {
            1int
        }
    }
}

/// The ids of the players at positions `i` and beyond that were alive in
/// `before` and are dead in `after`, in roster order.
pub open spec fn casualties_from(before: Seq<PlayerView>, after: Seq<PlayerView>, i: int) -> Seq<
    u64,
>
    decreases before.len() - i,
{
    if i < 0 || i >= before.len() || after.len() != before.len() {
        Seq::empty()
    } else {
        let rest = casualties_from(before, after, i + 1);
        if !before[i].dead && after[i].dead {
            seq![before[i].id] + rest
        } else {
            rest
        }
    }
}

/// The empty cells of one board row among its first `w` columns, scanned
/// left to right, as points on row `y`.
pub open spec fn empty_cells_in_row(row: Seq<Actor>, y: int, w: int) -> Seq<Vector2>
    decreases w,
{
    if w <= 0 {
        Seq::empty()
    } else {
        empty_cells_in_row(row, y, w - 1) + if row[w - 1] is Empty {
            seq![Vector2((w - 1) as i64, y as i64)]
        } else {
            Seq::empty()
        }
    }
}

/// The empty cells of the first `h` board rows, scanned row-major.
pub open spec fn empty_cells_upto(board: Seq<Seq<Actor>>, h: int) -> Seq<Vector2>
    decreases h,
{
    if h <= 0 {
        Seq::empty()
    } else {
        empty_cells_upto(board, h - 1) + empty_cells_in_row(board[h - 1], h - 1, BOARD_W as int)
    }
}

/// All empty cells of the board, scanned row-major.
pub open spec fn empty_cells(board: Seq<Seq<Actor>>) -> Seq<Vector2> {
    empty_cells_upto(board, BOARD_H as int)
}

/// Every listed point of a row scan is an in-range empty cell of that row.
proof fn lemma_empty_cells_in_row(row: Seq<Actor>, y: int, w: int)
    requires
        0 <= w <= BOARD_W,
        0 <= y < BOARD_H,
    ensures
        forall|k: int|
            0 <= k < empty_cells_in_row(row, y, w).len() ==> {
                let v = #[trigger] empty_cells_in_row(row, y, w)[k];
                v.1 == y && 0 <= v.0 < w && row[v.0 as int] is Empty
            },
    decreases w,
{
    if w > 0 {
        lemma_empty_cells_in_row(row, y, w - 1);
    }
}

/// Every listed point of a board scan is an in-range empty cell.
proof fn lemma_empty_cells_upto(board: Seq<Seq<Actor>>, h: int)
    requires
        0 <= h <= BOARD_H,
    ensures
        forall|k: int|
            0 <= k < empty_cells_upto(board, h).len() ==> {
                let v = #[trigger] empty_cells_upto(board, h)[k];
                0 <= v.1 < h && 0 <= v.0 < BOARD_W && board[v.1 as int][v.0 as int] is Empty
            },
    decreases h,
{
    if h > 0 {
        lemma_empty_cells_upto(board, h - 1);
        lemma_empty_cells_in_row(board[h - 1], h - 1, BOARD_W as int);
    }
}

/// What happens to a snake that arrives on a cell with the given content:
/// nothing, growth, or death — the latter crediting a kill to the occupant
/// unless the mover ran into its own body.
pub enum MoveEffect {
    Pass,
    Grow,
    Die(Option<usize>),
}

/// What a snake's arrival on a cell with the given content does to the
/// mover: an empty cell is passed through, a fruit is eaten, and any snake
/// segment is fatal, crediting the segment's owner with a kill only when
/// that owner is not the mover itself.
pub open spec fn collision_effect(cell: Actor, mover: usize) -> MoveEffect {
    match cell {
        Actor::Empty => MoveEffect::Pass,
        Actor::Fruit => MoveEffect::Grow,
        Actor::Player(k) => MoveEffect::Die(
            if k == mover {
                None
            } else {
                Some(k)
            },
        ),
    }
}

/// Resolve a snake's arrival on a cell against what the cell held when the
/// mover inspected it.
pub fn resolve_move(cell: Actor, mover: usize) -> (e: MoveEffect)
    ensures
        e == collision_effect(cell, mover),
{
    match cell {
        Actor::Empty => MoveEffect::Pass,
        Actor::Fruit => MoveEffect::Grow,
        Actor::Player(k) => MoveEffect::Die(
            if k == mover {
                None
            } else {
                Some(k)
            },
        ),
    }
}

/// How one alive snake's value changes over a tick in which it moved,
/// leaving its kill counter and alive flag aside: the heading stays, the
/// score grows by one exactly when the body kept its tail, and the body
/// gains the candidate head cell computed from the pre-tick state.
pub open spec fn moved_body(p0: PlayerView, p1: PlayerView, bounds: Vector2) -> bool {
    &&& p1.id == p0.id
    &&& p1.dir == p0.dir
    &&& (p1.score == p0.score || p1.score == p0.score + 1)
    &&& p1.coords == (if p1.score == p0.score + 1 {
        p0.coords
    } else {
        p0.coords.subrange(1, p0.coords.len() as int)
    }).push(p0.candidate(bounds))
}

/// The position of the first claim on cell `c` at or after position `e`;
/// `-1` if none.
pub open spec fn first_claim(claims: Seq<(Vector2, usize)>, c: Vector2, e: int) -> int
    decreases claims.len() - e,
{
    if e < 0 || e >= claims.len() {
        -1
    } else if claims[e].0 == c {
        e
    } else {
        first_claim(claims, c, e + 1)
    }
}

/// `first_claim` from the front finds position `e` when `e` matches and
/// nothing before it does.
proof fn lemma_first_claim_from(claims: Seq<(Vector2, usize)>, c: Vector2, s: int, e: int)
    requires
        0 <= s <= e < claims.len(),
        claims[e].0 == c,
        forall|e2: int| s <= e2 < e ==> (#[trigger] claims[e2]).0 != c,
    ensures
        first_claim(claims, c, s) == e,
    decreases e - s,
{
    if s < e {
        lemma_first_claim_from(claims, c, s + 1, e);
    }
}

/// `first_claim` finds nothing when nothing matches.
proof fn lemma_first_claim_none_from(claims: Seq<(Vector2, usize)>, c: Vector2, s: int)
    requires
        0 <= s <= claims.len(),
        forall|e2: int| s <= e2 < claims.len() ==> (#[trigger] claims[e2]).0 != c,
    ensures
        first_claim(claims, c, s) == -1,
    decreases claims.len() - s,
{
    if s < claims.len() {
        lemma_first_claim_none_from(claims, c, s + 1);
    }
}

/// The fruit-spawn step: the `slot`-selected empty cell becomes a fruit;
/// a board without empty cells is unchanged.
pub open spec fn spec_spawn(g: GameView, slot: u64) -> GameView {
    let cands = empty_cells(g.board);
    if cands.len() == 0 {
        g
    } else {
        let c = cands[(slot as int) % (cands.len() as int)];
        GameView {
            board: g.board.update(c.1 as int, g.board[c.1 as int].update(c.0 as int, Actor::Fruit)),
            ..g
        }
    }
}

/// The roster after one tick, next to the roster before it: dead players
/// keep everything but possibly their kill counter, alive players move per
/// `moved_body`, nobody's kill counter shrinks, and any two players that
/// were both alive and headed into the same cell are both dead.
pub open spec fn tick_players_post(g0: GameView, g1: GameView) -> bool {
    &&& g1.wf()
    &&& g1.players.len() == g0.players.len()
    &&& g1.game_mode == g0.game_mode
    &&& g1.stage == g0.stage
    &&& g1.board_size == g0.board_size
    &&& forall|j: int|
        0 <= j < g0.players.len() && g0.players[j].dead ==> (#[trigger] g1.players[j]) == (
        PlayerView { kills: g1.players[j].kills, ..g0.players[j] }) && g1.players[j].kills
            >= g0.players[j].kills
    &&& forall|j: int|
        0 <= j < g0.players.len() && !g0.players[j].dead ==> moved_body(
            g0.players[j],
            #[trigger] g1.players[j],
            g0.board_size,
        ) && g1.players[j].kills >= g0.players[j].kills
    &&& forall|j: int, k: int|
        0 <= j < k < g0.players.len() && !g0.players[j].dead && !g0.players[k].dead
            && #[trigger] g0.players[j].candidate(g0.board_size) == #[trigger] g0.players[
            k
        ].candidate(g0.board_size) ==> g1.players[j].dead && g1.players[k].dead
}

/// The reported outcome of one tick: present exactly when the round ends —
/// nobody is left, or one snake is left outside solo mode — and then
/// holding this tick's casualties, or the sole survivor.
pub open spec fn tick_outcome_post(g0: GameView, g1: GameView, outcome: Option<Seq<u64>>) -> bool {
    &&& (outcome is Some) <==> (alive_in(g1.players) == 0 || (alive_in(g1.players) == 1
        && g1.game_mode != GameMode::Solo))
    &&& (alive_in(g1.players) == 0 ==> outcome == Some(casualties_from(g0.players, g1.players, 0)))
    &&& (alive_in(g1.players) == 1 && g1.game_mode != GameMode::Solo ==> forall|j: int|
        0 <= j < g1.players.len() && !(#[trigger] g1.players[j]).dead ==> outcome == Some(
            seq![g1.players[j].id],
        ))
}

/// The view of an optional id list.
pub open spec fn outcome_view(o: Option<Vec<u64>>) -> Option<Seq<u64>> {
    match o {
        Some(v) => Some(v@),
        None => None,
    }
}

/// Growth invariant: over one tick, a player that was alive going in has
/// its body grow by exactly one cell when it ate fruit — which is when its
/// fruit score rose by one — and keep its length otherwise.
pub proof fn lemma_growth_invariant(g0: GameView, g1: GameView, i: int)
    requires
        g0.wf(),
        tick_players_post(g0, g1),
        0 <= i < g0.players.len(),
        !g0.players[i].dead,
    ensures
        g1.players[i].score == g0.players[i].score || g1.players[i].score == g0.players[i].score
            + 1,
        g1.players[i].score == g0.players[i].score + 1 ==> g1.players[i].coords.len()
            == g0.players[i].coords.len() + 1,
        g1.players[i].score == g0.players[i].score ==> g1.players[i].coords.len() == g0.players[
            i
        ].coords.len(),
{
    assert(moved_body(g0.players[i], g1.players[i], g0.board_size));
    assert(g0.wf_player(i));
}

/// Score invariant: as long as the sum fits in the counter's range, the
/// effective score a player reports is exactly its fruit count plus three
/// points per kill.
pub proof fn lemma_effective_score(p: PlayerView)
    requires
        p.effective_score() <= u64::MAX,
    ensures
        p.reported_score() == p.score + p.kills * POINTS_PER_KILL,
{
}

/// Self-collision: a snake arriving on a cell occupied by its own body
/// dies and credits the kill to nobody.
pub proof fn lemma_self_collision(m: usize)
    ensures
        collision_effect(Actor::Player(m), m) == MoveEffect::Die(None::<usize>),
{
}

/// Scanning for an id from the front equals scanning from position `i`
/// when the first `i` players do not hold it.
proof fn lemma_first_index_skip(ps: Seq<PlayerView>, id: u64, i: int)
    requires
        0 <= i <= ps.len(),
        forall|j: int| 0 <= j < i ==> (#[trigger] ps[j]).id != id,
    ensures
        Game::first_index_with(ps, id, 0) == Game::first_index_with(ps, id, i),
    decreases i,
{
    if i > 0 {
        lemma_first_index_skip(ps, id, i - 1);
    }
}

/// Applying a buffer and then one more event is applying the extended
/// buffer.
pub proof fn lemma_apply_events_push(g: GameView, evs: Seq<(u64, Vector2)>, ev: (u64, Vector2))
    ensures
        Game::apply_events_spec(g, evs.push(ev)) == Game::apply_input_spec(
            Game::apply_events_spec(g, evs),
            ev.0,
            ev.1,
        ),
    decreases evs.len(),
{
    let s1 = evs.push(ev);
    if evs.len() == 0 {
        assert(s1[0] == ev);
        assert(s1.drop_first() =~= Seq::<(u64, Vector2)>::empty());
        let x = Game::apply_input_spec(g, ev.0, ev.1);
        assert(Game::apply_events_spec(x, s1.drop_first()) == x);
        assert(Game::apply_events_spec(g, s1) == x);
        assert(Game::apply_events_spec(g, evs) == g);
    } else {
        assert(s1[0] == evs[0]);
        assert(s1.drop_first() =~= evs.drop_first().push(ev));
        let x0 = Game::apply_input_spec(g, evs[0].0, evs[0].1);
        lemma_apply_events_push(x0, evs.drop_first(), ev);
        assert(Game::apply_events_spec(g, s1) == Game::apply_events_spec(x0, s1.drop_first()));
        assert(Game::apply_events_spec(g, evs) == Game::apply_events_spec(x0, evs.drop_first()));
    }
}

/// A roster holds a non-negative number of alive players.
proof fn lemma_alive_nonneg(ps: Seq<PlayerView>)
    ensures
        alive_in(ps) >= 0,
    decreases ps.len(),
{
    if ps.len() > 0 {
        lemma_alive_nonneg(ps.drop_last());
    }
}

/// A roster with an alive player at `a` has at least one alive player.
proof fn lemma_alive_pos(ps: Seq<PlayerView>, a: int)
    requires
        0 <= a < ps.len(),
        !ps[a].dead,
    ensures
        alive_in(ps) >= 1,
    decreases ps.len(),
{
    lemma_alive_nonneg(ps.drop_last());
    if a < ps.len() - 1 {
        lemma_alive_pos(ps.drop_last(), a);
    }
}

/// A roster with two distinct alive players has at least two.
proof fn lemma_alive_two(ps: Seq<PlayerView>, a: int, b: int)
    requires
        0 <= a < b < ps.len(),
        !ps[a].dead,
        !ps[b].dead,
    ensures
        alive_in(ps) >= 2,
    decreases ps.len(),
{
    if b == ps.len() - 1 {
        lemma_alive_pos(ps.drop_last(), a);
    } else {
        lemma_alive_two(ps.drop_last(), a, b);
    }
}

/// The mathematical values of a roster of players.
pub open spec fn views_of(s: Seq<Player>) -> Seq<PlayerView> {
    s.map_values(|p: Player| p@)
}

/// The body glyph for the snake with the given roster index, from a fixed
/// ten-symbol alphabet.
pub open spec fn glyph_for(i: int) -> char {
    if i == 0 {
        '#'
    } else if i == 1 {
        '@'
    } else if i == 2 {
        '%'
    } else if i == 3 {
        '$'
    } else if i == 4 {
        'z'
    } else if i == 5 {
        '*'
    } else if i == 6 {
        '+'
    } else if i == 7 {
        '='
    } else if i == 8 {
        '?'
    } else {
        'Q'
    }
}

/// Whether any snake's head — dead or alive — rests on the given cell.
pub open spec fn is_head_cell(players: Seq<PlayerView>, x: int, y: int) -> bool {
    exists|p: int|
        0 <= p < players.len() && (#[trigger] players[p]).coords.len() > 0 && players[p].head()
            == Vector2(x as i64, y as i64)
}

/// The character drawn for one board cell: a dash for emptiness, a star
/// for fruit, and for a snake segment either the head glyph or the
/// player's own symbol.
pub open spec fn render_cell(g: GameView, x: int, y: int) -> char {
    match g.board[y][x] {
        Actor::Empty => '-',
        Actor::Fruit => '*',
        Actor::Player(i) => if is_head_cell(g.players, x, y) {
            'O'
        } else {
            glyph_for(i as int)
        },
    }
}

/// The first `w` characters of the rendered row `y`.
pub open spec fn render_row(g: GameView, y: int, w: int) -> Seq<char>
    decreases w,
{
    if w <= 0 {
        Seq::empty()
    } else {
        render_row(g, y, w - 1).push(render_cell(g, w - 1, y))
    }
}

/// The first `h` rendered rows, each after the first preceded by a
/// newline.
pub open spec fn render_upto(g: GameView, h: int) -> Seq<char>
    decreases h,
{
    if h <= 0 {
        Seq::empty()
    } else {
        render_upto(g, h - 1) + (if h - 1 > 0 {
            seq!['\n']
        } else {
            Seq::empty()
        }) + render_row(g, h - 1, BOARD_W as int)
    }
}

/// The whole rendered board: newline-separated rows with no trailing
/// newline.
pub open spec fn render(g: GameView) -> Seq<char> {
    render_upto(g, BOARD_H as int)
}

/// Relies on String implementing FromIterator over characters: collecting
/// yields a string of exactly the given characters in order.
#[verifier::external_body]
fn chars_to_string(cs: &Vec<char>) -> (r: String)
    ensures
        r@ == cs@,
{
    cs.iter().collect()
}

/// Find the first per-tick head claim on the cell `c`, if any.
fn find_claim(claims: &Vec<(Vector2, usize)>, c: Vector2) -> (r: Option<usize>)
    ensures
        match r {
            Some(e) => 0 <= e < claims@.len() && claims@[e as int].0 == c && first_claim(
                claims@,
                c,
                0,
            ) == e,
            None => (forall|e: int| 0 <= e < claims@.len() ==> (#[trigger] claims@[e]).0 != c)
                && first_claim(claims@, c, 0) == -1,
        },
{
    let mut e: usize = 0;
    while e < claims.len()
        invariant
            e <= claims@.len(),
            forall|k: int| 0 <= k < e ==> (#[trigger] claims@[k]).0 != c,
        decreases claims@.len() - e,
    {
        if claims[e].0 == c {
            proof {
                lemma_first_claim_from(claims@, c, 0, e as int);
            }
            return Some(e);
        }
        e += 1;
    }
    proof {
        lemma_first_claim_none_from(claims@, c, 0);
    }
    None
}

impl GameView {
    /// The player with roster index `i` is internally consistent: its body
    /// length mirrors its fruit score, every body cell is on the board, and
    /// its heading is a unit step or zero.
    pub open spec fn wf_player(self, i: int) -> bool {
        let p = self.players[i];
        &&& p.coords.len() == p.score + 2
        &&& forall|k: int|
            0 <= k < p.coords.len() ==> (#[trigger] p.coords[k]).in_bounds(self.board_size)
        &&& p.dir.is_unit_step()
    }

    /// The board alone is internally consistent: right dimensions, and no
    /// cell points at a roster index that does not exist.
    pub open spec fn wf_board(self) -> bool {
        &&& self.board_size == (Vector2(BOARD_W, BOARD_H))
        &&& self.board.len() == BOARD_H
        &&& forall|y: int| 0 <= y < self.board.len() ==> (#[trigger] self.board[y]).len() == BOARD_W
        &&& forall|y: int, x: int|
            0 <= y < BOARD_H && 0 <= x < BOARD_W ==> ((#[trigger] self.board[y][x]) matches Actor::Player(
                j,
            ) ==> j < self.players.len())
    }

    /// The whole game state is internally consistent.
    pub open spec fn wf(self) -> bool {
        &&& self.wf_board()
        &&& 1 <= self.players.len() <= 5
        &&& forall|i: int| 0 <= i < self.players.len() ==> #[trigger] self.wf_player(i)
    }

    /// The board cell under the given point.
    pub open spec fn cell(self, v: Vector2) -> Actor {
        self.board[v.1 as int][v.0 as int]
    }
}

/// Overwrite one cell of a board laid out as rows of columns.
fn set_board_cell(board: &mut Vec<Vec<Actor>>, x: usize, y: usize, a: Actor)
    requires
        y < old(board)@.len(),
        x < old(board)@[y as int]@.len(),
    ensures
        final(board)@.len() == old(board)@.len(),
        final(board)@ =~= old(board)@.update(
            y as int,
            final(board)@[y as int],
        ),
        final(board)@[y as int]@ =~= old(board)@[y as int]@.update(x as int, a),
{
    let mut row = board.remove(y);
    row.remove(x);
    row.insert(x, a);
    board.insert(y, row);
    proof {
        assert(board@ =~= old(board)@.update(y as int, board@[y as int]));
        assert(board@[y as int]@ =~= old(board)@[y as int]@.update(x as int, a));
    }
}

/// The spacing quotient for an `n`-player roster lies between 3 and 10, and
/// `n` of those spacings stay inside the board.
proof fn lemma_spawn_quot(n: int)
    requires
        1 <= n <= 5,
    ensures
        3 <= 21int / (n + 1),
        (21int / (n + 1)) * n < 24,
{
    let q = 21int / (n + 1);
    if n == 1 {
        assert(q == 21int / 2int);
        assert(21int / 2int == 10) by (nonlinear_arith);
    } else if n == 2 {
        assert(q == 21int / 3int);
        assert(21int / 3int == 7) by (nonlinear_arith);
    } else if n == 3 {
        assert(q == 21int / 4int);
        assert(21int / 4int == 5) by (nonlinear_arith);
    } else if n == 4 {
        assert(q == 21int / 5int);
        assert(21int / 5int == 4) by (nonlinear_arith);
    } else {
        assert(q == 21int / 6int);
        assert(21int / 6int == 3) by (nonlinear_arith);
    }
}

/// Bounds on the spawn rows: every roster of up to five players starts
/// strictly inside the board.
proof fn lemma_spawn_row_bounds(n: int, p: int)
    requires
        1 <= n <= 5,
        0 <= p < n,
    ensures
        3 <= spawn_row(n, p) < BOARD_H,
{
    lemma_spawn_quot(n);
    let q = 21int / (n + 1);
    assert(q * 1 <= q * (p + 1) && q * (p + 1) <= q * n) by (nonlinear_arith)
        requires
            q >= 0,
            1 <= p + 1 <= n,
    ;
}

/// Overwriting one in-range cell with a fruit, an empty marker, or a valid
/// player index keeps the game state well formed.
proof fn lemma_wf_after_cell_update(g0: GameView, g1: GameView, v: Vector2, a: Actor)
    requires
        g0.wf_board(),
        0 <= v.1 < BOARD_H,
        0 <= v.0 < BOARD_W,
        a matches Actor::Player(j) ==> j < g0.players.len(),
        g1 == (GameView {
            board: g0.board.update(v.1 as int, g0.board[v.1 as int].update(v.0 as int, a)),
            ..g0
        }),
    ensures
        g1.wf_board(),
        g0.wf() ==> g1.wf(),
{
    assert(g1.board.len() == BOARD_H);
    assert forall|y: int| 0 <= y < g1.board.len() implies (#[trigger] g1.board[y]).len()
        == BOARD_W by {
        if y == v.1 as int {
            assert(g1.board[y] == g0.board[v.1 as int].update(v.0 as int, a));
        } else {
            assert(g1.board[y] == g0.board[y]);
        }
    }
    assert forall|y: int, x: int|
        0 <= y < BOARD_H && 0 <= x < BOARD_W implies ((#[trigger] g1.board[y][x])
        matches Actor::Player(j) ==> j < g1.players.len()) by {
        if y == v.1 as int && x == v.0 as int {
            assert(g1.board[y][x] == a);
        } else if y == v.1 as int {
            assert(g1.board[y][x] == g0.board[y][x]);
        } else {
            assert(g1.board[y][x] == g0.board[y][x]);
        }
    }
    if g0.wf() {
        assert forall|i: int| 0 <= i < g1.players.len() implies #[trigger] g1.wf_player(i) by {
            assert(g0.wf_player(i));
        }
    }
}

/// Different players spawn on different rows.
proof fn lemma_spawn_row_distinct(n: int, p1: int, p2: int)
    requires
        1 <= n <= 5,
        0 <= p1 < p2 < n,
    ensures
        spawn_row(n, p1) < spawn_row(n, p2),
{
    lemma_spawn_quot(n);
    let q = 21int / (n + 1);
    assert(q * (p1 + 1) < q * (p2 + 1)) by (nonlinear_arith)
        requires
            q >= 1,
            p1 + 1 < p2 + 1,
    ;
}

impl Game {
    /// Mark the player with roster index `i` dead; everything else is
    /// untouched.
    pub(crate) fn mark_player_dead(&mut self, i: usize)
        requires
            i < old(self)@.players.len(),
        ensures
            final(self)@ == (GameView {
                players: old(self)@.players.update(
                    i as int,
                    (PlayerView { dead: true, ..old(self)@.players[i as int] }),
                ),
                ..old(self)@
            }),
    {
        let mut pl = self.players.remove(i);
        pl.set_as_dead();
        self.players.insert(i, pl);
        proof {
            assert(self.players@ =~= old(self).players@.update(i as int, self.players@[i as int]));
            assert(self@.players =~= old(self)@.players.update(
                i as int,
                (PlayerView { dead: true, ..old(self)@.players[i as int] }),
            ));
            assert(self@ =~= (GameView {
                players: old(self)@.players.update(
                    i as int,
                    (PlayerView { dead: true, ..old(self)@.players[i as int] }),
                ),
                ..old(self)@
            }));
        }
    }

    /// Credit one fruit to player `i`.
    pub(crate) fn bump_score(&mut self, i: usize)
        requires
            i < old(self)@.players.len(),
            old(self)@.players[i as int].score < u64::MAX,
        ensures
            final(self)@ == (GameView {
                players: old(self)@.players.update(
                    i as int,
                    (PlayerView {
                        score: (old(self)@.players[i as int].score + 1) as u64,
                        ..old(self)@.players[i as int]
                    }),
                ),
                ..old(self)@
            }),
    {
        let mut pl = self.players.remove(i);
        proof {
            assert(pl@ == old(self)@.players[i as int]);
        }
        pl.add_fruit_score();
        self.players.insert(i, pl);
        proof {
            assert(self.players@ =~= old(self).players@.update(i as int, self.players@[i as int]));
            assert(self@.players =~= old(self)@.players.update(
                i as int,
                (PlayerView {
                    score: (old(self)@.players[i as int].score + 1) as u64,
                    ..old(self)@.players[i as int]
                }),
            ));
            assert(self@ =~= (GameView {
                players: old(self)@.players.update(
                    i as int,
                    (PlayerView {
                        score: (old(self)@.players[i as int].score + 1) as u64,
                        ..old(self)@.players[i as int]
                    }),
                ),
                ..old(self)@
            }));
        }
    }

    /// Credit one kill to player `i`, saturating instead of overflowing.
    pub(crate) fn bump_kills(&mut self, i: usize)
        requires
            i < old(self)@.players.len(),
        ensures
            final(self)@ == (GameView {
                players: old(self)@.players.update(
                    i as int,
                    (PlayerView {
                        kills: (if old(self)@.players[i as int].kills < u64::MAX {
                            (old(self)@.players[i as int].kills + 1) as u64
                        } else {
                            u64::MAX
                        }),
                        ..old(self)@.players[i as int]
                    }),
                ),
                ..old(self)@
            }),
    {
        let mut pl = self.players.remove(i);
        proof {
            assert(pl@ == old(self)@.players[i as int]);
        }
        pl.add_kill_saturating();
        self.players.insert(i, pl);
        proof {
            assert(self.players@ =~= old(self).players@.update(i as int, self.players@[i as int]));
            assert(self@.players =~= old(self)@.players.update(
                i as int,
                self.players@[i as int]@,
            ));
            assert(self@ =~= (GameView {
                players: old(self)@.players.update(i as int, self.players@[i as int]@),
                ..old(self)@
            }));
        }
    }

    /// Remove and return the oldest body coordinate of player `i`.
    pub(crate) fn pop_tail(&mut self, i: usize) -> (t: Vector2)
        requires
            i < old(self)@.players.len(),
            old(self)@.players[i as int].coords.len() >= 1,
        ensures
            t == old(self)@.players[i as int].coords[0],
            final(self)@ == (GameView {
                players: old(self)@.players.update(
                    i as int,
                    (PlayerView {
                        coords: old(self)@.players[i as int].coords.subrange(
                            1,
                            old(self)@.players[i as int].coords.len() as int,
                        ),
                        ..old(self)@.players[i as int]
                    }),
                ),
                ..old(self)@
            }),
    {
        let mut pl = self.players.remove(i);
        proof {
            assert(pl@ == old(self)@.players[i as int]);
        }
        let t = pl.remove_tail();
        self.players.insert(i, pl);
        proof {
            assert(self.players@ =~= old(self).players@.update(i as int, self.players@[i as int]));
            assert(self.players@[i as int]@.coords =~= old(self)@.players[i as int].coords.subrange(
                1,
                old(self)@.players[i as int].coords.len() as int,
            ));
            assert(self@.players =~= old(self)@.players.update(
                i as int,
                self.players@[i as int]@,
            ));
            assert(self@ =~= (GameView {
                players: old(self)@.players.update(i as int, self.players@[i as int]@),
                ..old(self)@
            }));
        }
        t
    }

    /// Append a new head coordinate to player `i`.
    pub(crate) fn push_head(&mut self, i: usize, c: Vector2)
        requires
            i < old(self)@.players.len(),
        ensures
            final(self)@ == (GameView {
                players: old(self)@.players.update(
                    i as int,
                    (PlayerView {
                        coords: old(self)@.players[i as int].coords.push(c),
                        ..old(self)@.players[i as int]
                    }),
                ),
                ..old(self)@
            }),
    {
        let mut pl = self.players.remove(i);
        proof {
            assert(pl@ == old(self)@.players[i as int]);
        }
        pl.push_coord(c);
        self.players.insert(i, pl);
        proof {
            assert(self.players@ =~= old(self).players@.update(i as int, self.players@[i as int]));
            assert(self@.players =~= old(self)@.players.update(
                i as int,
                self.players@[i as int]@,
            ));
            assert(self@ =~= (GameView {
                players: old(self)@.players.update(i as int, self.players@[i as int]@),
                ..old(self)@
            }));
        }
    }

    /// Overwrite the board cell under `v`.
    pub(crate) fn set_cell(&mut self, v: Vector2, a: Actor)
        requires
            0 <= v.1 < BOARD_H,
            0 <= v.0 < BOARD_W,
            old(self)@.board.len() == BOARD_H,
            old(self)@.board[v.1 as int].len() == BOARD_W,
        ensures
            final(self)@ == (GameView {
                board: old(self)@.board.update(
                    v.1 as int,
                    old(self)@.board[v.1 as int].update(v.0 as int, a),
                ),
                ..old(self)@
            }),
    {
        proof {
            assert(old(self)@.board[v.1 as int] == old(self).board@[v.1 as int]@);
            assert(old(self).board@.len() == old(self).board.len());
        }
        set_board_cell(&mut self.board, v.0 as usize, v.1 as usize, a);
        proof {
            let y = v.1 as int;
            let x = v.0 as int;
            assert(v.1 as usize as int == y);
            assert(v.0 as usize as int == x);
            assert(self.board@[y]@ =~= old(self)@.board[y].update(x, a));
            assert forall|j: int| 0 <= j < self@.board.len() && j != y implies self@.board[j]
                == old(self)@.board[j] by {
                assert(self.board@[j] == old(self).board@[j]);
            }
            assert(self@.board =~~= old(self)@.board.update(
                v.1 as int,
                old(self)@.board[v.1 as int].update(v.0 as int, a),
            ));
            assert(self@ =~= (GameView {
                board: old(self)@.board.update(
                    v.1 as int,
                    old(self)@.board[v.1 as int].update(v.0 as int, a),
                ),
                ..old(self)@
            }));
        }
    }

    /// Start a round for the given roster of player ids. Each snake spawns
    /// with a two-cell horizontal body at columns 2 and 3 of its own row,
    /// heading right; the rows are spaced so that no two snakes can touch
    /// at spawn.
    pub fn new(game_mode: GameMode, pid: &[u64]) -> (g: Game)
        requires
            1 <= pid@.len() <= 5,
            forall|i: int, j: int| 0 <= i < j < pid@.len() ==> pid@[i] != pid@[j],
        ensures
            g@.wf(),
            g@.game_mode == game_mode,
            g@.stage == 0,
            g@.players.len() == pid@.len(),
            forall|p: int|
                0 <= p < pid@.len() ==> (#[trigger] g@.players[p]) == (PlayerView {
                    id: pid@[p],
                    coords: seq![
                        Vector2(2, spawn_row(pid@.len() as int, p) as i64),
                        Vector2(3, spawn_row(pid@.len() as int, p) as i64),
                    ],
                    dir: Vector2(1, 0),
                    score: 0,
                    kills: 0,
                    dead: false,
                }),
            forall|p: int|
                0 <= p < pid@.len() ==> g@.board[spawn_row(pid@.len() as int, p)][2]
                    == Actor::Player(p as usize) && g@.board[spawn_row(pid@.len() as int, p)][3]
                    == Actor::Player(p as usize),
            forall|y: int, x: int|
                (0 <= y < BOARD_H && 0 <= x < BOARD_W && (forall|p: int|
                    0 <= p < pid@.len() ==> !(y == spawn_row(pid@.len() as int, p) && (x == 2 || x
                        == 3)))) ==> g@.board[y][x] == Actor::Empty,
    {
        let n = pid.len();
        let bsize = Vector2(BOARD_W, BOARD_H);
        let mut board = Game::empty_board(&bsize);
        let mut players: Vec<Player> = Vec::new();
        let mut p: usize = 0;
        while p < n
            invariant
                p <= n,
                n == pid@.len(),
                1 <= n <= 5,
                board@.len() == BOARD_H,
                forall|y: int| 0 <= y < BOARD_H ==> (#[trigger] board@[y])@.len() == BOARD_W,
                players@.len() == p,
                forall|q: int|
                    0 <= q < p ==> (#[trigger] players@[q])@ == (PlayerView {
                        id: pid@[q],
                        coords: seq![
                            Vector2(2, spawn_row(n as int, q) as i64),
                            Vector2(3, spawn_row(n as int, q) as i64),
                        ],
                        dir: Vector2(1, 0),
                        score: 0,
                        kills: 0,
                        dead: false,
                    }),
                forall|q: int|
                    0 <= q < p ==> board@[spawn_row(n as int, q)]@[2] == Actor::Player(q as usize)
                        && board@[spawn_row(n as int, q)]@[3] == Actor::Player(q as usize),
                forall|y: int, x: int|
                    (0 <= y < BOARD_H && 0 <= x < BOARD_W && (forall|q: int|
                        0 <= q < p ==> !(y == spawn_row(n as int, q) && (x == 2 || x == 3))))
                        ==> board@[y]@[x] == Actor::Empty,
            decreases n - p,
        {
            proof {
                lemma_spawn_quot(n as int);
                let q = 21int / (n as int + 1);
                assert(q * (p as int + 1) <= 115) by (nonlinear_arith)
                    requires
                        0 <= q < 24,
                        0 <= p as int + 1 <= 5,
                ;
            }
            let r = (21usize / (n + 1)) * (p + 1);
            proof {
                lemma_spawn_row_bounds(n as int, p as int);
                assert(r == spawn_row(n as int, p as int));
                assert forall|q: int| 0 <= q < p implies spawn_row(n as int, q) != r as int by {
                    lemma_spawn_row_distinct(n as int, q, p as int);
                }
            }
            let ghost b_before = board@;
            set_board_cell(&mut board, 3, r, Actor::Player(p));
            let ghost b_mid = board@;
            set_board_cell(&mut board, 2, r, Actor::Player(p));
            proof {
                assert(board@[r as int]@[2] == Actor::Player(p as usize));
                assert(board@[r as int]@[3] == b_mid[r as int]@[3]);
                assert(b_mid[r as int]@[3] == Actor::Player(p as usize));
                assert forall|j: int| 0 <= j < BOARD_H && j != r as int implies board@[j]@
                    == b_before[j]@ by {
                    assert(board@[j] == b_mid[j]);
                    assert(b_mid[j] == b_before[j]);
                }
                assert forall|q: int|
                    0 <= q < p as int + 1 implies board@[spawn_row(n as int, q)]@[2]
                        == Actor::Player(q as usize) && board@[spawn_row(n as int, q)]@[3]
                        == Actor::Player(q as usize) by {
                    lemma_spawn_row_bounds(n as int, q);
                    if q < p as int {
                        lemma_spawn_row_distinct(n as int, q, p as int);
                        assert(board@[spawn_row(n as int, q)]@ == b_before[spawn_row(
                            n as int,
                            q,
                        )]@);
                    }
                }
            }
            let mut coords: Vec<Vector2> = Vec::new();
            coords.push(Vector2(2, r as i64));
            coords.push(Vector2(3, r as i64));
            proof {
                assert(coords@ =~= seq![
                    Vector2(2, spawn_row(n as int, p as int) as i64),
                    Vector2(3, spawn_row(n as int, p as int) as i64),
                ]);
            }
            players.push(Player::new(pid[p], coords, Vector2(1, 0)));
            p += 1;
        }
        let g = Game { stage: 0, game_mode, players, board, board_size: bsize };
        proof {
            assert forall|i: int| 0 <= i < g@.players.len() implies #[trigger] g@.wf_player(i) by {
                lemma_spawn_row_bounds(n as int, i);
                assert(g@.players[i] == g.players@[i]@);
            }
            assert forall|p2: int|
                0 <= p2 < n implies g@.board[spawn_row(n as int, p2)][2] == Actor::Player(
                p2 as usize,
            ) && g@.board[spawn_row(n as int, p2)][3] == Actor::Player(p2 as usize) by {
                lemma_spawn_row_bounds(n as int, p2);
                assert(g@.board[spawn_row(n as int, p2)] == g.board@[spawn_row(n as int, p2)]@);
            }
            assert forall|y: int, x: int|
                0 <= y < BOARD_H && 0 <= x < BOARD_W implies ((#[trigger] g@.board[y][x]) matches Actor::Player(
                j,
            ) ==> j < g@.players.len()) by {
                if exists|q: int| 0 <= q < n && y == spawn_row(n as int, q) && (x == 2 || x == 3) {
                    let q = choose|q: int|
                        0 <= q < n && y == spawn_row(n as int, q) && (x == 2 || x == 3);
                    assert(g@.board[y][x] == Actor::Player(q as usize));
                } else {
                    assert(g@.board[y][x] == Actor::Empty);
                }
            }
        }
        g
    }

    /// The empty cells of the current board, in row-major scan order.
    fn fruit_candidates(&self) -> (v: Vec<Vector2>)
        requires
            self@.wf(),
        ensures
            v@ == empty_cells(self@.board),
    {
        let mut acc: Vec<Vector2> = Vec::new();
        let mut y: usize = 0;
        while y < 24
            invariant
                self@.wf(),
                y <= 24,
                acc@ == empty_cells_upto(self@.board, y as int),
            decreases 24 - y,
        {
            let mut x: usize = 0;
            while x < 64
                invariant
                    self@.wf(),
                    y < 24,
                    x <= 64,
                    acc@ == empty_cells_upto(self@.board, y as int) + empty_cells_in_row(
                        self@.board[y as int],
                        y as int,
                        x as int,
                    ),
                decreases 64 - x,
            {
                let ghost acc_pre = acc@;
                let row = &self.board[y];
                let cell = row[x];
                proof {
                    assert(row@ == self@.board[y as int]);
                    assert(cell == self@.board[y as int][x as int]);
                }
                if let Actor::Empty = cell {
                    acc.push(Vector2(x as i64, y as i64));
                }
                proof {
                    assert(acc@ =~= empty_cells_upto(self@.board, y as int)
                        + empty_cells_in_row(self@.board[y as int], y as int, x as int + 1));
                }
                x += 1;
            }
            proof {
                assert(acc@ =~= empty_cells_upto(self@.board, y as int + 1));
            }
            y += 1;
        }
        proof {
            assert(acc@ == empty_cells(self@.board));
        }
        acc
    }

    /// Move every alive snake one step, in roster order, resolving fruit,
    /// body collisions and simultaneous head collisions exactly as the
    /// board stood when each mover was processed. Returns the deferred
    /// kill credits: one roster index per credited death, to be applied
    /// after the scan.
    #[verifier::rlimit(100)]
    fn run_moves(&mut self) -> (credits: Vec<usize>)
        requires
            old(self)@.wf(),
        ensures
            final(self)@.wf(),
            final(self)@.players.len() == old(self)@.players.len(),
            final(self)@.game_mode == old(self)@.game_mode,
            final(self)@.stage == old(self)@.stage,
            final(self)@.board_size == old(self)@.board_size,
            forall|j: int|
                0 <= j < old(self)@.players.len() && old(self)@.players[j].dead
                    ==> #[trigger] final(self)@.players[j] == old(self)@.players[j],
            forall|j: int|
                0 <= j < old(self)@.players.len() && !old(self)@.players[j].dead ==> moved_body(
                    old(self)@.players[j],
                    #[trigger] final(self)@.players[j],
                    old(self)@.board_size,
                ) && final(self)@.players[j].kills == old(self)@.players[j].kills,
            forall|j: int, k: int|
                0 <= j < k < old(self)@.players.len() && !old(self)@.players[j].dead && !old(
                    self,
                )@.players[k].dead && #[trigger] old(self)@.players[j].candidate(
                    old(self)@.board_size,
                ) == #[trigger] old(self)@.players[k].candidate(old(self)@.board_size)
                    ==> final(self)@.players[j].dead && final(self)@.players[k].dead,
            forall|e: int| 0 <= e < credits@.len() ==> (#[trigger] credits@[e]) < old(self)@.players.len(),
    {
        let ghost g0 = self@;
        let ghost bsize = self@.board_size;
        let n = self.players.len();
        proof {
            assert(n == g0.players.len());
        }
        let mut claims: Vec<(Vector2, usize)> = Vec::new();
        let mut credits: Vec<usize> = Vec::new();
        let mut i: usize = 0;
        while i < n
            invariant
                i <= n,
                n == g0.players.len(),
                g0.wf(),
                self@.wf(),
                self@.players.len() == n,
                self@.game_mode == g0.game_mode,
                self@.stage == g0.stage,
                self@.board_size == bsize,
                bsize == g0.board_size,
                forall|j: int| i <= j < n ==> #[trigger] self@.players[j] == g0.players[j],
                forall|j: int|
                    0 <= j < i && g0.players[j].dead ==> #[trigger] self@.players[j]
                        == g0.players[j],
                forall|j: int|
                    0 <= j < i && !g0.players[j].dead ==> moved_body(
                        g0.players[j],
                        #[trigger] self@.players[j],
                        bsize,
                    ) && self@.players[j].kills == g0.players[j].kills,
                forall|e: int|
                    0 <= e < claims@.len() ==> {
                        let cl = #[trigger] claims@[e];
                        cl.1 < i && !g0.players[cl.1 as int].dead && g0.players[
                            cl.1 as int
                        ].candidate(bsize) == cl.0
                    },
                forall|e1: int, e2: int|
                    0 <= e1 < e2 < claims@.len() ==> (#[trigger] claims@[e1]).0 != (
                    #[trigger] claims@[e2]).0,
                forall|j: int|
                    0 <= j < i && !g0.players[j].dead ==> exists|e: int|
                        0 <= e < claims@.len() && (#[trigger] claims@[e]).0 == g0.players[
                            j
                        ].candidate(bsize),
                forall|j: int, k: int|
                    0 <= j < k < i && !g0.players[j].dead && !g0.players[k].dead && #[trigger] g0.players[
                        j
                    ].candidate(bsize) == #[trigger] g0.players[k].candidate(bsize)
                        ==> self@.players[j].dead && self@.players[k].dead,
                forall|e: int| 0 <= e < credits@.len() ==> (#[trigger] credits@[e]) < n,
            decreases n - i,
        {
            let ghost s_start = self@;
            let pl = &self.players[i];
            proof {
                assert(pl@ == self@.players[i as int]);
                assert(self@.wf_player(i as int));
            }
            if !pl.is_dead() {
                let head = pl.head();
                let d = pl.heading();
                let blen = pl.body_len();
                let mut c = head;
                let bs = self.board_size;
                c.translate(&d, &bs);
                proof {
                    assert(c == g0.players[i as int].candidate(bsize));
                }
                let cy = c.1 as usize;
                let cx = c.0 as usize;
                let row = &self.board[cy];
                let cell = row[cx];
                proof {
                    assert(row@ == self@.board[cy as int]);
                    assert(cell == self@.board[cy as int][cx as int]);
                }
                let eff = resolve_move(cell, i);
                let mut got_fruit = false;
                match eff {
                    MoveEffect::Pass => {},
                    MoveEffect::Grow => {
                        proof {
                            assert(self@.players[i as int].score + 2 == blen);
                        }
                        self.bump_score(i);
                        got_fruit = true;
                    },
                    MoveEffect::Die(credit) => {
                        self.mark_player_dead(i);
                        if let Some(ki) = credit {
                            proof {
                                assert(cell == Actor::Player(ki));
                                assert((ki as int) < self@.players.len());
                            }
                            credits.push(ki);
                        }
                    },
                }
                let ghost s_scored = self@;
                if !got_fruit {
                    let t = self.pop_tail(i);
                    proof {
                        assert(t == g0.players[i as int].coords[0]);
                        assert(g0.wf_player(i as int));
                        assert(t.in_bounds(bsize));
                    }
                    self.set_cell(t, Actor::Empty);
                    proof {
                        lemma_wf_after_cell_update(
                            (GameView { board: s_scored.board, ..self@ }),
                            self@,
                            t,
                            Actor::Empty,
                        );
                    }
                }
                let ghost s_tailed = self@;
                self.push_head(i, c);
                self.set_cell(c, Actor::Player(i));
                proof {
                    lemma_wf_after_cell_update(
                        (GameView { board: s_tailed.board, ..self@ }),
                        self@,
                        c,
                        Actor::Player(i),
                    );
                }
                let ghost s_moved = self@;
                let ghost claims0 = claims@;
                let found = find_claim(&claims, c);
                match found {
                    Some(e) => {
                        let t = claims[e].1;
                        self.mark_player_dead(t);
                        self.mark_player_dead(i);
                        proof {
                            assert(claims@[e as int].0 == c);
                            assert(exists|e2: int|
                                0 <= e2 < claims@.len() && (#[trigger] claims@[e2]).0 == c);
                        }
                    },
                    None => {
                        claims.push((c, i));
                        proof {
                            assert(claims@[claims@.len() - 1].0 == c);
                            assert(exists|e2: int|
                                0 <= e2 < claims@.len() && (#[trigger] claims@[e2]).0 == c);
                        }
                    },
                }
                proof {
                    assert forall|j: int|
                        0 <= j < i as int + 1 && !g0.players[j].dead implies exists|e2: int|
                        0 <= e2 < claims@.len() && (#[trigger] claims@[e2]).0 == g0.players[
                        j
                    ].candidate(bsize) by {
                        if j == i as int {
                            assert(g0.players[j].candidate(bsize) == c);
                        } else {
                            let e3 = choose|e3: int|
                                0 <= e3 < claims0.len() && (#[trigger] claims0[e3]).0
                                    == g0.players[j].candidate(bsize);
                            assert((claims@[e3]).0 == g0.players[j].candidate(bsize));
                        }
                    }
                    assert forall|j: int|
                        0 <= j < n && s_start.players[j].dead implies #[trigger] self@.players[
                        j
                    ].dead by {}
                    assert forall|ii: int|
                        0 <= ii < self@.players.len() implies #[trigger] self@.wf_player(ii) by {
                        assert(s_start.wf_player(ii));
                        if ii == i as int {
                            assert(g0.wf_player(ii));
                            let p0 = g0.players[ii];
                            let p1 = self@.players[ii];
                            assert(p1.coords == (if got_fruit {
                                p0.coords
                            } else {
                                p0.coords.subrange(1, p0.coords.len() as int)
                            }).push(c));
                            assert(c.in_bounds(bsize));
                            assert forall|k: int|
                                0 <= k < p1.coords.len() implies (#[trigger] p1.coords[
                                k
                            ]).in_bounds(self@.board_size) by {
                                if k < p1.coords.len() - 1 {
                                    if got_fruit {
                                        assert(p1.coords[k] == p0.coords[k]);
                                    } else {
                                        assert(p1.coords[k] == p0.coords[k + 1]);
                                    }
                                } else {
                                    assert(p1.coords[k] == c);
                                }
                            }
                        }
                    }
                    let cand_i = g0.players[i as int].candidate(bsize);
                    assert(cand_i == c);
                    assert forall|j: int, k: int|
                        0 <= j < k < i as int + 1 && !g0.players[j].dead && !g0.players[k].dead
                            && #[trigger] g0.players[j].candidate(bsize) == #[trigger] g0.players[
                            k
                        ].candidate(bsize) implies self@.players[j].dead && self@.players[
                        k
                    ].dead by {
                        if k == i as int {
                            let cand_j = g0.players[j].candidate(bsize);
                            assert(cand_j == c);
                            let ej = choose|e2: int|
                                0 <= e2 < claims0.len() && (#[trigger] claims0[e2]).0 == cand_j;
                            assert(claims0[ej].0 == c);
                            if found is None {
                                assert(false);
                            } else {
                                assert(self@.players[i as int].dead);
                                let own = claims0[ej].1 as int;
                                assert(own < i as int && !g0.players[own].dead && g0.players[
                                    own
                                ].candidate(bsize) == c);
                                if j == own {
                                    assert(self@.players[j].dead);
                                } else {
                                    if j < own {
                                        assert(s_start.players[j].dead && s_start.players[
                                            own
                                        ].dead);
                                    } else {
                                        assert(s_start.players[own].dead && s_start.players[
                                            j
                                        ].dead);
                                    }
                                    assert(self@.players[j].dead);
                                }
                            }
                        } else {
                            assert(s_start.players[j].dead && s_start.players[k].dead);
                        }
                    }
                }
            }
            i += 1;
        }
        credits
    }

    /// Find the first roster index holding the given id, scanning from
    /// position `i`; `-1` if no player has it.
    pub open spec fn first_index_with(ps: Seq<PlayerView>, id: u64, i: int) -> int
        decreases ps.len() - i,
    {
        if i < 0 || i >= ps.len() {
            -1
        } else if ps[i].id == id {
            i
        } else {
            Self::first_index_with(ps, id, i + 1)
        }
    }

    /// What one buffered input event does to the game: nothing for an
    /// unknown id; death for the cancel sentinel, idempotently; a new
    /// pending heading for a living player; nothing for a dead one.
    pub open spec fn apply_input_spec(g: GameView, id: u64, dir: Vector2) -> GameView {
        let i = Self::first_index_with(g.players, id, 0);
        if i < 0 {
            g
        } else {
            GameView {
                players: g.players.update(
                    i,
                    (if dir == Vector2(0, 0) {
                        PlayerView { dead: true, ..g.players[i] }
                    } else if g.players[i].dead {
                        g.players[i]
                    } else {
                        PlayerView { dir, ..g.players[i] }
                    }),
                ),
                ..g
            }
        }
    }

    /// The game after a whole buffer of input events, applied in arrival
    /// order — so the last heading per player wins.
    pub open spec fn apply_events_spec(g: GameView, evs: Seq<(u64, Vector2)>) -> GameView
        decreases evs.len(),
    {
        if evs.len() == 0 {
            g
        } else {
            Self::apply_events_spec(
                Self::apply_input_spec(g, evs[0].0, evs[0].1),
                evs.drop_first(),
            )
        }
    }

    /// Apply one buffered input event before a tick. The zero vector is
    /// the cancel sentinel: it marks the named player dead, even one that
    /// already is. Any other unit step becomes the pending heading of the
    /// named player if it is alive. An unknown id is silently ignored.
    pub fn apply_input(&mut self, id: u64, dir: Vector2)
        requires
            old(self)@.wf(),
            dir.is_unit_step(),
        ensures
            final(self)@.wf(),
            final(self)@ == Game::apply_input_spec(old(self)@, id, dir),
            (forall|i: int|
                0 <= i < old(self)@.players.len() ==> (#[trigger] old(self)@.players[i]).id != id)
                ==> final(self)@ == old(self)@,
            forall|i: int|
                0 <= i < old(self)@.players.len() && (#[trigger] old(self)@.players[i]).id == id
                    && (forall|j: int| 0 <= j < i ==> old(self)@.players[j].id != id)
                    ==> final(self)@ == (GameView {
                    players: old(self)@.players.update(
                        i,
                        (if dir == Vector2(0, 0) {
                            PlayerView { dead: true, ..old(self)@.players[i] }
                        } else if old(self)@.players[i].dead {
                            old(self)@.players[i]
                        } else {
                            PlayerView { dir, ..old(self)@.players[i] }
                        }),
                    ),
                    ..old(self)@
                }),
    {
        let n = self.players.len();
        let mut i: usize = 0;
        while i < n
            invariant
                i <= n,
                n == self@.players.len(),
                self@ == old(self)@,
                self@.wf(),
                dir.is_unit_step(),
                forall|j: int| 0 <= j < i ==> (#[trigger] self@.players[j]).id != id,
            decreases n - i,
        {
            let pl = &self.players[i];
            proof {
                assert(pl@ == self@.players[i as int]);
            }
            if pl.get_id() == id {
                if dir == Vector2(0, 0) {
                    self.mark_player_dead(i);
                } else if !pl.is_dead() {
                    let ghost ps0 = self.players@;
                    let mut p = self.players.remove(i);
                    proof {
                        assert(p@ == old(self)@.players[i as int]);
                    }
                    p.set_dir(dir);
                    self.players.insert(i, p);
                    proof {
                        assert(self.players@ =~= ps0.update(
                            i as int,
                            self.players@[i as int],
                        ));
                        assert(self@.players =~= old(self)@.players.update(
                            i as int,
                            (PlayerView { dir, ..old(self)@.players[i as int] }),
                        ));
                        assert(self@ =~= (GameView {
                            players: old(self)@.players.update(
                                i as int,
                                (PlayerView { dir, ..old(self)@.players[i as int] }),
                            ),
                            ..old(self)@
                        }));
                    }
                } else {
                    proof {
                        assert(self@ =~= (GameView {
                            players: old(self)@.players.update(
                                i as int,
                                old(self)@.players[i as int],
                            ),
                            ..old(self)@
                        }));
                    }
                }
                proof {
                    assert forall|ii: int|
                        0 <= ii < self@.players.len() implies #[trigger] self@.wf_player(ii) by {
                        assert(old(self)@.wf_player(ii));
                    }
                    lemma_first_index_skip(old(self)@.players, id, i as int);
                    assert(Game::first_index_with(old(self)@.players, id, i as int) == i as int);
                    assert(self@ == Game::apply_input_spec(old(self)@, id, dir));
                }
                return ;
            }
            i += 1;
        }
        proof {
            lemma_first_index_skip(old(self)@.players, id, n as int);
            assert(Game::first_index_with(old(self)@.players, id, n as int) == -1);
            assert(self@ == Game::apply_input_spec(old(self)@, id, dir));
        }
    }

    /// A ranking snapshot of the whole roster, dead players included:
    /// sorted by effective score, highest first, and then partitioned so
    /// that every alive player precedes every dead one without otherwise
    /// reordering.
    pub fn get_rankings(&self) -> (r: Vec<Player>)
        requires
            self@.wf(),
        ensures
            r@.len() == self@.players.len(),
            views_of(r@).to_multiset() == self@.players.to_multiset(),
            forall|a: int, b: int|
                0 <= a < b < r@.len() && !(#[trigger] r@[b])@.dead ==> !(#[trigger] r@[a])@.dead,
            forall|a: int, b: int|
                0 <= a < b < r@.len() && (#[trigger] r@[a])@.dead == (#[trigger] r@[b])@.dead
                    ==> r@[a]@.reported_score() >= r@[b]@.reported_score(),
    {
        broadcast use vstd::seq_lib::group_to_multiset_ensures;

        let ghost roster = self@.players;
        let n = self.players.len();
        let mut work: Vec<Player> = Vec::new();
        let mut i: usize = 0;
        while i < n
            invariant
                i <= n,
                n == self@.players.len(),
                self@.wf(),
                views_of(work@) =~= self@.players.take(i as int),
            decreases n - i,
        {
            let pl = &self.players[i];
            proof {
                assert(pl@ == self@.players[i as int]);
            }
            let cl = pl.clone();
            proof {
                assert(cl@ == self@.players[i as int]);
            }
            proof {
                assert(views_of(work@).len() == work@.len());
                assert(work@.len() == i);
            }
            work.push(cl);
            proof {
                assert(work@[i as int] == cl);
                assert(work@[i as int]@ == self@.players[i as int]);
                assert(views_of(work@) =~= self@.players.take(i as int + 1));
            }
            i += 1;
        }
        proof {
            assert(views_of(work@) =~= roster);
            assert(views_of(work@).to_multiset() == roster.to_multiset());
        }
        let mut sorted: Vec<Player> = Vec::new();
        while work.len() > 0
            invariant
                views_of(sorted@).to_multiset().add(views_of(work@).to_multiset())
                    =~= roster.to_multiset(),
                forall|a: int, b: int|
                    0 <= a < b < sorted@.len() ==> (#[trigger] sorted@[a])@.reported_score() >= (
                    #[trigger] sorted@[b])@.reported_score(),
                forall|a: int, w: int|
                    0 <= a < sorted@.len() && 0 <= w < work@.len() ==> (
                    #[trigger] sorted@[a])@.reported_score() >= (
                    #[trigger] work@[w])@.reported_score(),
            decreases work@.len(),
        {
            let mut m: usize = 0;
            let mut q: usize = 1;
            while q < work.len()
                invariant
                    m < q <= work@.len(),
                    work@.len() > 0,
                    forall|t: int|
                        0 <= t < q ==> (#[trigger] work@[t])@.reported_score()
                            <= work@[m as int]@.reported_score(),
                decreases work@.len() - q,
            {
                let a = &work[q];
                let b = &work[m];
                if a.get_score() > b.get_score() {
                    m = q;
                }
                q += 1;
            }
            let ghost work_pre = work@;
            let ghost sorted_pre = sorted@;
            let p = work.remove(m);
            sorted.push(p);
            proof {
                broadcast use vstd::seq_lib::group_to_multiset_ensures;

                let x = work_pre[m as int]@;
                assert(views_of(work@) =~= views_of(work_pre).remove(m as int));
                assert(views_of(sorted@) =~= views_of(sorted_pre).push(x));
                assert(views_of(work_pre)[m as int] == x);
                assert(views_of(work_pre).contains(x));
                assert(views_of(work_pre).to_multiset().count(x) > 0);
                assert(views_of(work_pre).remove(m as int).to_multiset() =~= views_of(
                    work_pre,
                ).to_multiset().remove(x));
                assert(views_of(sorted_pre).push(x).to_multiset() =~= views_of(
                    sorted_pre,
                ).to_multiset().insert(x));
                assert(views_of(sorted@).to_multiset().add(views_of(work@).to_multiset())
                    =~= roster.to_multiset());
                assert forall|a: int, w: int|
                    0 <= a < sorted@.len() && 0 <= w < work@.len() implies (
                #[trigger] sorted@[a])@.reported_score() >= (
                #[trigger] work@[w])@.reported_score() by {
                    if w < m as int {
                        assert(work@[w] == work_pre[w]);
                    } else {
                        assert(work@[w] == work_pre[w + 1]);
                    }
                }
            }
        }
        let ghost sorted_all = sorted@;
        let mut alive: Vec<Player> = Vec::new();
        let mut dead: Vec<Player> = Vec::new();
        while sorted.len() > 0
            invariant
                views_of(alive@).to_multiset().add(
                    views_of(dead@).to_multiset().add(views_of(sorted@).to_multiset()),
                ) =~= roster.to_multiset(),
                forall|a: int| 0 <= a < alive@.len() ==> !(#[trigger] alive@[a])@.dead,
                forall|a: int| 0 <= a < dead@.len() ==> (#[trigger] dead@[a])@.dead,
                forall|a: int, b: int|
                    0 <= a < b < alive@.len() ==> (#[trigger] alive@[a])@.reported_score() >= (
                    #[trigger] alive@[b])@.reported_score(),
                forall|a: int, b: int|
                    0 <= a < b < dead@.len() ==> (#[trigger] dead@[a])@.reported_score() >= (
                    #[trigger] dead@[b])@.reported_score(),
                forall|a: int, w: int|
                    0 <= a < alive@.len() && 0 <= w < sorted@.len() ==> (
                    #[trigger] alive@[a])@.reported_score() >= (
                    #[trigger] sorted@[w])@.reported_score(),
                forall|a: int, w: int|
                    0 <= a < dead@.len() && 0 <= w < sorted@.len() ==> (
                    #[trigger] dead@[a])@.reported_score() >= (
                    #[trigger] sorted@[w])@.reported_score(),
                forall|a: int, b: int|
                    0 <= a < b < sorted@.len() ==> (#[trigger] sorted@[a])@.reported_score() >= (
                    #[trigger] sorted@[b])@.reported_score(),
            decreases sorted@.len(),
        {
            let ghost sorted_pre = sorted@;
            let ghost alive_pre = alive@;
            let ghost dead_pre = dead@;
            let p = sorted.remove(0);
            proof {
                assert(views_of(sorted@) =~= views_of(sorted_pre).remove(0));
            }
            proof {
                broadcast use vstd::seq_lib::group_to_multiset_ensures;

                let x = sorted_pre[0]@;
                assert(views_of(sorted_pre)[0] == x);
                assert(views_of(sorted_pre).contains(x));
                assert(views_of(sorted_pre).to_multiset().count(x) > 0);
                assert(views_of(sorted_pre).remove(0).to_multiset() =~= views_of(
                    sorted_pre,
                ).to_multiset().remove(x));
            }
            if p.is_dead() {
                dead.push(p);
                proof {
                    broadcast use vstd::seq_lib::group_to_multiset_ensures;

                    let x = sorted_pre[0]@;
                    assert(views_of(dead@) =~= views_of(dead_pre).push(x));
                    assert(views_of(dead_pre).push(x).to_multiset() =~= views_of(
                        dead_pre,
                    ).to_multiset().insert(x));
                    assert(views_of(alive@).to_multiset().add(
                        views_of(dead@).to_multiset().add(views_of(sorted@).to_multiset()),
                    ) =~= roster.to_multiset());
                }
            } else {
                alive.push(p);
                proof {
                    broadcast use vstd::seq_lib::group_to_multiset_ensures;

                    let x = sorted_pre[0]@;
                    assert(views_of(alive@) =~= views_of(alive_pre).push(x));
                    assert(views_of(alive_pre).push(x).to_multiset() =~= views_of(
                        alive_pre,
                    ).to_multiset().insert(x));
                    assert(views_of(alive@).to_multiset().add(
                        views_of(dead@).to_multiset().add(views_of(sorted@).to_multiset()),
                    ) =~= roster.to_multiset());
                }
            }
        }
        let ghost alive_fin = alive@;
        let ghost dead_fin = dead@;
        alive.append(&mut dead);
        proof {
            assert(alive@ == alive_fin + dead_fin);
            vstd::seq_lib::lemma_multiset_commutative(views_of(alive_fin), views_of(dead_fin));
            assert(views_of(alive@) =~= views_of(alive_fin) + views_of(dead_fin));
            assert(views_of(alive@).to_multiset() =~= roster.to_multiset());
            assert(views_of(alive@).to_multiset().len() == roster.to_multiset().len());
            assert(views_of(alive@).len() == alive@.len());
            assert(alive@.len() == roster.len());
        }
        alive
    }

    /// Whether any snake's head rests on the cell `(x, y)`.
    fn any_head_at(&self, x: usize, y: usize) -> (b: bool)
        requires
            self@.wf(),
        ensures
            b == is_head_cell(self@.players, x as int, y as int),
    {
        let n = self.players.len();
        let mut p: usize = 0;
        while p < n
            invariant
                p <= n,
                n == self@.players.len(),
                self@.wf(),
                forall|q: int|
                    0 <= q < p ==> !((#[trigger] self@.players[q]).coords.len() > 0
                        && self@.players[q].head() == Vector2(x as i64, y as i64)),
            decreases n - p,
        {
            let pl = &self.players[p];
            proof {
                assert(pl@ == self@.players[p as int]);
                assert(self@.wf_player(p as int));
            }
            let h = pl.head();
            if h.0 == x as i64 && h.1 == y as i64 {
                proof {
                    assert(h == Vector2(x as i64, y as i64));
                    assert(is_head_cell(self@.players, x as int, y as int));
                }
                return true;
            }
            p += 1;
        }
        false
    }

    /// The character drawn for the board cell `(x, y)`.
    fn cell_char(&self, x: usize, y: usize) -> (ch: char)
        requires
            self@.wf(),
            x < BOARD_W,
            y < BOARD_H,
        ensures
            ch == render_cell(self@, x as int, y as int),
    {
        let row = &self.board[y];
        let cell = row[x];
        proof {
            assert(row@ == self@.board[y as int]);
            assert(cell == self@.board[y as int][x as int]);
        }
        match cell {
            Actor::Empty => '-',
            Actor::Fruit => '*',
            Actor::Player(i) => {
                if self.any_head_at(x, y) {
                    'O'
                } else {
                    if i == 0 {
                        '#'
                    } else if i == 1 {
                        '@'
                    } else if i == 2 {
                        '%'
                    } else if i == 3 {
                        '$'
                    } else if i == 4 {
                        'z'
                    } else if i == 5 {
                        '*'
                    } else if i == 6 {
                        '+'
                    } else if i == 7 {
                        '='
                    } else if i == 8 {
                        '?'
                    } else {
                        'Q'
                    }
                }
            },
        }
    }

    /// The rendered board: one fixed-width line per row, rows separated by
    /// newlines, each snake drawn with its own symbol and every snake head
    /// drawn as `O`.
    pub fn as_str(&self) -> (r: String)
        requires
            self@.wf(),
        ensures
            r@ == render(self@),
    {
        let mut cs: Vec<char> = Vec::new();
        let mut y: usize = 0;
        while y < 24
            invariant
                y <= 24,
                self@.wf(),
                cs@ == render_upto(self@, y as int),
            decreases 24 - y,
        {
            let ghost pre_row = cs@;
            if y > 0 {
                cs.push('\n');
            }
            let ghost nl_part = if y > 0 {
                seq!['\n']
            } else {
                Seq::<char>::empty()
            };
            proof {
                assert(cs@ =~= pre_row + nl_part);
            }
            let mut x: usize = 0;
            while x < 64
                invariant
                    x <= 64,
                    y < 24,
                    self@.wf(),
                    pre_row == render_upto(self@, y as int),
                    nl_part == (if y > 0 {
                        seq!['\n']
                    } else {
                        Seq::<char>::empty()
                    }),
                    cs@ == pre_row + nl_part + render_row(self@, y as int, x as int),
                decreases 64 - x,
            {
                let ch = self.cell_char(x, y);
                cs.push(ch);
                proof {
                    assert(cs@ =~= pre_row + nl_part + render_row(
                        self@,
                        y as int,
                        x as int + 1,
                    ));
                }
                x += 1;
            }
            proof {
                assert(cs@ =~= render_upto(self@, y as int + 1));
            }
            y += 1;
        }
        chars_to_string(&cs)
    }

    /// Run the movement scan, apply the deferred kill credits, and decide
    /// whether the round ended: with nobody alive the outcome lists this
    /// tick's casualties, with one snake left outside solo mode it names
    /// the survivor, and otherwise the round goes on.
    fn settle(&mut self) -> (outcome: Option<Vec<u64>>)
        requires
            old(self)@.wf(),
        ensures
            tick_players_post(old(self)@, final(self)@),
            tick_outcome_post(old(self)@, final(self)@, outcome_view(outcome)),
    {
        let ghost g0 = self@;
        let n = self.players.len();
        let mut was_alive: Vec<bool> = Vec::new();
        let mut j: usize = 0;
        while j < n
            invariant
                j <= n,
                self@ == g0,
                n == g0.players.len(),
                was_alive@.len() == j,
                forall|k: int| 0 <= k < j ==> was_alive@[k] == !g0.players[k].dead,
            decreases n - j,
        {
            let pl = &self.players[j];
            proof {
                assert(pl@ == self@.players[j as int]);
            }
            was_alive.push(!pl.is_dead());
            j += 1;
        }
        let credits = self.run_moves();
        let ghost g1 = self@;
        let mut k: usize = 0;
        while k < credits.len()
            invariant
                k <= credits@.len(),
                self@.wf(),
                self@.players.len() == g1.players.len(),
                self@.game_mode == g1.game_mode,
                self@.stage == g1.stage,
                self@.board_size == g1.board_size,
                self@.board == g1.board,
                g1.players.len() == n,
                forall|e: int| 0 <= e < credits@.len() ==> (#[trigger] credits@[e]) < n,
                forall|jj: int|
                    0 <= jj < n ==> (#[trigger] self@.players[jj]) == (PlayerView {
                        kills: self@.players[jj].kills,
                        ..g1.players[jj]
                    }) && self@.players[jj].kills >= g1.players[jj].kills,
            decreases credits@.len() - k,
        {
            let ki = credits[k];
            let ghost sk = self@;
            self.bump_kills(ki);
            proof {
                assert forall|ii: int|
                    0 <= ii < self@.players.len() implies #[trigger] self@.wf_player(ii) by {
                    assert(sk.wf_player(ii));
                }
            }
            k += 1;
        }
        let ghost g2 = self@;
        proof {
            assert forall|jj: int|
                0 <= jj < n && g0.players[jj].dead implies (#[trigger] g2.players[jj]) == (
            PlayerView { kills: g2.players[jj].kills, ..g0.players[jj] }) && g2.players[jj].kills
                >= g0.players[jj].kills by {
                assert(g1.players[jj] == g0.players[jj]);
            }
            assert forall|jj: int|
                0 <= jj < n && !g0.players[jj].dead implies moved_body(
                g0.players[jj],
                #[trigger] g2.players[jj],
                g0.board_size,
            ) && g2.players[jj].kills >= g0.players[jj].kills by {
                assert(moved_body(g0.players[jj], g1.players[jj], g0.board_size));
            }
        }
        let mut alive_cnt: usize = 0;
        let mut caslist: Vec<u64> = Vec::new();
        let mut first_alive: usize = 0;
        let mut saw_alive = false;
        j = 0;
        while j < n
            invariant
                j <= n,
                self@ == g2,
                n == g2.players.len(),
                n == g0.players.len(),
                was_alive@.len() == n,
                forall|kk: int| 0 <= kk < n ==> was_alive@[kk] == !g0.players[kk].dead,
                forall|jj: int|
                    0 <= jj < n && !g0.players[jj].dead ==> moved_body(
                        g0.players[jj],
                        #[trigger] g2.players[jj],
                        g0.board_size,
                    ),
                forall|jj: int|
                    0 <= jj < n && g0.players[jj].dead ==> (#[trigger] g2.players[jj]) == (
                    PlayerView { kills: g2.players[jj].kills, ..g0.players[jj] }),
                alive_cnt == alive_in(g2.players.take(j as int)),
                alive_cnt <= j,
                caslist@ + casualties_from(g0.players, g2.players, j as int) == casualties_from(
                    g0.players,
                    g2.players,
                    0,
                ),
                saw_alive ==> first_alive < j && !g2.players[first_alive as int].dead,
                saw_alive == (alive_cnt > 0),
                !saw_alive ==> forall|kk: int| 0 <= kk < j ==> (#[trigger] g2.players[kk]).dead,
            decreases n - j,
        {
            let pl = &self.players[j];
            proof {
                assert(pl@ == g2.players[j as int]);
                assert(g2.players.take(j as int + 1).drop_last() =~= g2.players.take(j as int));
                assert(g2.players.take(j as int + 1).last() == g2.players[j as int]);
            }
            let ghost cas_pre = caslist@;
            if !pl.is_dead() {
                alive_cnt += 1;
                if !saw_alive {
                    saw_alive = true;
                    first_alive = j;
                }
            }
            if was_alive[j] && pl.is_dead() {
                caslist.push(pl.get_id());
                proof {
                    assert(moved_body(g0.players[j as int], g2.players[j as int], g0.board_size));
                    assert(g0.players[j as int].id == g2.players[j as int].id);
                    assert(caslist@ =~= cas_pre + seq![g0.players[j as int].id]);
                    assert((cas_pre + seq![g0.players[j as int].id]) + casualties_from(
                        g0.players,
                        g2.players,
                        j as int + 1,
                    ) =~= cas_pre + (seq![g0.players[j as int].id] + casualties_from(
                        g0.players,
                        g2.players,
                        j as int + 1,
                    )));
                }
            }
            j += 1;
        }
        proof {
            assert(g2.players.take(n as int) =~= g2.players);
            assert(caslist@ =~= caslist@ + casualties_from(g0.players, g2.players, n as int));
        }
        if alive_cnt == 0 {
            Some(caslist)
        } else if alive_cnt == 1 {
            match self.game_mode {
                GameMode::Solo => None,
                GameMode::Snake => {
                    let pl = &self.players[first_alive];
                    proof {
                        assert(pl@ == g2.players[first_alive as int]);
                        assert forall|jj: int|
                            0 <= jj < n && !(#[trigger] g2.players[jj]).dead implies jj
                            == first_alive as int by {
                            if jj != first_alive as int {
                                if jj < first_alive as int {
                                    lemma_alive_two(g2.players, jj, first_alive as int);
                                } else {
                                    lemma_alive_two(g2.players, first_alive as int, jj);
                                }
                            }
                        }
                    }
                    let mut w: Vec<u64> = Vec::new();
                    w.push(pl.get_id());
                    proof {
                        assert(w@ =~= seq![g2.players[first_alive as int].id]);
                    }
                    Some(w)
                },
            }
        } else {
            None
        }
    }

    /// Advance the simulation by one step: maybe spawn a fruit on the cell
    /// that `slot` selects when `roll % 10` falls below 3, then move every
    /// snake. Fully deterministic in its arguments; `tick` is the drawing
    /// variant.
    pub fn tick_with(&mut self, roll: u64, slot: u64) -> (r: (String, Option<Vec<u64>>))
        requires
            old(self)@.wf(),
        ensures
            tick_players_post(old(self)@, final(self)@),
            tick_outcome_post(old(self)@, final(self)@, outcome_view(r.1)),
            tick_players_post(
                (if roll % 10 < 3 {
                    spec_spawn(old(self)@, slot)
                } else {
                    old(self)@
                }),
                final(self)@,
            ),
            tick_outcome_post(
                (if roll % 10 < 3 {
                    spec_spawn(old(self)@, slot)
                } else {
                    old(self)@
                }),
                final(self)@,
                outcome_view(r.1),
            ),
            r.0@ == render(final(self)@),
    {
        if roll % 10 < 3 {
            self.spawn_fruit_at(slot);
        }
        let ghost gs = self@;
        let outcome = self.settle();
        proof {
            assert(gs.players == old(self)@.players);
            assert(casualties_from(gs.players, self@.players, 0) == casualties_from(
                old(self)@.players,
                self@.players,
                0,
            ));
        }
        let s = self.as_str();
        (s, outcome)
    }

    /// Advance the simulation by one step, drawing from the thread-local
    /// random source: with probability 3 in 10 a fruit appears first on a
    /// uniformly chosen empty cell.
    pub fn tick(&mut self) -> (r: (String, Option<Vec<u64>>))
        requires
            old(self)@.wf(),
        ensures
            tick_players_post(old(self)@, final(self)@),
            tick_outcome_post(old(self)@, final(self)@, outcome_view(r.1)),
            r.0@ == render(final(self)@),
    {
        let roll = crate::rng::random_below(10);
        if roll < 3 {
            self.place_fruit();
        }
        let ghost gs = self@;
        let outcome = self.settle();
        proof {
            assert(gs.players == old(self)@.players);
            assert(casualties_from(gs.players, self@.players, 0) == casualties_from(
                old(self)@.players,
                self@.players,
                0,
            ));
        }
        let s = self.as_str();
        (s, outcome)
    }

    /// Place one fruit on the empty cell that `slot` selects in row-major
    /// scan order; a board without empty cells stays unchanged.
    pub(crate) fn spawn_fruit_at(&mut self, slot: u64)
        requires
            old(self)@.wf(),
        ensures
            final(self)@.wf(),
            final(self)@ == spec_spawn(old(self)@, slot),
    {
        let cands = self.fruit_candidates();
        if cands.len() > 0 {
            let idx = (slot % (cands.len() as u64)) as usize;
            let c = cands[idx];
            proof {
                lemma_empty_cells_upto(self@.board, BOARD_H as int);
                assert(c == empty_cells(old(self)@.board)[(slot as int) % (empty_cells(
                    old(self)@.board,
                ).len() as int)]);
            }
            self.set_cell(c, Actor::Fruit);
            proof {
                lemma_wf_after_cell_update(old(self)@, self@, c, Actor::Fruit);
            }
        }
    }

    /// Place one fruit on a uniformly chosen empty cell, if any cell is
    /// empty; a full board stays unchanged rather than failing.
    pub fn place_fruit(&mut self)
        requires
            old(self)@.wf(),
        ensures
            final(self)@.wf(),
            final(self)@.players == old(self)@.players,
            final(self)@.game_mode == old(self)@.game_mode,
            final(self)@.stage == old(self)@.stage,
            final(self)@.board_size == old(self)@.board_size,
            empty_cells(old(self)@.board).len() == 0 ==> final(self)@ == old(self)@,
            empty_cells(old(self)@.board).len() > 0 ==> exists|k: int|
                0 <= k < empty_cells(old(self)@.board).len() && {
                    let c = #[trigger] empty_cells(old(self)@.board)[k];
                    final(self)@ == (GameView {
                        board: old(self)@.board.update(
                            c.1 as int,
                            old(self)@.board[c.1 as int].update(c.0 as int, Actor::Fruit),
                        ),
                        ..old(self)@
                    })
                },
    {
        let cands = self.fruit_candidates();
        if cands.len() > 0 {
            let idx = crate::rng::random_below(cands.len() as u64) as usize;
            let c = cands[idx];
            proof {
                lemma_empty_cells_upto(self@.board, BOARD_H as int);
            }
            self.set_cell(c, Actor::Fruit);
            proof {
                lemma_wf_after_cell_update(old(self)@, self@, c, Actor::Fruit);
                assert((idx as int) < empty_cells(old(self)@.board).len());
            }
        }
    }

    /// A board of the given dimensions with every cell empty.
    pub fn empty_board(board_size: &Vector2) -> (b: Vec<Vec<Actor>>)
        requires
            0 <= board_size.0 <= usize::MAX,
            0 <= board_size.1 <= usize::MAX,
        ensures
            b@.len() == board_size.1,
            forall|y: int|
                0 <= y < board_size.1 ==> (#[trigger] b@[y])@.len() == board_size.0,
            forall|y: int, x: int|
                0 <= y < board_size.1 && 0 <= x < board_size.0 ==> b@[y]@[x] == Actor::Empty,
    {
        let h = board_size.1 as usize;
        let w = board_size.0 as usize;
        let mut board: Vec<Vec<Actor>> = Vec::new();
        let mut y: usize = 0;
        while y < h
            invariant
                y <= h,
                board@.len() == y,
                forall|yy: int| 0 <= yy < y ==> (#[trigger] board@[yy])@.len() == w,
                forall|yy: int, x: int|
                    0 <= yy < y && 0 <= x < w ==> board@[yy]@[x] == Actor::Empty,
            decreases h - y,
        {
            let mut row: Vec<Actor> = Vec::new();
            let mut x: usize = 0;
            while x < w
                invariant
                    x <= w,
                    row@.len() == x,
                    forall|xx: int| 0 <= xx < x ==> row@[xx] == Actor::Empty,
                decreases w - x,
            {
                row.push(Actor::Empty);
                x += 1;
            }
            board.push(row);
            y += 1;
        }
        board
    }
}

} // verus!
