use vstd::prelude::*;

use crate::geom::Vector2;

verus! {

/// Points a player earns for each opposing snake that dies on its body.
pub const POINTS_PER_KILL: u64 = 3;

/// One snake: its identity, its body (tail first, head last), its pending
/// heading, its two score counters and its alive flag.
pub struct Player {
    pub(crate) id: u64,
    pub(crate) coords: Vec<Vector2>,
    pub(crate) dir: Vector2,
    pub(crate) score: u64,
    pub(crate) kills: u64,
    pub(crate) dead: bool,
}

/// The mathematical value of a `Player`.
pub ghost struct PlayerView {
    pub id: u64,
    pub coords: Seq<Vector2>,
    pub dir: Vector2,
    pub score: u64,
    pub kills: u64,
    pub dead: bool,
}

impl View for Player {
    type V = PlayerView;

    closed spec fn view(&self) -> PlayerView {
        PlayerView {
            id: self.id,
            coords: self.coords@,
            dir: self.dir,
            score: self.score,
            kills: self.kills,
            dead: self.dead,
        }
    }
}

impl PlayerView {
    /// Fruit score plus the kill bonus, as an unbounded integer.
    pub open spec fn effective_score(self) -> int {
        self.score + self.kills * POINTS_PER_KILL
    }

    /// The effective score as reported by `get_score`, which caps it at
    /// `u64::MAX` instead of overflowing.
    pub open spec fn reported_score(self) -> int {
        if self.effective_score() <= u64::MAX as int {
            self.effective_score()
        } else {
            u64::MAX as int
        }
    }

    /// The most recently added body coordinate.
    pub open spec fn head(self) -> Vector2 {
        self.coords.last()
    }

    /// The cell this player's head would move to on the next tick, on a
    /// toroidal board of the given bounds.
    pub open spec fn candidate(self, bounds: Vector2) -> Vector2 {
        self.head().spec_translate(self.dir, bounds)
    }
}

impl Player {
    /// A freshly spawned snake: no points, no kills, alive.
    pub fn new(id: u64, coords: Vec<Vector2>, initial_dir: Vector2) -> (p: Player)
        ensures
            p@ == (PlayerView {
                id,
                coords: coords@,
                dir: initial_dir,
                score: 0,
                kills: 0,
                dead: false,
            }),
    {
        Player { id, coords, dir: initial_dir, score: 0, kills: 0, dead: false }
    }

    /// Mark the snake dead. Idempotent; nothing else changes.
    pub fn set_as_dead(&mut self)
        ensures
            final(self)@ == (PlayerView { dead: true, ..old(self)@ }),
    {
        self.dead = true;
    }

    pub fn is_dead(&self) -> (r: bool)
        ensures
            r == self@.dead,
    {
        self.dead
    }

    /// Overwrite the pending heading; the last caller before a tick wins.
    /// Reversing into the snake's own neck is legal here and resolved as a
    /// self-collision by the game.
    pub fn set_dir(&mut self, dir: Vector2)
        requires
            dir.is_unit_step(),
        ensures
            final(self)@ == (PlayerView { dir, ..old(self)@ }),
    {
        self.dir = dir;
    }

    pub fn get_id(&self) -> (r: u64)
        ensures
            r == self@.id,
    {
        self.id
    }

    /// The effective score: fruit eaten plus three points per kill, capped
    /// at `u64::MAX` rather than overflowing.
    pub fn get_score(&self) -> (r: u64)
        ensures
            r == self@.reported_score(),
    {
        let bonus = if self.kills <= u64::MAX / POINTS_PER_KILL {
            self.kills * POINTS_PER_KILL
        } else {
            u64::MAX
        };
        if self.score <= u64::MAX - bonus {
            self.score + bonus
        } else {
            u64::MAX
        }
    }

    pub fn get_kills(&self) -> (r: u64)
        ensures
            r == self@.kills,
    {
        self.kills
    }

    /// The current head coordinate: the most recently added body cell.
    pub fn head(&self) -> (c: Vector2)
        requires
            self@.coords.len() >= 1,
        ensures
            c == self@.head(),
    {
        self.coords[self.coords.len() - 1]
    }

    /// The current body length.
    pub fn body_len(&self) -> (l: usize)
        ensures
            l == self@.coords.len(),
    {
        self.coords.len()
    }

    /// The pending heading.
    pub fn heading(&self) -> (d: Vector2)
        ensures
            d == self@.dir,
    {
        self.dir
    }

    /// Credit one eaten fruit.
    pub(crate) fn add_fruit_score(&mut self)
        requires
            old(self)@.score < u64::MAX,
        ensures
            final(self)@ == (PlayerView { score: (old(self)@.score + 1) as u64, ..old(self)@ }),
    {
        self.score = self.score + 1;
    }

    /// Credit one kill, saturating instead of overflowing.
    pub(crate) fn add_kill_saturating(&mut self)
        ensures
            final(self)@ == (PlayerView {
                kills: (if old(self)@.kills < u64::MAX {
                    (old(self)@.kills + 1) as u64
                } else {
                    u64::MAX
                }),
                ..old(self)@
            }),
    {
        if self.kills < u64::MAX {
            self.kills = self.kills + 1;
        }
    }

    /// Remove and return the oldest body coordinate.
    pub(crate) fn remove_tail(&mut self) -> (t: Vector2)
        requires
            old(self)@.coords.len() >= 1,
        ensures
            t == old(self)@.coords[0],
            final(self)@ == (PlayerView {
                coords: old(self)@.coords.subrange(1, old(self)@.coords.len() as int),
                ..old(self)@
            }),
    {
        let t = self.coords.remove(0);
        proof {
            assert(self.coords@ =~= old(self)@.coords.subrange(
                1,
                old(self)@.coords.len() as int,
            ));
        }
        t
    }

    /// Append a new head coordinate.
    pub(crate) fn push_coord(&mut self, c: Vector2)
        ensures
            final(self)@ == (PlayerView { coords: old(self)@.coords.push(c), ..old(self)@ }),
    {
        self.coords.push(c);
    }
}

impl Clone for Player {
    /// A deep copy with the same mathematical value.
    fn clone(&self) -> (p: Self)
        ensures
            p@ == self@,
    {
        let mut coords: Vec<Vector2> = Vec::new();
        let mut i: usize = 0;
        while i < self.coords.len()
            invariant
                i <= self.coords.len(),
                coords@ == self.coords@.subrange(0, i as int),
            decreases self.coords.len() - i,
        {
            coords.push(self.coords[i]);
            i += 1;
        }
        proof {
            assert(coords@ =~= self.coords@);
        }
        Player {
            id: self.id,
            coords,
            dir: self.dir,
            score: self.score,
            kills: self.kills,
            dead: self.dead,
        }
    }
}

} // verus!
