use vstd::prelude::*;

use crate::game::{alive_in, Game, GameMode};
use crate::geom::Vector2;

verus! {

/// One requested participant: a resolved user id, or a group mention that
/// cannot play.
pub struct Mention {
    pub id: u64,
    pub is_role: bool,
}

/// Why a start request is rejected; the requester is told and nothing
/// changes.
#[derive(Clone, Copy, PartialEq, Eq, Structural, Debug)]
pub enum StartError {
    RoleMention,
    RepeatedUser,
    TooFewPlayers,
    TooManyPlayers,
}

/// Some requested participant is a group rather than a user.
pub open spec fn has_role(ms: Seq<Mention>) -> bool {
    exists|i: int| 0 <= i < ms.len() && (#[trigger] ms[i]).is_role
}

/// Some user id is requested twice.
pub open spec fn has_repeat(ms: Seq<Mention>) -> bool {
    exists|i: int, j: int| 0 <= i < j < ms.len() && (#[trigger] ms[i]).id == (#[trigger] ms[j]).id
}

/// The requested ids in order.
pub open spec fn mention_ids(ms: Seq<Mention>) -> Seq<u64> {
    ms.map_values(|m: Mention| m.id)
}

/// Check a start request: no group mentions, no repeated user, and a
/// player count that fits the mode. Solo mode plays exactly the requester,
/// whatever was mentioned; multiplayer needs two to five users.
pub fn validate_start(solo: bool, requester: u64, mentions: &Vec<Mention>) -> (r: Result<
    Vec<u64>,
    StartError,
>)
    ensures
        has_role(mentions@) ==> r == Result::<Vec<u64>, StartError>::Err(StartError::RoleMention),
        !has_role(mentions@) && has_repeat(mentions@) ==> r == Result::<
            Vec<u64>,
            StartError,
        >::Err(StartError::RepeatedUser),
        !has_role(mentions@) && !has_repeat(mentions@) && solo ==> (r matches Ok(ids)
            && ids@ == seq![requester]),
        !has_role(mentions@) && !has_repeat(mentions@) && !solo && mentions@.len() < 2 ==> r
            == Result::<Vec<u64>, StartError>::Err(StartError::TooFewPlayers),
        !has_role(mentions@) && !has_repeat(mentions@) && !solo && mentions@.len() > 5 ==> r
            == Result::<Vec<u64>, StartError>::Err(StartError::TooManyPlayers),
        !has_role(mentions@) && !has_repeat(mentions@) && !solo && 2 <= mentions@.len() <= 5 ==> (r
            matches Ok(ids) && ids@ == mention_ids(mentions@)),
{
    let n = mentions.len();
    let mut i: usize = 0;
    while i < n
        invariant
            i <= n,
            n == mentions@.len(),
            forall|k: int| 0 <= k < i ==> !(#[trigger] mentions@[k]).is_role,
        decreases n - i,
    {
        if mentions[i].is_role {
            proof {
                assert(has_role(mentions@));
            }
            return Err(StartError::RoleMention);
        }
        i += 1;
    }
    i = 0;
    while i < n
        invariant
            i <= n,
            n == mentions@.len(),
            forall|k: int| 0 <= k < n ==> !(#[trigger] mentions@[k]).is_role,
            forall|a: int, b: int| 0 <= a < b < mentions@.len() && b < i ==> (
            #[trigger] mentions@[a]).id != (#[trigger] mentions@[b]).id,
        decreases n - i,
    {
        let mut j: usize = 0;
        while j < i
            invariant
                j <= i < n,
                n == mentions@.len(),
                forall|k: int| 0 <= k < n ==> !(#[trigger] mentions@[k]).is_role,
                forall|a: int| 0 <= a < j ==> (#[trigger] mentions@[a]).id != mentions@[i as int].id,
            decreases i - j,
        {
            if mentions[j].id == mentions[i].id {
                proof {
                    assert(has_repeat(mentions@));
                }
                return Err(StartError::RepeatedUser);
            }
            j += 1;
        }
        i += 1;
    }
    if solo {
        let mut ids: Vec<u64> = Vec::new();
        ids.push(requester);
        proof {
            assert(ids@ =~= seq![requester]);
        }
        return Ok(ids);
    }
    if n < 2 {
        return Err(StartError::TooFewPlayers);
    }
    if n > 5 {
        return Err(StartError::TooManyPlayers);
    }
    let mut ids: Vec<u64> = Vec::new();
    i = 0;
    while i < n
        invariant
            i <= n,
            n == mentions@.len(),
            ids@ =~= mention_ids(mentions@).take(i as int),
        decreases n - i,
    {
        ids.push(mentions[i].id);
        proof {
            assert(ids@ =~= mention_ids(mentions@).take(i as int + 1));
        }
        i += 1;
    }
    proof {
        assert(ids@ =~= mention_ids(mentions@));
    }
    Ok(ids)
}

/// The runtime binding of one running game to one input stream. The
/// surrounding program owns the clock and the channels; this state machine
/// owns every decision: which inputs count, when the game ticks, and when
/// the session ends.
pub struct Session {
    pub game: Game,
    pub ended: bool,
}

impl Session {
    /// Start a session for a validated request, or say why the request is
    /// rejected. No state exists on rejection.
    pub fn start(solo: bool, requester: u64, mentions: &Vec<Mention>) -> (r: Result<
        Session,
        StartError,
    >)
        ensures
            r matches Ok(s) ==> s.game@.wf() && !s.ended && s.game@.game_mode == (if solo {
                GameMode::Solo
            } else {
                GameMode::Snake
            }),
            !has_role(mentions@) && !has_repeat(mentions@) && (solo || 2 <= mentions@.len() <= 5)
                ==> (r matches Ok(s) && {
                let ids = if solo {
                    seq![requester]
                } else {
                    mention_ids(mentions@)
                };
                s.game@.players.len() == ids.len() && (forall|p: int|
                    0 <= p < ids.len() ==> (#[trigger] s.game@.players[p]).id == ids[p]
                        && !s.game@.players[p].dead && s.game@.players[p].score == 0
                        && s.game@.players[p].kills == 0)
            }),
            has_role(mentions@) ==> (r matches Err(e) && e == StartError::RoleMention),
            !has_role(mentions@) && has_repeat(mentions@) ==> (r matches Err(e) && e
                == StartError::RepeatedUser),
            !has_role(mentions@) && !has_repeat(mentions@) && !solo && mentions@.len() < 2 ==> (r
                matches Err(e) && e == StartError::TooFewPlayers),
            !has_role(mentions@) && !has_repeat(mentions@) && !solo && mentions@.len() > 5 ==> (r
                matches Err(e) && e == StartError::TooManyPlayers),
    {
        let ids = match validate_start(solo, requester, mentions) {
            Ok(ids) => ids,
            Err(e) => {
                return Err(e);
            },
        };
        let mode = if solo {
            GameMode::Solo
        } else {
            GameMode::Snake
        };
        let game = Game::new(mode, ids.as_slice());
        Ok(Session { game, ended: false })
    }

    /// One cycle of a running session: apply every buffered input event in
    /// arrival order — the last heading per player wins — then advance the
    /// game one tick. The session ends exactly when the tick reports an
    /// outcome.
    pub fn cycle(&mut self, events: &Vec<(u64, Vector2)>) -> (r: (String, Option<Vec<u64>>))
        requires
            old(self).game@.wf(),
            !old(self).ended,
            forall|e: int| 0 <= e < events@.len() ==> (#[trigger] events@[e]).1.is_unit_step(),
        ensures
            final(self).game@.wf(),
            final(self).ended == (r.1 is Some),
            ({
                let gmid = Game::apply_events_spec(old(self).game@, events@);
                crate::game::tick_players_post(gmid, final(self).game@)
                    && crate::game::tick_outcome_post(
                    gmid,
                    final(self).game@,
                    crate::game::outcome_view(r.1),
                )
            }),
            r.0@ == crate::game::render(final(self).game@),
            (r.1 is Some) <==> (alive_in(final(self).game@.players) == 0 || (alive_in(
                final(self).game@.players,
            ) == 1 && final(self).game@.game_mode != GameMode::Solo)),
            final(self).game@.game_mode == old(self).game@.game_mode,
    {
        let n = events.len();
        let mut i: usize = 0;
        while i < n
            invariant
                i <= n,
                n == events@.len(),
                self.game@.wf(),
                self.game@ == Game::apply_events_spec(old(self).game@, events@.take(i as int)),
                self.game@.game_mode == old(self).game@.game_mode,
                self.ended == old(self).ended,
                forall|e: int| 0 <= e < events@.len() ==> (#[trigger] events@[e]).1.is_unit_step(),
            decreases n - i,
        {
            let ev = events[i];
            let ghost gpre = self.game@;
            self.game.apply_input(ev.0, ev.1);
            proof {
                assert(events@.take(i as int + 1) =~= events@.take(i as int).push(ev));
                crate::game::lemma_apply_events_push(
                    old(self).game@,
                    events@.take(i as int),
                    ev,
                );
                assert(self.game@ == Game::apply_events_spec(
                    old(self).game@,
                    events@.take(i as int + 1),
                ));
            }
            i += 1;
        }
        proof {
            assert(events@.take(n as int) =~= events@);
        }
        let (board, outcome) = self.game.tick();
        if outcome.is_some() {
            self.ended = true;
        }
        (board, outcome)
    }
}

} // verus!
