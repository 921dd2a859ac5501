//! Session orchestration decisions: one simulation per connection, the
//! per-tick snapshot for the transport, and the one-time best-score commit
//! toward the persistence collaborator.
//!
//! The clock keeps running after the game ends, so the transport can keep
//! rendering the end screen; the `committed` latch makes the commit request
//! come out of exactly one tick.

use vstd::prelude::*;

use crate::dragonballgame::{
    clamp_y, seed_opt_wf, spec_tick, Fireball, GameState, GameView, SpawnSeed,
    CANVAS_HEIGHT,
};

verus! {

/// The wire-facing snapshot a tick emits: the simulation state without the
/// internal id counter.
pub struct Snapshot {
    pub score: u64,
    pub game_over: bool,
    pub player_y: i64,
    pub fireballs: Vec<Fireball>,
}

/// One live connection's session.
pub struct Session {
    pub game: GameState,
    /// Whether the best-score commit has already been requested.
    pub committed: bool,
}

fn copy_fireballs(v: &Vec<Fireball>) -> (r: Vec<Fireball>)
    ensures
        r@ == v@,
{
    let mut r: Vec<Fireball> = Vec::new();
    let mut i: usize = 0;
    while i < v.len()
        invariant
            0 <= i <= v@.len(),
            r@ == v@.take(i as int),
        decreases v@.len() - i,
    {
        r.push(v[i]);
        proof {
            assert(r@ =~= v@.take(i as int + 1));
        }
        i += 1;
    }
    proof {
        assert(v@.take(v@.len() as int) =~= v@);
    }
    r
}

impl Session {
    pub open spec fn wf(self) -> bool {
        self.game.wf()
    }

    pub fn new() -> (s: Session)
        ensures
            s.wf(),
            !s.committed,
            s.game.score == 0,
            !s.game.game_over,
            s.game.fireballs@.len() == 0,
            s.game.player.y == CANVAS_HEIGHT / 2,
            s.game.fireball_id_counter == 0,
    {
        Session { game: GameState::new(), committed: false }
    }

    /// Apply an inbound set-position message; the commit latch is untouched.
    pub fn handle_position(&mut self, y: i64)
        requires
            old(self).wf(),
        ensures
            final(self).wf(),
            final(self).committed == old(self).committed,
            old(self).game.game_over ==> final(self).game@ == old(self).game@,
            !old(self).game.game_over ==> final(self).game@ == (GameView {
                player_y: clamp_y(y as int) as i64,
                ..old(self).game@
            }),
    {
        self.game.update_player_pos(y);
    }

    /// One clock interval: advance the simulation by a tick, snapshot the new
    /// state for the transport, and say whether the best-score commit must
    /// happen now. The commit is requested exactly on the first interval that
    /// observes the game over, with the session's final score.
    pub fn clock_tick(&mut self) -> (r: (Snapshot, Option<u64>))
        requires
            old(self).wf(),
        ensures
            final(self).wf(),
            exists|seed: Option<SpawnSeed>|
                #![auto]
                seed_opt_wf(seed) && final(self).game@ == spec_tick(old(self).game@, seed),
            r.0.score == final(self).game.score,
            r.0.game_over == final(self).game.game_over,
            r.0.player_y == final(self).game.player.y,
            r.0.fireballs@ == final(self).game.fireballs@,
            r.1 == (if final(self).game.game_over && !old(self).committed {
                Option::Some(final(self).game.score)
            } else {
                Option::<u64>::None
            }),
            final(self).committed == (old(self).committed || final(self).game.game_over),
            old(self).committed ==> r.1 is None,
    {
        self.game.tick();
        let snap = Snapshot {
            score: self.game.score,
            game_over: self.game.game_over,
            player_y: self.game.player.y,
            fireballs: copy_fireballs(&self.game.fireballs),
        };
        let commit: Option<u64> = if snap.game_over && !self.committed {
            Option::Some(snap.score)
        } else {
            Option::None
        };
        if snap.game_over {
            self.committed = true;
        }
        (snap, commit)
    }
}

/// The value the commit sequence writes back: the stored best (0 when none is
/// stored) and the session's final score merged, so a session that ends below
/// an earlier best never regresses the stored value.
pub fn merged_best(stored: Option<u64>, session_score: u64) -> (r: u64)
    ensures
        r == (if stored is Some && stored.unwrap() >= session_score {
            stored.unwrap()
        } else {
            session_score
        }),
        r >= session_score,
        stored is Some ==> r >= stored.unwrap(),
{
    match stored {
        Option::Some(best) => if best >= session_score {
            best
        } else {
            session_score
        },
        Option::None => session_score,
    }
}

} // verus!
