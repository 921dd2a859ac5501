//! Verified core of a small arcade game server: the per-session simulation
//! (fireball spawn, motion, collision, scoring, termination), the session
//! clock/commit orchestration, and the pure request logic behind the
//! leaderboard, joke, and tic-tac-toe endpoints.

pub mod auth;
pub mod dragonballgame;
pub mod leaderboard;
pub mod numeric;
mod rng;
pub mod session;
pub mod text;
pub mod xandzero;

pub use auth::{display_name, find_jwk, Jwk};
pub use dragonballgame::{
    Fireball, FireballState, GameState, GameView, Player, SpawnSeed,
};
pub use leaderboard::{assign_ranks, my_rank_entry, LeaderboardEntry, ScoreRequest};
pub use numeric::isqrt;
pub use session::{merged_best, Session, Snapshot};
pub use text::{greeting, joke_cache_key, pick_joke_id, u64_to_dec};
pub use xandzero::{
    check_winner, get_computer_move, play_turn, score_for_winner, sudden_death_trim,
    take_turn, without_value, PlayOutcome, XandZeroRequest, XandZeroResponse,
};
