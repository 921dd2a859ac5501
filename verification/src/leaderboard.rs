//! Pure logic behind the leaderboard endpoints: rank assignment for the
//! top-ten page and the authenticated player's own entry.

use vstd::prelude::*;

verus! {

/// Request payload for submitting a new score.
pub struct ScoreRequest {
    pub score: i32,
}

/// A single leaderboard row; the rank is 1-based and computed from the
/// real-time ranking structure.
pub struct LeaderboardEntry {
    pub username: String,
    pub score: i32,
    pub rank: Option<i64>,
}

/// Turn the ranking structure's ordered page into entries with 1-based ranks,
/// best first.
pub fn assign_ranks(results: &Vec<(String, i32)>) -> (r: Vec<LeaderboardEntry>)
    requires
        results@.len() < 0x7fffffffffffffff,
    ensures
        r@.len() == results@.len(),
        forall|i: int|
            0 <= i < r@.len() ==> {
                &&& (#[trigger] r@[i]).username == results@[i].0
                &&& r@[i].score == results@[i].1
                &&& r@[i].rank == Option::Some((i + 1) as i64)
            },
{
    let mut r: Vec<LeaderboardEntry> = Vec::new();
    let mut i: usize = 0;
    while i < results.len()
        invariant
            results@.len() < 0x7fffffffffffffff,
            0 <= i <= results@.len(),
            r@.len() == i,
            forall|k: int|
                0 <= k < i ==> {
                    &&& (#[trigger] r@[k]).username == results@[k].0
                    &&& r@[k].score == results@[k].1
                    &&& r@[k].rank == Option::Some((k + 1) as i64)
                },
        decreases results@.len() - i,
    {
        let entry = LeaderboardEntry {
            username: results[i].0.clone(),
            score: results[i].1,
            rank: Option::Some((i as i64) + 1),
        };
        r.push(entry);
        i += 1;
    }
    r
}

/// The authenticated player's own row: present only when both the stored
/// score and the 0-based rank exist, shown with a 1-based rank.
pub fn my_rank_entry(username: String, score: Option<i32>, rank: Option<i64>) -> (r: Option<
    LeaderboardEntry,
>)
    requires
        rank matches Option::Some(rk) ==> rk < i64::MAX,
    ensures
        (r is Some) <==> (score is Some && rank is Some),
        (r matches Option::Some(e) ==> {
            &&& e.username == username
            &&& e.score == score.unwrap()
            &&& e.rank == Option::Some((rank.unwrap() + 1) as i64)
        }),
{
    match (score, rank) {
        (Option::Some(s), Option::Some(rk)) => Option::Some(
            LeaderboardEntry { username, score: s, rank: Option::Some(rk + 1) },
        ),
        _ => Option::None,
    }
}

} // verus!
