//! The tic-tac-toe endpoint's game logic: winner detection, the computer
//! player, and the turn transformation with its power-up and sudden-death
//! variants. Boards are nine cells of free-form marks, the player being "X"
//! and the computer "O"; an empty string is a free cell.

use vstd::prelude::*;

use vstd::pervasive::VecAdditionalExecFns;
use vstd::string::StringExecFns;

verus! {

/// Request for playing one move, as the frontend sends it.
pub struct XandZeroRequest {
    /// Length-9 array representing the 3x3 grid.
    pub board: Vec<String>,
    /// Move indices in play order, for the sudden-death variant.
    pub move_history: Option<Vec<usize>>,
    /// "normal" or "sudden_death".
    pub game_mode: String,
    /// Whether the player spends points on the erase power-up.
    pub used_power_up: bool,
    /// The cell to erase when the power-up is used.
    pub erase_index: Option<usize>,
}

/// The state returned to the frontend after one processed turn.
pub struct XandZeroResponse {
    pub board: Vec<String>,
    pub move_history: Vec<usize>,
    pub winner: Option<String>,
    pub score_increment: i32,
    pub power_up_used_by_ai: bool,
    pub ai_erase_index: Option<usize>,
}

/// The three cells hold the same non-empty mark.
pub open spec fn line_wins(b: Seq<Seq<char>>, i: int, j: int, k: int) -> bool {
    b[i].len() > 0 && b[i] == b[j] && b[i] == b[k]
}

pub open spec fn board_full(b: Seq<Seq<char>>) -> bool {
    forall|k: int| 0 <= k < 9 ==> (#[trigger] b[k]).len() > 0
}

/// The winner of a board: the mark of the first completed line, in the fixed
/// row/column/diagonal order; "Draw" on a full board without one; nothing
/// otherwise.
pub open spec fn spec_winner(b: Seq<Seq<char>>) -> Option<Seq<char>> {
    if line_wins(b, 0, 1, 2) {
        Option::Some(b[0])
    } else if line_wins(b, 3, 4, 5) {
        Option::Some(b[3])
    } else if line_wins(b, 6, 7, 8) {
        Option::Some(b[6])
    } else if line_wins(b, 0, 3, 6) {
        Option::Some(b[0])
    } else if line_wins(b, 1, 4, 7) {
        Option::Some(b[1])
    } else if line_wins(b, 2, 5, 8) {
        Option::Some(b[2])
    } else if line_wins(b, 0, 4, 8) {
        Option::Some(b[0])
    } else if line_wins(b, 2, 4, 6) {
        Option::Some(b[2])
    } else if board_full(b) {
        Option::Some("Draw"@)
    } else {
        Option::None
    }
}

/// None of the eight lines is completed.
pub open spec fn no_line_wins(b: Seq<Seq<char>>) -> bool {
    &&& !line_wins(b, 0, 1, 2)
    &&& !line_wins(b, 3, 4, 5)
    &&& !line_wins(b, 6, 7, 8)
    &&& !line_wins(b, 0, 3, 6)
    &&& !line_wins(b, 1, 4, 7)
    &&& !line_wins(b, 2, 5, 8)
    &&& !line_wins(b, 0, 4, 8)
    &&& !line_wins(b, 2, 4, 6)
}

pub open spec fn opt_string_view(r: Option<String>) -> Option<Seq<char>> {
    match r {
        Option::Some(s) => Option::Some(s@),
        Option::None => Option::None,
    }
}

fn line_wins_at(board: &[String], i: usize, j: usize, k: usize) -> (r: bool)
    requires
        board@.len() == 9,
        i < 9,
        j < 9,
        k < 9,
    ensures
        r == line_wins(board.deep_view(), i as int, j as int, k as int),
{
    !board[i].as_str().is_empty() && board[i] == board[j] && board[i] == board[k]
}

/// Winner of the current board, exactly `spec_winner`.
pub fn check_winner(board: &[String]) -> (r: Option<String>)
    requires
        board@.len() == 9,
    ensures
        opt_string_view(r) == spec_winner(board.deep_view()),
{
    if line_wins_at(board, 0, 1, 2) {
        return Option::Some(board[0].clone());
    }
    if line_wins_at(board, 3, 4, 5) {
        return Option::Some(board[3].clone());
    }
    if line_wins_at(board, 6, 7, 8) {
        return Option::Some(board[6].clone());
    }
    if line_wins_at(board, 0, 3, 6) {
        return Option::Some(board[0].clone());
    }
    if line_wins_at(board, 1, 4, 7) {
        return Option::Some(board[1].clone());
    }
    if line_wins_at(board, 2, 5, 8) {
        return Option::Some(board[2].clone());
    }
    if line_wins_at(board, 0, 4, 8) {
        return Option::Some(board[0].clone());
    }
    if line_wins_at(board, 2, 4, 6) {
        return Option::Some(board[2].clone());
    }
    let mut i: usize = 0;
    while i < 9
        invariant
            board@.len() == 9,
            0 <= i <= 9,
            no_line_wins(board.deep_view()),
            forall|k: int| 0 <= k < i ==> (#[trigger] board.deep_view()[k]).len() > 0,
        decreases 9 - i,
    {
        if board[i].as_str().is_empty() {
            proof {
                assert(board.deep_view()[i as int].len() == 0);
                assert(!board_full(board.deep_view()));
                assert(spec_winner(board.deep_view()) is None);
            }
            return Option::None;
        }
        i += 1;
    }
    Option::Some("Draw".to_owned())
}

/// Placing `mark` on free cell `i` completes a line for `mark`.
pub open spec fn wins_for(b: Seq<Seq<char>>, i: int, mark: Seq<char>) -> bool {
    b[i].len() == 0 && spec_winner(b.update(i, mark)) == Option::Some(mark)
}

/// First free cell from `k` upward where `mark` would win, if any.
pub open spec fn find_win(b: Seq<Seq<char>>, mark: Seq<char>, k: int) -> Option<int>
    decreases 9 - k,
{
    if k < 0 || k >= 9 {
        Option::None
    } else if wins_for(b, k, mark) {
        Option::Some(k)
    } else {
        find_win(b, mark, k + 1)
    }
}

/// A found winning move is a valid free cell.
proof fn lemma_find_win_range(b: Seq<Seq<char>>, mark: Seq<char>, k: int)
    ensures
        find_win(b, mark, k) matches Option::Some(i) ==> 0 <= i < 9 && wins_for(b, i, mark),
    decreases 9 - k,
{
    if 0 <= k < 9 {
        lemma_find_win_range(b, mark, k + 1);
    }
}

fn copy_board(board: &[String]) -> (r: Vec<String>)
    ensures
        r@ == board@,
{
    let mut r: Vec<String> = Vec::new();
    let mut i: usize = 0;
    while i < board.len()
        invariant
            0 <= i <= board@.len(),
            r@ =~= board@.take(i as int),
        decreases board@.len() - i,
    {
        r.push(board[i].clone());
        proof {
            assert(r@ =~= board@.take(i as int + 1));
        }
        i += 1;
    }
    proof {
        assert(board@.take(board@.len() as int) =~= board@);
    }
    r
}

/// Whether `mark` wins by taking free cell `i`, decided by `check_winner` on
/// the hypothetical board.
fn try_move_wins(board: &[String], i: usize, mark: &String) -> (r: bool)
    requires
        board@.len() == 9,
        i < 9,
        mark@.len() > 0,
    ensures
        r == wins_for(board.deep_view(), i as int, mark@),
{
    if !board[i].as_str().is_empty() {
        proof {
            assert(board.deep_view()[i as int].len() > 0);
        }
        return false;
    }
    let mut test = copy_board(board);
    test.set(i, mark.clone());
    let w = check_winner(test.as_slice());
    proof {
        assert(test.deep_view() =~= board.deep_view().update(i as int, mark@));
        assert(board.deep_view()[i as int].len() == 0);
    }
    match w {
        Option::Some(s) => s == *mark,
        Option::None => false,
    }
}

/// The computer's move: win now if possible, else block the player's
/// immediate win, else take the center, else a random free cell; no move on a
/// full board. The first two tiers scan cells in increasing order.
pub fn get_computer_move(board: &[String]) -> (r: Option<usize>)
    requires
        board@.len() == 9,
    ensures
        (r is Some) <==> exists|k: int|
            0 <= k < 9 && (#[trigger] board.deep_view()[k]).len() == 0,
        (r matches Option::Some(i) ==> i < 9 && board.deep_view()[i as int].len() == 0),
        (find_win(board.deep_view(), "O"@, 0) matches Option::Some(i) ==> r == Option::Some(
            i as usize,
        )),
        find_win(board.deep_view(), "O"@, 0) is None ==> (find_win(
            board.deep_view(),
            "X"@,
            0,
        ) matches Option::Some(i) ==> r == Option::Some(i as usize)),
        (find_win(board.deep_view(), "O"@, 0) is None && find_win(board.deep_view(), "X"@, 0)
            is None && board.deep_view()[4].len() == 0 ==> r == Option::Some(4usize)),
{
    let ghost b = board.deep_view();
    let o_mark = String::from_str("O");
    let x_mark = String::from_str("X");
    proof {
        reveal_strlit("O");
        reveal_strlit("X");
    }
    // 1. Take a winning move.
    let mut i: usize = 0;
    while i < 9
        invariant
            board@.len() == 9,
            b == board.deep_view(),
            o_mark@ == "O"@,
            o_mark@.len() > 0,
            0 <= i <= 9,
            find_win(b, "O"@, 0) == find_win(b, "O"@, i as int),
        decreases 9 - i,
    {
        if try_move_wins(board, i, &o_mark) {
            return Option::Some(i);
        }
        i += 1;
    }
    // 2. Block the player's winning move.
    let mut i: usize = 0;
    while i < 9
        invariant
            board@.len() == 9,
            b == board.deep_view(),
            x_mark@ == "X"@,
            x_mark@.len() > 0,
            0 <= i <= 9,
            find_win(b, "O"@, 0) is None,
            find_win(b, "X"@, 0) == find_win(b, "X"@, i as int),
        decreases 9 - i,
    {
        if try_move_wins(board, i, &x_mark) {
            return Option::Some(i);
        }
        i += 1;
    }
    // 3. Take the center.
    if board[4].as_str().is_empty() {
        proof {
            assert(b[4].len() == 0);
        }
        return Option::Some(4);
    }
    // 4. Take a random free cell.
    let mut available: Vec<usize> = Vec::new();
    let mut i: usize = 0;
    while i < 9
        invariant
            board@.len() == 9,
            b == board.deep_view(),
            0 <= i <= 9,
            forall|m: int|
                0 <= m < available@.len() ==> #[trigger] available@[m] < 9 && b[
                    available@[m] as int
                ].len() == 0,
            available@.len() == 0 ==> forall|k: int| 0 <= k < i ==> (#[trigger] b[k]).len() > 0,
        decreases 9 - i,
    {
        if board[i].as_str().is_empty() {
            proof {
                assert(b[i as int].len() == 0);
            }
            available.push(i);
        }
        i += 1;
    }
    if available.len() == 0 {
        return Option::None;
    }
    let pick = crate::rng::rand_index(available.len());
    Option::Some(available[pick])
}

/// Score awarded once a game is decided: the player's win, the computer's
/// win, or a draw; anything else scores nothing.
pub open spec fn spec_score_increment(w: Option<Seq<char>>) -> int {
    match w {
        Option::Some(s) => if s == "X"@ {
            100
        } else if s == "O"@ {
            10
        } else if s == "Draw"@ {
            20
        } else {
            0
        },
        Option::None => 0,
    }
}

/// The score increment a finished turn earns, exactly `spec_score_increment`.
pub fn score_for_winner(winner: &Option<String>) -> (r: i32)
    ensures
        r == spec_score_increment(opt_string_view(*winner)),
{
    match winner {
        Option::Some(w) => {
            if *w == String::from_str("X") {
                100
            } else if *w == String::from_str("O") {
                10
            } else if *w == String::from_str("Draw") {
                20
            } else {
                0
            }
        },
        Option::None => 0,
    }
}

/// The first `k` entries of `s` with every occurrence of `x` removed, order
/// kept.
pub open spec fn seq_without(s: Seq<usize>, x: usize, k: int) -> Seq<usize>
    decreases k,
{
    if k <= 0 {
        Seq::empty()
    } else {
        let rest = seq_without(s, x, k - 1);
        if s[k - 1] == x {
            rest
        } else {
            rest.push(s[k - 1])
        }
    }
}

/// Every property of the entries of a prefix holds of the entries left after
/// removing a value.
proof fn lemma_seq_without_all(s: Seq<usize>, x: usize, k: int, p: spec_fn(usize) -> bool)
    requires
        forall|j: int| 0 <= j < k ==> p(#[trigger] s[j]),
    ensures
        forall|m: int|
            0 <= m < seq_without(s, x, k).len() ==> p(#[trigger] seq_without(s, x, k)[m]),
    decreases k,
{
    if k > 0 {
        lemma_seq_without_all(s, x, k - 1, p);
        let r = seq_without(s, x, k);
        let rest = seq_without(s, x, k - 1);
        if s[k - 1] != x {
            assert(r == rest.push(s[k - 1]));
            assert forall|m: int| 0 <= m < r.len() implies p(r[m]) by {
                if m < rest.len() {
                    assert(r[m] == rest[m]);
                } else {
                    assert(r[m] == s[k - 1]);
                }
            }
        }
    }
}

/// `history` with every occurrence of `x` removed.
pub fn without_value(history: &Vec<usize>, x: usize) -> (r: Vec<usize>)
    ensures
        r@ == seq_without(history@, x, history@.len() as int),
{
    let mut r: Vec<usize> = Vec::new();
    let mut i: usize = 0;
    while i < history.len()
        invariant
            0 <= i <= history@.len(),
            r@ == seq_without(history@, x, i as int),
        decreases history@.len() - i,
    {
        let v = history[i];
        if v != x {
            r.push(v);
        }
        i += 1;
    }
    r
}

/// How many of the first `k` history entries point at a cell holding `mark`.
pub open spec fn count_mark_moves(
    b: Seq<Seq<char>>,
    h: Seq<usize>,
    mark: Seq<char>,
    k: int,
) -> int
    decreases k,
{
    if k <= 0 {
        0
    } else {
        count_mark_moves(b, h, mark, k - 1) + if b[h[k - 1] as int] == mark {
            1int
        } else {
            0int
        }
    }
}

/// The oldest history entry among the first `k` whose cell holds `mark`.
pub open spec fn find_mark_move(
    b: Seq<Seq<char>>,
    h: Seq<usize>,
    mark: Seq<char>,
    k: int,
) -> Option<usize>
    decreases k,
{
    if k <= 0 {
        Option::None
    } else {
        match find_mark_move(b, h, mark, k - 1) {
            Option::Some(v) => Option::Some(v),
            Option::None => if b[h[k - 1] as int] == mark {
                Option::Some(h[k - 1])
            } else {
                Option::None
            },
        }
    }
}

/// With marks on the board there is an oldest one.
proof fn lemma_count_find(b: Seq<Seq<char>>, h: Seq<usize>, mark: Seq<char>, k: int)
    ensures
        count_mark_moves(b, h, mark, k) > 0 ==> find_mark_move(b, h, mark, k) is Some,
        find_mark_move(b, h, mark, k) matches Option::Some(v) ==> exists|j: int|
            0 <= j < k && h[j] == v,
    decreases k,
{
    if k > 0 {
        lemma_count_find(b, h, mark, k - 1);
    }
}

/// The sudden-death rule for one side: with more than three of its marks on
/// the board, the oldest one leaves the board and the history.
pub open spec fn spec_trim(b: Seq<Seq<char>>, h: Seq<usize>, mark: Seq<char>) -> (Seq<
    Seq<char>,
>, Seq<usize>) {
    if count_mark_moves(b, h, mark, h.len() as int) > 3 {
        match find_mark_move(b, h, mark, h.len() as int) {
            Option::Some(oldest) => (
                b.update(oldest as int, Seq::empty()),
                seq_without(h, oldest, h.len() as int),
            ),
            Option::None => (b, h),
        }
    } else {
        (b, h)
    }
}

/// Apply the sudden-death rule for `mark` in place, exactly `spec_trim`.
pub fn sudden_death_trim(board: &mut Vec<String>, history: &mut Vec<usize>, mark: &String)
    requires
        old(board)@.len() == 9,
        forall|j: int| 0 <= j < old(history)@.len() ==> #[trigger] old(history)@[j] < 9,
    ensures
        final(board)@.len() == 9,
        forall|j: int| 0 <= j < final(history)@.len() ==> #[trigger] final(history)@[j] < 9,
        final(board).deep_view() == spec_trim(
            old(board).deep_view(),
            old(history)@,
            mark@,
        ).0,
        final(history)@ == spec_trim(old(board).deep_view(), old(history)@, mark@).1,
{
    let ghost b = board.deep_view();
    let ghost h = history@;
    let n = history.len();
    let mut count: usize = 0;
    let mut first: Option<usize> = Option::None;
    let mut i: usize = 0;
    while i < n
        invariant
            board@.len() == 9,
            b == board.deep_view(),
            h == history@,
            n == h.len(),
            forall|j: int| 0 <= j < h.len() ==> #[trigger] h[j] < 9,
            0 <= i <= n,
            count <= i,
            count == count_mark_moves(b, h, mark@, i as int),
            first == find_mark_move(b, h, mark@, i as int),
        decreases n - i,
    {
        let idx = history[i];
        if board[idx] == *mark {
            proof {
                assert(b[h[i as int] as int] == mark@);
            }
            count = count + 1;
            if first.is_none() {
                first = Option::Some(idx);
            }
        } else {
            proof {
                assert(b[h[i as int] as int] != mark@);
            }
        }
        i += 1;
    }
    if count > 3 {
        proof {
            lemma_count_find(b, h, mark@, n as int);
        }
        if let Option::Some(oldest) = first {
            board.set(oldest, String::new());
            let trimmed = without_value(history, oldest);
            *history = trimmed;
            proof {
                assert(board.deep_view() =~= b.update(oldest as int, Seq::empty()));
                lemma_seq_without_all(h, oldest, h.len() as int, |v: usize| v < 9);
            }
        }
    }
}

/// Number of cells among the first `k` that hold the player's mark.
pub open spec fn count_x(b: Seq<Seq<char>>, k: int) -> int
    decreases k,
{
    if k <= 0 {
        0
    } else {
        count_x(b, k - 1) + if b[k - 1] == "X"@ {
            1int
        } else {
            0int
        }
    }
}

/// The board and history after the player's sudden-death removal, if the
/// sudden-death mode is on.
pub open spec fn spec_user_trim(b: Seq<Seq<char>>, h: Seq<usize>, sudden: bool) -> (Seq<
    Seq<char>,
>, Seq<usize>) {
    if sudden {
        spec_trim(b, h, "X"@)
    } else {
        (b, h)
    }
}

/// The random draws one computer turn can consume: which player cell its
/// 1-in-5 erase power-up cleared (when the roll fired and a pick was made),
/// and which cell its move took (when a free cell existed).
pub struct TurnDraws {
    pub erase: Option<int>,
    pub mv: Option<int>,
}

/// The board after the computer's optional erase.
pub open spec fn erased_board(b1: Seq<Seq<char>>, erase: Option<int>) -> Seq<Seq<char>> {
    match erase {
        Option::Some(e) => b1.update(e, Seq::empty()),
        Option::None => b1,
    }
}

/// The erase draw clears one of at least two player cells, or nothing.
pub open spec fn erase_draw_wf(b1: Seq<Seq<char>>, erase: Option<int>) -> bool {
    erase matches Option::Some(e) ==> 0 <= e < 9 && b1[e] == "X"@ && count_x(b1, 9) >= 2
}

/// The move draw obeys the computer-move rule on the post-erase board: it
/// exists exactly when a free cell does, wins when it can, blocks when it
/// must, prefers the center, and is otherwise any free cell.
pub open spec fn mv_draw_wf(b2: Seq<Seq<char>>, mv: Option<int>) -> bool {
    &&& ((mv is Some) <==> exists|k: int| 0 <= k < 9 && (#[trigger] b2[k]).len() == 0)
    &&& (mv matches Option::Some(m) ==> {
        &&& 0 <= m < 9
        &&& b2[m].len() == 0
        &&& (find_win(b2, "O"@, 0) matches Option::Some(i) ==> m == i)
        &&& (find_win(b2, "O"@, 0) is None ==> (find_win(b2, "X"@, 0) matches Option::Some(i)
            ==> m == i))
        &&& (find_win(b2, "O"@, 0) is None && find_win(b2, "X"@, 0) is None && b2[4].len() == 0
            ==> m == 4)
    })
}

/// Validity of a turn's draws against the request; both clauses apply only
/// while the trimmed board is undecided.
pub open spec fn turn_draws_wf(
    b: Seq<Seq<char>>,
    h: Seq<usize>,
    sudden: bool,
    d: TurnDraws,
) -> bool {
    let b1 = spec_user_trim(b, h, sudden).0;
    spec_winner(b1) is None ==> {
        &&& erase_draw_wf(b1, d.erase)
        &&& mv_draw_wf(erased_board(b1, d.erase), d.mv)
    }
}

/// The whole turn as a function of the request and the draws: the
/// player-side sudden-death removal; then, unless that board is already
/// decided, the erase, the computer's move, and the computer-side removal.
/// Returns the final board, the final history, and the erased cell.
pub open spec fn spec_turn(b: Seq<Seq<char>>, h: Seq<usize>, sudden: bool, d: TurnDraws) -> (
    Seq<Seq<char>>,
    Seq<usize>,
    Option<usize>,
) {
    let b1 = spec_user_trim(b, h, sudden).0;
    let h1 = spec_user_trim(b, h, sudden).1;
    if spec_winner(b1) is Some {
        (b1, h1, Option::<usize>::None)
    } else {
        let b2 = erased_board(b1, d.erase);
        let h2 = match d.erase {
            Option::Some(e) => seq_without(h1, e as usize, h1.len() as int),
            Option::None => h1,
        };
        let er = match d.erase {
            Option::Some(e) => Option::Some(e as usize),
            Option::None => Option::<usize>::None,
        };
        match d.mv {
            Option::Some(m) => {
                let b3 = b2.update(m, "O"@);
                let h3 = h2.push(m as usize);
                if sudden {
                    (spec_trim(b3, h3, "O"@).0, spec_trim(b3, h3, "O"@).1, er)
                } else {
                    (b3, h3, er)
                }
            },
            Option::None => (b2, h2, er),
        }
    }
}

/// The computer's whole turn, in place: the player's sudden-death removal,
/// then — unless the game is already decided — the computer's 1-in-5 erase
/// power-up, its move, and its own sudden-death removal. Returns the winner
/// of the final board, the score increment it earns, and whether (and where)
/// the computer erased a player mark. The whole transformation is
/// `spec_turn` for some valid draws.
pub fn take_turn(board: &mut Vec<String>, history: &mut Vec<usize>, sudden: bool) -> (r: (
    Option<String>,
    i32,
    bool,
    Option<usize>,
))
    requires
        old(board)@.len() == 9,
        forall|j: int| 0 <= j < old(history)@.len() ==> #[trigger] old(history)@[j] < 9,
    ensures
        final(board)@.len() == 9,
        forall|j: int| 0 <= j < final(history)@.len() ==> #[trigger] final(history)@[j] < 9,
        opt_string_view(r.0) == spec_winner(final(board).deep_view()),
        r.1 == spec_score_increment(opt_string_view(r.0)),
        r.2 == (r.3 is Some),
        (r.3 matches Option::Some(e) ==> e < 9),
        exists|d: TurnDraws|
            #![auto]
            {
                &&& turn_draws_wf(old(board).deep_view(), old(history)@, sudden, d)
                &&& final(board).deep_view() == spec_turn(
                    old(board).deep_view(),
                    old(history)@,
                    sudden,
                    d,
                ).0
                &&& final(history)@ == spec_turn(
                    old(board).deep_view(),
                    old(history)@,
                    sudden,
                    d,
                ).1
                &&& r.3 == spec_turn(old(board).deep_view(), old(history)@, sudden, d).2
            },
{
    let ghost b0 = old(board).deep_view();
    let ghost h0 = old(history)@;
    if sudden {
        let x = String::from_str("X");
        sudden_death_trim(board, history, &x);
    }
    let ghost b1g = board.deep_view();
    let ghost h1g = history@;
    proof {
        assert(b1g == spec_user_trim(b0, h0, sudden).0);
        assert(h1g == spec_user_trim(b0, h0, sudden).1);
    }
    let mut winner = check_winner(board.as_slice());
    let mut ai_used = false;
    let mut ai_erase: Option<usize> = Option::None;
    let ghost mut d = TurnDraws { erase: Option::None, mv: Option::None };
    if winner.is_none() {
        // The computer's erase power-up: a 1-in-5 roll once the player holds
        // at least two cells.
        let x = String::from_str("X");
        let mut x_cells: Vec<usize> = Vec::new();
        let mut i: usize = 0;
        while i < 9
            invariant
                board@.len() == 9,
                b1g == board.deep_view(),
                x@ == "X"@,
                0 <= i <= 9,
                x_cells@.len() == count_x(b1g, i as int),
                forall|m: int|
                    0 <= m < x_cells@.len() ==> #[trigger] x_cells@[m] < 9 && b1g[
                        x_cells@[m] as int
                    ] == "X"@,
            decreases 9 - i,
        {
            if board[i] == x {
                proof {
                    assert(b1g[i as int] == "X"@);
                }
                x_cells.push(i);
            }
            i += 1;
        }
        if x_cells.len() >= 2 && crate::rng::rand_in_range(0, 5) == 0 {
            let pick = crate::rng::rand_index(x_cells.len());
            let erase_idx = x_cells[pick];
            board.set(erase_idx, String::new());
            proof {
                assert(board.deep_view() =~= b1g.update(erase_idx as int, Seq::empty()));
            }
            let trimmed = without_value(history, erase_idx);
            proof {
                lemma_seq_without_all(
                    history@,
                    erase_idx,
                    history@.len() as int,
                    |v: usize| v < 9,
                );
            }
            *history = trimmed;
            ai_used = true;
            ai_erase = Option::Some(erase_idx);
            proof {
                d = TurnDraws { erase: Option::Some(erase_idx as int), mv: Option::None };
            }
        }
        // The computer's move.
        let ghost b2g = board.deep_view();
        let ghost h2g = history@;
        let mv = get_computer_move(board.as_slice());
        proof {
            lemma_find_win_range(b2g, "O"@, 0);
            lemma_find_win_range(b2g, "X"@, 0);
        }
        if let Option::Some(mv) = mv {
            let o = String::from_str("O");
            board.set(mv, o);
            proof {
                assert(board.deep_view() =~= b2g.update(mv as int, "O"@));
            }
            history.push(mv);
            proof {
                d = TurnDraws { erase: d.erase, mv: Option::Some(mv as int) };
            }
            let ghost b3g = board.deep_view();
            let ghost h3g = history@;
            if sudden {
                let o2 = String::from_str("O");
                sudden_death_trim(board, history, &o2);
            }
            proof {
                assert(b3g == b2g.update(mv as int, "O"@));
                assert(h3g == h2g.push(mv));
                assert(board.deep_view() == spec_turn(b0, h0, sudden, d).0);
                assert(history@ == spec_turn(b0, h0, sudden, d).1);
                assert(ai_erase == spec_turn(b0, h0, sudden, d).2);
            }
        } else {
            proof {
                assert(board.deep_view() == spec_turn(b0, h0, sudden, d).0);
                assert(history@ == spec_turn(b0, h0, sudden, d).1);
                assert(ai_erase == spec_turn(b0, h0, sudden, d).2);
            }
        }
        proof {
            assert(erase_draw_wf(b1g, d.erase));
            assert(mv_draw_wf(erased_board(b1g, d.erase), d.mv));
            assert(turn_draws_wf(b0, h0, sudden, d));
        }
        winner = check_winner(board.as_slice());
    } else {
        proof {
            assert(board.deep_view() == spec_turn(b0, h0, sudden, d).0);
            assert(history@ == spec_turn(b0, h0, sudden, d).1);
            assert(ai_erase == spec_turn(b0, h0, sudden, d).2);
            assert(turn_draws_wf(b0, h0, sudden, d));
        }
    }
    let score_increment = score_for_winner(&winner);
    proof {
        assert(exists|dd: TurnDraws|
            #![auto]
            {
                &&& turn_draws_wf(b0, h0, sudden, dd)
                &&& board.deep_view() == spec_turn(b0, h0, sudden, dd).0
                &&& history@ == spec_turn(b0, h0, sudden, dd).1
                &&& ai_erase == spec_turn(b0, h0, sudden, dd).2
            }) by {
            assert(turn_draws_wf(b0, h0, sudden, d));
            assert(board.deep_view() == spec_turn(b0, h0, sudden, d).0);
            assert(history@ == spec_turn(b0, h0, sudden, d).1);
            assert(ai_erase == spec_turn(b0, h0, sudden, d).2);
        }
    }
    (winner, score_increment, ai_used, ai_erase)
}

/// What a processed turn asks of the surrounding request handler.
pub enum PlayOutcome {
    /// The erase power-up was requested with too few stored points.
    InsufficientPoints,
    /// A power-up turn: the response to send, and the deducted point total to
    /// persist when a mark was in fact erased.
    PowerUp { response: XandZeroResponse, new_total: Option<i32> },
    /// An ordinary turn: the response to send; its score increment is to be
    /// persisted when a winner was decided.
    Turn { response: XandZeroResponse },
}

/// A response whose winner and score fields agree with its board.
pub open spec fn response_consistent(resp: XandZeroResponse) -> bool {
    &&& resp.board@.len() == 9
    &&& opt_string_view(resp.winner) == spec_winner(resp.board.deep_view())
    &&& resp.score_increment == spec_score_increment(opt_string_view(resp.winner))
}

/// The request's move history, an empty one when the field is absent.
pub open spec fn spec_history(req: XandZeroRequest) -> Seq<usize> {
    match req.move_history {
        Option::Some(h) => h@,
        Option::None => Seq::empty(),
    }
}

/// Whether the request plays the sudden-death variant.
pub open spec fn spec_sudden(req: XandZeroRequest) -> bool {
    req.game_mode@ == "sudden_death"@
}

/// Process one whole turn request. `user_points` is the player's stored point
/// total, read by the caller before the call; it only matters when the erase
/// power-up is requested.
pub fn play_turn(req: XandZeroRequest, user_points: i32) -> (r: PlayOutcome)
    requires
        req.board@.len() == 9,
        req.move_history matches Option::Some(h) ==> forall|j: int|
            0 <= j < h@.len() ==> #[trigger] h@[j] < 9,
        req.erase_index matches Option::Some(idx) ==> idx < 9,
    ensures
        (r is InsufficientPoints) <==> (req.used_power_up && req.erase_index is Some
            && user_points < 50),
        (r matches PlayOutcome::PowerUp { response, new_total } ==> {
            &&& req.used_power_up
            &&& req.erase_index is Some
            &&& user_points >= 50
            &&& opt_string_view(response.winner) == spec_winner(response.board.deep_view())
            &&& response.board@.len() == 9
            &&& response.score_increment == 0
            &&& !response.power_up_used_by_ai
            &&& response.ai_erase_index is None
            &&& response.board.deep_view() == (if req.board.deep_view()[req.erase_index.unwrap() as int].len() > 0 {
                req.board.deep_view().update(req.erase_index.unwrap() as int, Seq::empty())
            } else {
                req.board.deep_view()
            })
            &&& response.move_history@ == (if req.board.deep_view()[req.erase_index.unwrap() as int].len() > 0 {
                seq_without(
                    spec_history(req),
                    req.erase_index.unwrap(),
                    spec_history(req).len() as int,
                )
            } else {
                spec_history(req)
            })
            &&& new_total == (if req.board.deep_view()[req.erase_index.unwrap() as int].len()
                > 0 {
                Option::Some((user_points - 50) as i32)
            } else {
                Option::<i32>::None
            })
        }),
        (r matches PlayOutcome::Turn { response } ==> {
            &&& response_consistent(response)
            &&& !(req.used_power_up && req.erase_index is Some)
            &&& response.power_up_used_by_ai == (response.ai_erase_index is Some)
            &&& (response.ai_erase_index matches Option::Some(e) ==> e < 9)
            &&& exists|d: TurnDraws|
                #![auto]
                {
                    &&& turn_draws_wf(
                        req.board.deep_view(),
                        spec_history(req),
                        spec_sudden(req),
                        d,
                    )
                    &&& response.board.deep_view() == spec_turn(
                        req.board.deep_view(),
                        spec_history(req),
                        spec_sudden(req),
                        d,
                    ).0
                    &&& response.move_history@ == spec_turn(
                        req.board.deep_view(),
                        spec_history(req),
                        spec_sudden(req),
                        d,
                    ).1
                    &&& response.ai_erase_index == spec_turn(
                        req.board.deep_view(),
                        spec_history(req),
                        spec_sudden(req),
                        d,
                    ).2
                }
        }),
{
    let mut board = req.board;
    let mut history: Vec<usize> = match req.move_history {
        Option::Some(h) => h,
        Option::None => Vec::new(),
    };
    proof {
        assert(history@ =~= spec_history(req));
    }
    if req.used_power_up {
        if let Option::Some(idx) = req.erase_index {
            if user_points < 50 {
                return PlayOutcome::InsufficientPoints;
            }
            let mut new_total: Option<i32> = Option::None;
            if !board[idx].as_str().is_empty() {
                proof {
                    assert(req.board.deep_view()[idx as int].len() > 0);
                }
                board.set(idx, String::new());
                proof {
                    assert(board.deep_view() =~= req.board.deep_view().update(
                        idx as int,
                        Seq::empty(),
                    ));
                }
                let trimmed = without_value(&history, idx);
                history = trimmed;
                new_total = Option::Some(user_points - 50);
            } else {
                proof {
                    assert(req.board.deep_view()[idx as int].len() == 0);
                }
            }
            let winner = check_winner(board.as_slice());
            return PlayOutcome::PowerUp {
                response: XandZeroResponse {
                    board,
                    move_history: history,
                    winner,
                    score_increment: 0,
                    power_up_used_by_ai: false,
                    ai_erase_index: Option::None,
                },
                new_total,
            };
        }
    }
    let sudden = req.game_mode == String::from_str("sudden_death");
    proof {
        assert(sudden == spec_sudden(req));
    }
    let ghost bpre = board.deep_view();
    let ghost hpre = history@;
    let (winner, score_increment, ai_used, ai_erase) = take_turn(&mut board, &mut history, sudden);
    let response = XandZeroResponse {
        board,
        move_history: history,
        winner,
        score_increment,
        power_up_used_by_ai: ai_used,
        ai_erase_index: ai_erase,
    };
    proof {
        let d = choose|d: TurnDraws|
            #![auto]
            {
                &&& turn_draws_wf(bpre, hpre, sudden, d)
                &&& response.board.deep_view() == spec_turn(bpre, hpre, sudden, d).0
                &&& response.move_history@ == spec_turn(bpre, hpre, sudden, d).1
                &&& response.ai_erase_index == spec_turn(bpre, hpre, sudden, d).2
            };
        assert(bpre == req.board.deep_view());
        assert(hpre == spec_history(req));
        assert(exists|dd: TurnDraws|
            #![auto]
            {
                &&& turn_draws_wf(req.board.deep_view(), spec_history(req), spec_sudden(req), dd)
                &&& response.board.deep_view() == spec_turn(
                    req.board.deep_view(),
                    spec_history(req),
                    spec_sudden(req),
                    dd,
                ).0
                &&& response.move_history@ == spec_turn(
                    req.board.deep_view(),
                    spec_history(req),
                    spec_sudden(req),
                    dd,
                ).1
                &&& response.ai_erase_index == spec_turn(
                    req.board.deep_view(),
                    spec_history(req),
                    spec_sudden(req),
                    dd,
                ).2
            }) by {
            assert(turn_draws_wf(req.board.deep_view(), spec_history(req), spec_sudden(req), d));
            assert(response.board.deep_view() == spec_turn(
                req.board.deep_view(),
                spec_history(req),
                spec_sudden(req),
                d,
            ).0);
            assert(response.move_history@ == spec_turn(
                req.board.deep_view(),
                spec_history(req),
                spec_sudden(req),
                d,
            ).1);
            assert(response.ai_erase_index == spec_turn(
                req.board.deep_view(),
                spec_history(req),
                spec_sudden(req),
                d,
            ).2);
        }
    }
    PlayOutcome::Turn { response }
}

} // verus!
