use std::collections::HashMap;

use vstd::prelude::*;

verus! {

/// One player's result in one game, as read from the store.
#[derive(Debug)]
pub struct ScoreRow {
    pub player_id: i32,
    pub game_id: i32,
    pub player_name: String,
    pub points: i32,
}

impl ScoreRow {
    /// A copy of this row.
    pub fn duplicate(&self) -> (r: ScoreRow)
        ensures
            r == *self,
    {
        ScoreRow {
            player_id: self.player_id,
            game_id: self.game_id,
            player_name: self.player_name.clone(),
            points: self.points,
        }
    }
}

/// The highest score recorded for one game.
#[derive(Debug, Clone, Copy)]
pub struct GameMax {
    pub game_id: i32,
    pub max_score: i32,
}

/// A row wins its game when its points equal the game's recorded maximum;
/// every player tied on the maximum wins.
pub open spec fn is_win(maxes: Seq<GameMax>, game_id: i32, points: i32) -> bool {
    exists|k: int| 0 <= k < maxes.len() && maxes[k].game_id == game_id && maxes[k].max_score == points
}

/// The rows of one player, in the order of `rows`.
pub open spec fn rows_of(rows: Seq<ScoreRow>, pid: i32) -> Seq<ScoreRow>
    decreases rows.len(),
{
    if rows.len() == 0 {
        Seq::empty()
    } else {
        let before = rows_of(rows.drop_last(), pid);
        if rows.last().player_id == pid {
            before.push(rows.last())
        } else {
            before
        }
    }
}

/// How many of a player's `len` rows a cap of `n` games keeps.
pub open spec fn cap_len(len: nat, cap: Option<i32>) -> nat {
    match cap {
        None => len,
        Some(n) => if n <= 0 {
            0
        } else if len <= n {
            len
        } else {
            n as nat
        },
    }
}

/// Whether a cap admits one more row after `len` rows were kept.
pub open spec fn cap_admits(len: nat, cap: Option<i32>) -> bool {
    match cap {
        None => true,
        Some(n) => len < n,
    }
}

/// The rows of a player that the aggregation counts: the first `n` of them in
/// iteration order.
pub open spec fn counted_rows(rows: Seq<ScoreRow>, pid: i32, cap: Option<i32>) -> Seq<ScoreRow> {
    let all = rows_of(rows, pid);
    all.take(cap_len(all.len(), cap) as int)
}

pub open spec fn points_total(s: Seq<ScoreRow>) -> int
    decreases s.len(),
{
    if s.len() == 0 {
        0
    } else {
        points_total(s.drop_last()) + s.last().points
    }
}

pub open spec fn squares_total(s: Seq<ScoreRow>) -> int
    decreases s.len(),
{
    if s.len() == 0 {
        0
    } else {
        squares_total(s.drop_last()) + s.last().points * s.last().points
    }
}

pub open spec fn wins_in(s: Seq<ScoreRow>, maxes: Seq<GameMax>) -> nat
    decreases s.len(),
{
    if s.len() == 0 {
        0
    } else {
        wins_in(s.drop_last(), maxes) + if is_win(maxes, s.last().game_id, s.last().points) {
            1nat
        } else {
            0nat
        }
    }
}


/// Aggregate statistics of one player. The standard deviation is left to the
/// caller, from `points`, `sum_of_squares` and `games`: the population
/// variance is `(games * sum_of_squares - points * points) / games^2`.
#[derive(Debug, PartialEq, Eq)]
pub struct PlayerStats {
    pub id: i32,
    pub name: String,
    pub wins: usize,
    pub points: i128,
    pub games: usize,
    pub sum_of_squares: i128,
}

/// `p` holds the statistics of player `p.id` over `rows`: name of the
/// player's first row, and games, wins, points and squares of the counted
/// rows.
pub open spec fn holds_stats(p: PlayerStats, rows: Seq<ScoreRow>, maxes: Seq<GameMax>, cap: Option<i32>) -> bool {
    let c = counted_rows(rows, p.id, cap);
    &&& rows_of(rows, p.id).len() > 0
    &&& p.name == rows_of(rows, p.id)[0].player_name
    &&& p.games == c.len()
    &&& p.wins == wins_in(c, maxes)
    &&& p.points == points_total(c)
    &&& p.sum_of_squares == squares_total(c)
}

/// `p` is an entry of the statistics: it holds the player's statistics, and
/// the player has at least one counted game.
pub open spec fn describes(p: PlayerStats, rows: Seq<ScoreRow>, maxes: Seq<GameMax>, cap: Option<i32>) -> bool {
    &&& holds_stats(p, rows, maxes, cap)
    &&& p.games > 0
}

/// `out` holds exactly one entry for each player with at least one counted
/// row, each describing that player's statistics; a player whose rows are
/// all beyond the cap has no entry.
pub open spec fn is_stats_of(out: Seq<PlayerStats>, rows: Seq<ScoreRow>, maxes: Seq<GameMax>, cap: Option<i32>) -> bool {
    &&& forall|k: int| 0 <= k < out.len() ==> describes(#[trigger] out[k], rows, maxes, cap)
    &&& forall|k1: int, k2: int| 0 <= k1 < k2 < out.len() ==> out[k1].id != out[k2].id
    &&& forall|i: int|
        0 <= i < rows.len() && counted_rows(rows, rows[i].player_id, cap).len() > 0 ==> has_entry(
            out,
            #[trigger] rows[i].player_id,
        )
}

/// Some entry of `out` is about player `pid`.
pub open spec fn has_entry(out: Seq<PlayerStats>, pid: i32) -> bool {
    exists|k: int| 0 <= k < out.len() && out[k].id == pid
}

pub(crate) proof fn lemma_rows_of_push(rows: Seq<ScoreRow>, r: ScoreRow, pid: i32)
    ensures
        rows_of(rows.push(r), pid) == if r.player_id == pid {
            rows_of(rows, pid).push(r)
        } else {
            rows_of(rows, pid)
        },
{
    assert(rows.push(r).drop_last() =~= rows);
}

proof fn lemma_rows_of_len(rows: Seq<ScoreRow>, pid: i32)
    ensures
        rows_of(rows, pid).len() <= rows.len(),
    decreases rows.len(),
{
    if rows.len() > 0 {
        lemma_rows_of_len(rows.drop_last(), pid);
    }
}

proof fn lemma_totals_push(s: Seq<ScoreRow>, r: ScoreRow, maxes: Seq<GameMax>)
    ensures
        points_total(s.push(r)) == points_total(s) + r.points,
        squares_total(s.push(r)) == squares_total(s) + r.points * r.points,
        wins_in(s.push(r), maxes) == wins_in(s, maxes) + if is_win(maxes, r.game_id, r.points) {
            1nat
        } else {
            0nat
        },
{
    assert(s.push(r).drop_last() =~= s);
}

/// How the counted rows of `pid` change when one row is appended.
pub(crate) proof fn lemma_counted_push(rows: Seq<ScoreRow>, r: ScoreRow, pid: i32, cap: Option<i32>)
    ensures
        r.player_id != pid ==> counted_rows(rows.push(r), pid, cap) == counted_rows(rows, pid, cap),
        r.player_id == pid && cap_admits(rows_of(rows, pid).len(), cap) ==> counted_rows(rows.push(r), pid, cap)
            == counted_rows(rows, pid, cap).push(r),
        r.player_id == pid && !cap_admits(rows_of(rows, pid).len(), cap) ==> counted_rows(rows.push(r), pid, cap)
            == counted_rows(rows, pid, cap),
{
    lemma_rows_of_push(rows, r, pid);
    let all = rows_of(rows, pid);
    if r.player_id == pid {
        let m = cap_len(all.len(), cap);
        let m2 = cap_len(all.len() + 1, cap);
        if cap_admits(all.len(), cap) {
            assert(m == all.len());
            assert(m2 == all.len() + 1);
            assert(all.push(r).take(m2 as int) =~= all.take(m as int).push(r));
        } else {
            assert(m2 == m);
            assert(all.push(r).take(m2 as int) =~= all.take(m as int));
        }
    }
}

/// Whether the row of `game_id` with `points` wins its game.
pub fn wins_game(maxes: &[GameMax], game_id: i32, points: i32) -> (r: bool)
    ensures
        r == is_win(maxes@, game_id, points),
{
    let mut k: usize = 0;
    while k < maxes.len()
        invariant
            k <= maxes.len(),
            forall|j: int| 0 <= j < k ==> !(maxes@[j].game_id == game_id && maxes@[j].max_score == points),
        decreases maxes.len() - k,
    {
        if maxes[k].game_id == game_id && maxes[k].max_score == points {
            return true;
        }
        k += 1;
    }
    false
}

pub(crate) const POINTS_BELOW: i128 = 2147483648;

pub(crate) const POINTS_ABOVE: i128 = 2147483647;

pub(crate) const SQUARE_BOUND: i128 = 4611686018427387904;

/// The points of a run of rows.
pub open spec fn points_of(s: Seq<ScoreRow>) -> Seq<i32> {
    s.map_values(|r: ScoreRow| r.points)
}

/// Running totals of one player while the rows are folded: the counted
/// games, wins, points and squares, and the counted points themselves in
/// iteration order.
pub(crate) struct PlayerTally {
    pub(crate) id: i32,
    pub(crate) name: String,
    pub(crate) games: usize,
    pub(crate) wins: usize,
    pub(crate) points: i128,
    pub(crate) squares: i128,
    pub(crate) kept: Vec<i32>,
}

/// The totals of `t` are those of player `t.id` over `rows`.
pub(crate) open spec fn totals_of(t: PlayerTally, rows: Seq<ScoreRow>, maxes: Seq<GameMax>, cap: Option<i32>) -> bool {
    let c = counted_rows(rows, t.id, cap);
    &&& t.games == c.len()
    &&& t.games == cap_len(rows_of(rows, t.id).len(), cap)
    &&& t.wins == wins_in(c, maxes)
    &&& t.points == points_total(c)
    &&& t.squares == squares_total(c)
    &&& t.kept@ == points_of(c)
    &&& t.games <= rows.len()
    &&& t.wins <= t.games
    &&& -(t.games as int) * POINTS_BELOW <= t.points <= (t.games as int) * POINTS_ABOVE
    &&& 0 <= t.squares <= (t.games as int) * SQUARE_BOUND
}

/// `t` is the tally of a player who has a row in `rows`.
pub(crate) open spec fn tally_of(t: PlayerTally, rows: Seq<ScoreRow>, maxes: Seq<GameMax>, cap: Option<i32>) -> bool {
    &&& totals_of(t, rows, maxes, cap)
    &&& rows_of(rows, t.id).len() > 0
    &&& t.name == rows_of(rows, t.id)[0].player_name
}

/// Some tally of `acc` is about player `pid`.
pub(crate) open spec fn has_tally(acc: Seq<PlayerTally>, pid: i32) -> bool {
    exists|k: int| 0 <= k < acc.len() && acc[k].id == pid
}

/// Adds one row of the player to the totals, when the cap admits it.
fn count_row(t: &mut PlayerTally, row: &ScoreRow, maxes: &[GameMax], cap: Option<i32>, Ghost(pre): Ghost<Seq<ScoreRow>>)
    requires
        totals_of(*old(t), pre, maxes@, cap),
        row.player_id == old(t).id,
        pre.len() < usize::MAX,
    ensures
        totals_of(*final(t), pre.push(*row), maxes@, cap),
        final(t).id == old(t).id,
        final(t).name == old(t).name,
{
    let pid = t.id;
    proof {
        lemma_rows_of_push(pre, *row, pid);
        lemma_counted_push(pre, *row, pid, cap);
        lemma_totals_push(counted_rows(pre, pid, cap), *row, maxes@);
        lemma_rows_of_len(pre, pid);
        assert(points_of(counted_rows(pre, pid, cap).push(*row)) =~= points_of(counted_rows(pre, pid, cap)).push(
            row.points,
        ));
    }
    let admitted = match cap {
        None => true,
        Some(n) => n > 0 && t.games < n as usize,
    };
    if admitted {
        proof {
            assert(cap_admits(rows_of(pre, pid).len(), cap));
        }
        if wins_game(maxes, row.game_id, row.points) {
            t.wins = t.wins + 1;
        }
        let p = row.points as i128;
        proof {
            assert(0 <= p * p <= SQUARE_BOUND) by (nonlinear_arith)
                requires
                    -POINTS_BELOW <= p <= POINTS_ABOVE,
            ;
        }
        t.games = t.games + 1;
        t.points = t.points + p;
        t.squares = t.squares + p * p;
        t.kept.push(row.points);
    } else {
        proof {
            assert(!cap_admits(rows_of(pre, pid).len(), cap));
        }
    }
}

/// Folds the rows once, player by player: one tally per player with a row,
/// in the order of each player's first row, found through a map from player
/// id to the tally's position.
pub(crate) fn accumulate(rows: &[ScoreRow], maxes: &[GameMax], cap: Option<i32>) -> (acc: Vec<PlayerTally>)
    ensures
        forall|k: int| 0 <= k < acc.len() ==> tally_of(#[trigger] acc@[k], rows@, maxes@, cap),
        forall|k1: int, k2: int| 0 <= k1 < k2 < acc.len() ==> acc@[k1].id != acc@[k2].id,
        forall|i: int| 0 <= i < rows.len() ==> has_tally(acc@, #[trigger] rows@[i].player_id),
{
    broadcast use vstd::std_specs::hash::group_hash_axioms;

    let mut index: HashMap<i32, usize> = HashMap::new();
    let mut acc: Vec<PlayerTally> = Vec::new();
    let mut i: usize = 0;
    while i < rows.len()
        invariant
            i <= rows.len(),
            forall|k: int| 0 <= k < acc.len() ==> tally_of(#[trigger] acc@[k], rows@.take(i as int), maxes@, cap),
            forall|k: int|
                0 <= k < acc.len() ==> index@.contains_key(#[trigger] acc@[k].id) && index@[acc@[k].id] == k,
            forall|q: i32| #[trigger] index@.contains_key(q) ==> index@[q] < acc.len() && acc@[index@[q] as int].id == q,
            forall|q: i32| #[trigger] index@.contains_key(q) <==> rows_of(rows@.take(i as int), q).len() > 0,
        decreases rows.len() - i,
    {
        let row = &rows[i];
        let pid = row.player_id;
        let ghost pre = rows@.take(i as int);
        let ghost before = acc@;
        proof {
            assert(rows@.take(i as int + 1) =~= pre.push(*row));
            lemma_rows_of_push(pre, *row, pid);
            assert forall|q: i32| q != pid implies rows_of(pre.push(*row), q) == rows_of(pre, q)
                && counted_rows(pre.push(*row), q, cap) == counted_rows(pre, q, cap) by {
                lemma_rows_of_push(pre, *row, q);
                lemma_counted_push(pre, *row, q, cap);
            }
        }
        match index.get(&pid) {
            Some(slot) => {
                let k = *slot;
                proof {
                    assert(tally_of(acc@[k as int], pre, maxes@, cap));
                }
                count_row(&mut acc[k], row, maxes, cap, Ghost(pre));
                proof {
                    assert(acc@[k as int].id == pid);
                    assert(rows_of(pre.push(*row), pid)[0] == rows_of(pre, pid)[0]);
                    assert forall|j: int| 0 <= j < acc.len() && j != k implies acc@[j] == before[j] by {}
                }
            },
            None => {
                let mut t = PlayerTally {
                    id: pid,
                    name: row.player_name.clone(),
                    games: 0,
                    wins: 0,
                    points: 0,
                    squares: 0,
                    kept: Vec::new(),
                };
                proof {
                    assert(rows_of(pre, pid).len() == 0);
                    assert(rows_of(pre, pid) =~= Seq::<ScoreRow>::empty());
                    assert(counted_rows(pre, pid, cap) =~= Seq::<ScoreRow>::empty());
                    assert(t.kept@ =~= points_of(Seq::<ScoreRow>::empty()));
                }
                count_row(&mut t, row, maxes, cap, Ghost(pre));
                let k = acc.len();
                acc.push(t);
                index.insert(pid, k);
                proof {
                    assert(rows_of(pre.push(*row), pid)[0] == *row);
                }
            },
        }
        proof {
            let post = rows@.take(i as int + 1);
            assert forall|k: int| 0 <= k < acc.len() implies tally_of(#[trigger] acc@[k], post, maxes@, cap) by {
                if acc@[k].id != pid {
                    assert(acc@[k] == before[k]);
                    lemma_rows_of_len(pre, acc@[k].id);
                }
            }
        }
        i = i + 1;
    }
    proof {
        assert(rows@.take(rows.len() as int) =~= rows@);
        assert forall|k1: int, k2: int| 0 <= k1 < k2 < acc.len() implies acc@[k1].id != acc@[k2].id by {
            assert(index@[acc@[k1].id] == k1);
            assert(index@[acc@[k2].id] == k2);
        }
        assert forall|i: int| 0 <= i < rows.len() implies has_tally(acc@, #[trigger] rows@[i].player_id) by {
            let q = rows@[i].player_id;
            crate::laws::lemma_row_player_has_rows(rows@, i);
            assert(index@.contains_key(q));
            assert(acc@[index@[q] as int].id == q);
        }
    }
    acc
}

/// Folds score rows into per-player statistics: one entry per player with a
/// counted row, in the order of each player's first row. With `cap` set to
/// `Some(n)` only the first `n` rows of each player, in iteration order, are
/// counted, so a cap of zero or less gives no entry at all.
pub fn aggregate(rows: &[ScoreRow], maxes: &[GameMax], cap: Option<i32>) -> (r: Vec<PlayerStats>)
    ensures
        is_stats_of(r@, rows@, maxes@, cap),
{
    let acc = accumulate(rows, maxes, cap);
    let mut out: Vec<PlayerStats> = Vec::new();
    let mut k: usize = 0;
    while k < acc.len()
        invariant
            k <= acc.len(),
            forall|q: int| 0 <= q < out.len() ==> describes(#[trigger] out@[q], rows@, maxes@, cap),
            forall|q: int| 0 <= q < out.len() ==> has_tally(acc@.take(k as int), #[trigger] out@[q].id),
            forall|k1: int, k2: int| 0 <= k1 < k2 < out.len() ==> out@[k1].id != out@[k2].id,
            forall|j: int|
                0 <= j < k && counted_rows(rows@, acc@[j].id, cap).len() > 0 ==> has_entry(out@, #[trigger] acc@[j].id),
            forall|j: int| 0 <= j < acc.len() ==> tally_of(#[trigger] acc@[j], rows@, maxes@, cap),
            forall|k1: int, k2: int| 0 <= k1 < k2 < acc.len() ==> acc@[k1].id != acc@[k2].id,
            forall|i: int| 0 <= i < rows.len() ==> has_tally(acc@, #[trigger] rows@[i].player_id),
        decreases acc.len() - k,
    {
        let t = &acc[k];
        let ghost before = out@;
        proof {
            assert(tally_of(acc@[k as int], rows@, maxes@, cap));
        }
        if t.games > 0 {
            out.push(
                PlayerStats {
                    id: t.id,
                    name: t.name.clone(),
                    wins: t.wins,
                    points: t.points,
                    games: t.games,
                    sum_of_squares: t.squares,
                },
            );
        }
        proof {
            assert forall|q: int| 0 <= q < out.len() implies has_tally(acc@.take(k + 1), #[trigger] out@[q].id) by {
                if q < before.len() {
                    assert(out@[q] == before[q]);
                    assert(has_tally(acc@.take(k as int), before[q].id));
                    let w = choose|w: int| 0 <= w < k && acc@.take(k as int)[w].id == before[q].id;
                    assert(acc@.take(k + 1)[w].id == out@[q].id);
                } else {
                    assert(acc@.take(k + 1)[k as int].id == out@[q].id);
                }
            }
            assert forall|k1: int, k2: int| 0 <= k1 < k2 < out.len() implies out@[k1].id != out@[k2].id by {
                if k2 == before.len() {
                    assert(has_tally(acc@.take(k as int), before[k1].id));
                    let w = choose|w: int| 0 <= w < k && acc@.take(k as int)[w].id == before[k1].id;
                    assert(acc@[w].id != acc@[k as int].id);
                } else {
                    assert(out@[k1] == before[k1] && out@[k2] == before[k2]);
                }
            }
            assert forall|j: int|
                0 <= j < k + 1 && counted_rows(rows@, acc@[j].id, cap).len() > 0 implies has_entry(
                out@,
                #[trigger] acc@[j].id,
            ) by {
                if j < k {
                    assert(has_entry(before, acc@[j].id));
                    let w = choose|w: int| 0 <= w < before.len() && before[w].id == acc@[j].id;
                    assert(out@[w] == before[w]);
                } else {
                    assert(out@[out.len() - 1].id == acc@[j].id);
                }
            }
        }
        k += 1;
    }
    proof {
        assert forall|i: int|
            0 <= i < rows.len() && counted_rows(rows@, rows@[i].player_id, cap).len() > 0 implies has_entry(
            out@,
            #[trigger] rows@[i].player_id,
        ) by {
            assert(has_tally(acc@, rows@[i].player_id));
            let w = choose|w: int| 0 <= w < acc.len() && acc@[w].id == rows@[i].player_id;
            assert(has_entry(out@, acc@[w].id));
        }
    }
    out
}

/// The rows that remain once every row of game `skip` is removed.
pub open spec fn without_game(rows: Seq<ScoreRow>, skip: Option<i32>) -> Seq<ScoreRow>
    decreases rows.len(),
{
    if rows.len() == 0 {
        Seq::empty()
    } else {
        let before = without_game(rows.drop_last(), skip);
        if skip == Some(rows.last().game_id) {
            before
        } else {
            before.push(rows.last())
        }
    }
}

/// Removes every row of game `skip`; with `None` nothing is removed.
pub fn drop_game(rows: &[ScoreRow], skip: Option<i32>) -> (r: Vec<ScoreRow>)
    ensures
        r@ == without_game(rows@, skip),
{
    let mut out: Vec<ScoreRow> = Vec::new();
    let mut i: usize = 0;
    while i < rows.len()
        invariant
            i <= rows.len(),
            out@ == without_game(rows@.take(i as int), skip),
        decreases rows.len() - i,
    {
        proof {
            assert(rows@.take(i as int + 1).drop_last() =~= rows@.take(i as int));
        }
        let keep = match skip {
            Some(g) => rows[i].game_id != g,
            None => true,
        };
        if keep {
            out.push(rows[i].duplicate());
        }
        i = i + 1;
    }
    proof {
        assert(rows@.take(rows.len() as int) =~= rows@);
    }
    out
}

/// Group statistics. `rows` are the group's score rows, most recent game
/// first; `maxes` the highest score of each game; `n` caps each player to the
/// first `n` of their rows in that order; `latest_game` is the group's most
/// recent game when that game is to be left out, and `None` otherwise.
pub fn group_stats(rows: &[ScoreRow], maxes: &[GameMax], n: Option<i32>, latest_game: Option<i32>) -> (r: Vec<PlayerStats>)
    ensures
        is_stats_of(r@, without_game(rows@, latest_game), maxes@, n),
{
    let kept = drop_game(rows, latest_game);
    aggregate(kept.as_slice(), maxes, n)
}

/// Head-to-head statistics over the rows of the players' common games.
pub fn get_head_to_head_stats(common_games: &[ScoreRow], number_games: Option<i32>, maxes: &[GameMax]) -> (r: Vec<PlayerStats>)
    ensures
        is_stats_of(r@, common_games@, maxes@, number_games),
{
    aggregate(common_games, maxes, number_games)
}

} // verus!
