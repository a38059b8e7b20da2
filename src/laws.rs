use vstd::prelude::*;

use crate::head_to_head::{common_game, common_rows, played};
use crate::stats::{
    counted_rows, describes, is_stats_of, is_win, points_total, rows_of, squares_total,
    without_game, wins_in, GameMax, PlayerStats, ScoreRow,
};

verus! {

/// Sum over the rows of `(a * points - b)^2`.
pub open spec fn scaled_deviations(s: Seq<ScoreRow>, a: int, b: int) -> int
    decreases s.len(),
{
    if s.len() == 0 {
        0
    } else {
        let d = a * s.last().points - b;
        scaled_deviations(s.drop_last(), a, b) + d * d
    }
}

proof fn lemma_scaled_deviations_expand(s: Seq<ScoreRow>, a: int, b: int)
    ensures
        scaled_deviations(s, a, b) == a * a * squares_total(s) - 2 * a * b * points_total(s) + s.len() * (b * b),
    decreases s.len(),
{
    if s.len() > 0 {
        lemma_scaled_deviations_expand(s.drop_last(), a, b);
        let x = s.last().points as int;
        let q = squares_total(s.drop_last());
        let p = points_total(s.drop_last());
        let m = s.drop_last().len() as int;
        assert((a * x - b) * (a * x - b) == a * a * (x * x) - 2 * a * b * x + b * b) by (nonlinear_arith);
        assert(a * a * (q + x * x) == a * a * q + a * a * (x * x)) by (nonlinear_arith);
        assert(2 * a * b * (p + x) == 2 * a * b * p + 2 * a * b * x) by (nonlinear_arith);
        assert((m + 1) * (b * b) == m * (b * b) + b * b) by (nonlinear_arith);
    }
}

/// The closed form of the population variance agrees with its direct
/// definition: with `n` rows, point total `S` and total of squares `Q`,
/// `sum((x - S/n)^2) / n == Q/n - (S/n)^2`. Multiplied through by `n^3` this
/// reads `sum((n*x - S)^2) == n * (n*Q - S^2)`.
pub proof fn lemma_variance_closed_form(s: Seq<ScoreRow>)
    ensures
        scaled_deviations(s, s.len() as int, points_total(s)) == s.len() * (s.len() * squares_total(s)
            - points_total(s) * points_total(s)),
{
    let n = s.len() as int;
    let t = points_total(s);
    let q = squares_total(s);
    lemma_scaled_deviations_expand(s, n, t);
    assert(n * n * q - 2 * n * t * t + n * (t * t) == n * (n * q - t * t)) by (nonlinear_arith);
}

/// The statistics of a player hold the closed-form variance of exactly the
/// rows that were counted for them.
pub proof fn lemma_stats_variance(p: PlayerStats, rows: Seq<ScoreRow>, maxes: Seq<GameMax>, cap: Option<i32>)
    requires
        describes(p, rows, maxes, cap),
    ensures
        ({
            let c = counted_rows(rows, p.id, cap);
            scaled_deviations(c, p.games as int, p.points as int) == p.games * (p.games * p.sum_of_squares
                - p.points * p.points)
        }),
{
    lemma_variance_closed_form(counted_rows(rows, p.id, cap));
}

/// Leaving out the only game of a group leaves nothing: the statistics are
/// those of an empty group, with no player at all.
pub proof fn lemma_skip_only_game(rows: Seq<ScoreRow>, maxes: Seq<GameMax>, n: Option<i32>, g: i32, out: Seq<PlayerStats>)
    requires
        forall|i: int| 0 <= i < rows.len() ==> (#[trigger] rows[i]).game_id == g,
    ensures
        without_game(rows, Some(g)) == Seq::<ScoreRow>::empty(),
        is_stats_of(out, without_game(rows, Some(g)), maxes, n) <==> out.len() == 0,
        is_stats_of(out, without_game(rows, Some(g)), maxes, n) <==> is_stats_of(out, Seq::empty(), maxes, n),
    decreases rows.len(),
{
    if rows.len() > 0 {
        let front = rows.drop_last();
        assert forall|i: int| 0 <= i < front.len() implies (#[trigger] front[i]).game_id == g by {
            assert(front[i] == rows[i]);
        }
        lemma_skip_only_game(front, maxes, n, g, out);
        assert(rows.last() == rows[rows.len() - 1]);
    }
    if out.len() > 0 && is_stats_of(out, Seq::<ScoreRow>::empty(), maxes, n) {
        assert(describes(out[0], Seq::empty(), maxes, n));
    }
}

proof fn lemma_rows_of_concat(a: Seq<ScoreRow>, b: Seq<ScoreRow>, pid: i32)
    ensures
        rows_of(a + b, pid) == rows_of(a, pid) + rows_of(b, pid),
    decreases b.len(),
{
    if b.len() == 0 {
        assert(a + b =~= a);
        assert(rows_of(a, pid) + rows_of(b, pid) =~= rows_of(a, pid));
    } else {
        lemma_rows_of_concat(a, b.drop_last(), pid);
        assert((a + b).drop_last() =~= a + b.drop_last());
        assert((a + b).last() == b.last());
        if b.last().player_id == pid {
            assert(rows_of(a, pid) + rows_of(b.drop_last(), pid).push(b.last()) =~= (rows_of(a, pid) + rows_of(
                b.drop_last(),
                pid,
            )).push(b.last()));
        }
    }
}

proof fn lemma_points_concat(a: Seq<ScoreRow>, b: Seq<ScoreRow>, maxes: Seq<GameMax>)
    ensures
        points_total(a + b) == points_total(a) + points_total(b),
        squares_total(a + b) == squares_total(a) + squares_total(b),
        wins_in(a + b, maxes) == wins_in(a, maxes) + wins_in(b, maxes),
    decreases b.len(),
{
    if b.len() == 0 {
        assert(a + b =~= a);
    } else {
        lemma_points_concat(a, b.drop_last(), maxes);
        assert((a + b).drop_last() =~= a + b.drop_last());
    }
}

/// A game added in front of a group's rows (the most recent game comes first)
/// counts exactly once: without a cap, each player's games, points, squares
/// and wins grow by exactly that player's rows in the new game, and a player
/// without a row in it keeps the same statistics.
pub proof fn lemma_new_game_counted_once(new_rows: Seq<ScoreRow>, rows: Seq<ScoreRow>, maxes: Seq<GameMax>, pid: i32)
    ensures
        counted_rows(new_rows + rows, pid, None) == rows_of(new_rows, pid) + counted_rows(rows, pid, None),
        counted_rows(new_rows + rows, pid, None).len() == rows_of(new_rows, pid).len() + counted_rows(rows, pid, None).len(),
        points_total(counted_rows(new_rows + rows, pid, None)) == points_total(rows_of(new_rows, pid))
            + points_total(counted_rows(rows, pid, None)),
        squares_total(counted_rows(new_rows + rows, pid, None)) == squares_total(rows_of(new_rows, pid))
            + squares_total(counted_rows(rows, pid, None)),
        wins_in(counted_rows(new_rows + rows, pid, None), maxes) == wins_in(rows_of(new_rows, pid), maxes)
            + wins_in(counted_rows(rows, pid, None), maxes),
        rows_of(new_rows, pid).len() == 0 ==> counted_rows(new_rows + rows, pid, None) == counted_rows(rows, pid, None),
{
    lemma_rows_of_concat(new_rows, rows, pid);
    let all = rows_of(new_rows + rows, pid);
    assert(all.take(all.len() as int) =~= all);
    assert(rows_of(rows, pid).take(rows_of(rows, pid).len() as int) =~= rows_of(rows, pid));
    lemma_points_concat(rows_of(new_rows, pid), rows_of(rows, pid), maxes);
    if rows_of(new_rows, pid).len() == 0 {
        assert(rows_of(new_rows, pid) + rows_of(rows, pid) =~= rows_of(rows, pid));
    }
}

/// Recording the maximum of a new game leaves the wins of rows from other
/// games as they were.
pub proof fn lemma_new_maximum_keeps_wins(rows: Seq<ScoreRow>, maxes: Seq<GameMax>, m: GameMax)
    requires
        forall|i: int| 0 <= i < rows.len() ==> (#[trigger] rows[i]).game_id != m.game_id,
    ensures
        wins_in(rows, maxes.push(m)) == wins_in(rows, maxes),
    decreases rows.len(),
{
    if rows.len() > 0 {
        let front = rows.drop_last();
        assert forall|i: int| 0 <= i < front.len() implies (#[trigger] front[i]).game_id != m.game_id by {
            assert(front[i] == rows[i]);
        }
        lemma_new_maximum_keeps_wins(front, maxes, m);
        let r = rows.last();
        assert(r == rows[rows.len() - 1]);
        if is_win(maxes.push(m), r.game_id, r.points) {
            let k = choose|k: int|
                0 <= k < maxes.push(m).len() && maxes.push(m)[k].game_id == r.game_id && maxes.push(m)[k].max_score
                    == r.points;
            assert(k < maxes.len());
            assert(maxes[k] == maxes.push(m)[k]);
        }
        if is_win(maxes, r.game_id, r.points) {
            let k = choose|k: int| 0 <= k < maxes.len() && maxes[k].game_id == r.game_id && maxes[k].max_score == r.points;
            assert(maxes.push(m)[k] == maxes[k]);
        }
    }
}

/// The rows of `src` in game `g` whose player is one of `ids`.
pub open spec fn game_rows_of(src: Seq<ScoreRow>, g: i32, ids: Seq<i32>) -> Seq<ScoreRow>
    decreases src.len(),
{
    if src.len() == 0 {
        Seq::empty()
    } else {
        let before = game_rows_of(src.drop_last(), g, ids);
        let r = src.last();
        if r.game_id == g && ids.contains(r.player_id) {
            before.push(r)
        } else {
            before
        }
    }
}

proof fn lemma_common_rows_one_game(src: Seq<ScoreRow>, all: Seq<ScoreRow>, ids: Seq<i32>, g: i32)
    requires
        forall|h: i32| #[trigger] common_game(all, ids, h) <==> h == g,
    ensures
        common_rows(src, all, ids) == game_rows_of(src, g, ids),
    decreases src.len(),
{
    if src.len() > 0 {
        lemma_common_rows_one_game(src.drop_last(), all, ids, g);
        assert(common_game(all, ids, src.last().game_id) <==> src.last().game_id == g);
    }
}

/// Players who share exactly one game `g` are compared over that game
/// alone: the head-to-head rows are exactly their rows in `g`, whatever other
/// games each of them played without the others.
pub proof fn lemma_single_shared_game(rows: Seq<ScoreRow>, ids: Seq<i32>, g: i32)
    requires
        forall|k: int| 0 <= k < ids.len() ==> played(rows, #[trigger] ids[k], g),
        forall|h: i32| #[trigger] common_game(rows, ids, h) ==> h == g,
    ensures
        common_rows(rows, rows, ids) == game_rows_of(rows, g, ids),
{
    assert(common_game(rows, ids, g));
    lemma_common_rows_one_game(rows, rows, ids, g);
}

/// Sum of the wins over a list of statistics.
pub open spec fn total_wins(out: Seq<PlayerStats>) -> int
    decreases out.len(),
{
    if out.len() == 0 {
        0
    } else {
        total_wins(out.drop_last()) + out.last().wins
    }
}

/// Sum, over the players `ids`, of the wins among each one's rows.
spec fn wins_by_player(ids: Seq<i32>, rows: Seq<ScoreRow>, maxes: Seq<GameMax>) -> int
    decreases ids.len(),
{
    if ids.len() == 0 {
        0
    } else {
        wins_by_player(ids.drop_last(), rows, maxes) + wins_in(rows_of(rows, ids.last()), maxes)
    }
}

spec fn ids_of(out: Seq<PlayerStats>) -> Seq<i32> {
    out.map_values(|p: PlayerStats| p.id)
}

proof fn lemma_wins_by_player_empty(ids: Seq<i32>, maxes: Seq<GameMax>)
    ensures
        wins_by_player(ids, Seq::empty(), maxes) == 0,
    decreases ids.len(),
{
    if ids.len() > 0 {
        lemma_wins_by_player_empty(ids.drop_last(), maxes);
    }
}

proof fn lemma_wins_by_player_push(ids: Seq<i32>, rows: Seq<ScoreRow>, r: ScoreRow, maxes: Seq<GameMax>)
    requires
        forall|k1: int, k2: int| 0 <= k1 < k2 < ids.len() ==> ids[k1] != ids[k2],
    ensures
        wins_by_player(ids, rows.push(r), maxes) == wins_by_player(ids, rows, maxes) + if ids.contains(r.player_id)
            && is_win(maxes, r.game_id, r.points) {
            1int
        } else {
            0int
        },
    decreases ids.len(),
{
    if ids.len() > 0 {
        let front = ids.drop_last();
        let x = ids.last();
        lemma_wins_by_player_push(front, rows, r, maxes);
        assert(rows.push(r).drop_last() =~= rows);
        assert(rows.push(r).last() == r);
        assert(rows_of(rows, x).push(r).drop_last() =~= rows_of(rows, x));
        if ids.contains(r.player_id) {
            let w = choose|w: int| 0 <= w < ids.len() && ids[w] == r.player_id;
            if x == r.player_id {
                assert(w == ids.len() - 1);
                assert(!front.contains(r.player_id));
            } else {
                assert(front[w] == r.player_id);
            }
        } else {
            assert(!front.contains(r.player_id)) by {
                if front.contains(r.player_id) {
                    let w = choose|w: int| 0 <= w < front.len() && front[w] == r.player_id;
                    assert(ids[w] == r.player_id);
                }
            }
        }
    }
}

proof fn lemma_wins_by_player_all(ids: Seq<i32>, rows: Seq<ScoreRow>, maxes: Seq<GameMax>)
    requires
        forall|k1: int, k2: int| 0 <= k1 < k2 < ids.len() ==> ids[k1] != ids[k2],
        forall|i: int| 0 <= i < rows.len() ==> ids.contains(#[trigger] rows[i].player_id),
    ensures
        wins_by_player(ids, rows, maxes) == wins_in(rows, maxes),
    decreases rows.len(),
{
    if rows.len() == 0 {
        assert(rows =~= Seq::empty());
        lemma_wins_by_player_empty(ids, maxes);
    } else {
        let front = rows.drop_last();
        assert forall|i: int| 0 <= i < front.len() implies ids.contains(#[trigger] front[i].player_id) by {
            assert(front[i] == rows[i]);
        }
        lemma_wins_by_player_all(ids, front, maxes);
        assert(front.push(rows.last()) =~= rows);
        assert(ids.contains(rows[rows.len() - 1].player_id));
        lemma_wins_by_player_push(ids, front, rows.last(), maxes);
    }
}

proof fn lemma_total_wins_split(out: Seq<PlayerStats>, rows: Seq<ScoreRow>, maxes: Seq<GameMax>)
    requires
        forall|k: int| 0 <= k < out.len() ==> describes(#[trigger] out[k], rows, maxes, None),
    ensures
        total_wins(out) == wins_by_player(ids_of(out), rows, maxes),
    decreases out.len(),
{
    if out.len() > 0 {
        let front = out.drop_last();
        assert forall|k: int| 0 <= k < front.len() implies describes(#[trigger] front[k], rows, maxes, None) by {
            assert(front[k] == out[k]);
        }
        lemma_total_wins_split(front, rows, maxes);
        assert(ids_of(out).drop_last() =~= ids_of(front));
        let p = out.last();
        assert(describes(out[out.len() - 1], rows, maxes, None));
        let all = rows_of(rows, p.id);
        assert(all.take(all.len() as int) =~= all);
    }
}

pub(crate) proof fn lemma_row_player_has_rows(rows: Seq<ScoreRow>, i: int)
    requires
        0 <= i < rows.len(),
    ensures
        rows_of(rows, rows[i].player_id).len() > 0,
    decreases rows.len(),
{
    if i < rows.len() - 1 {
        let front = rows.drop_last();
        assert(front[i] == rows[i]);
        lemma_row_player_has_rows(front, i);
    }
}

/// Every player whose score equals the maximum of their game is credited with
/// that win, ties included: without a cap, the wins summed over all players
/// equal the number of rows whose points are their game's maximum.
pub proof fn lemma_wins_count_every_tied_maximum(out: Seq<PlayerStats>, rows: Seq<ScoreRow>, maxes: Seq<GameMax>)
    requires
        is_stats_of(out, rows, maxes, None),
    ensures
        total_wins(out) == wins_in(rows, maxes),
{
    let ids = ids_of(out);
    lemma_total_wins_split(out, rows, maxes);
    assert forall|k1: int, k2: int| 0 <= k1 < k2 < ids.len() implies ids[k1] != ids[k2] by {
        assert(out[k1].id != out[k2].id);
    }
    assert forall|i: int| 0 <= i < rows.len() implies ids.contains(#[trigger] rows[i].player_id) by {
        lemma_row_player_has_rows(rows, i);
        let all = rows_of(rows, rows[i].player_id);
        assert(all.take(all.len() as int) =~= all);
        assert(crate::stats::has_entry(out, rows[i].player_id));
        let w = choose|w: int| 0 <= w < out.len() && out[w].id == rows[i].player_id;
        assert(ids[w] == rows[i].player_id);
    }
    lemma_wins_by_player_all(ids, rows, maxes);
}

} // verus!
