use vstd::prelude::*;

use crate::errors::ApiError;
use crate::ids::{ids_of_text, parse_ids, parsed_ids};
use crate::stats::{
    accumulate, counted_rows, get_head_to_head_stats, is_stats_of, points_of, rows_of, tally_of, GameMax,
    PlayerStats, ScoreRow,
};

verus! {

/// One named player's scores over the common games, oldest first.
#[derive(Debug, PartialEq, Eq)]
pub struct HeadToHeadHistorySingle {
    pub id: i32,
    pub name: String,
    pub history: Vec<i32>,
}

/// Statistics and score histories of a set of players over the games that
/// all of them played.
#[derive(Debug)]
pub struct HeadToHead {
    pub player_stats: Vec<PlayerStats>,
    pub histories: Vec<HeadToHeadHistorySingle>,
}

/// Player `pid` has a row in game `g`.
pub open spec fn played(rows: Seq<ScoreRow>, pid: i32, g: i32) -> bool {
    exists|j: int| 0 <= j < rows.len() && rows[j].player_id == pid && rows[j].game_id == g
}

/// Every one of `ids` has a row in game `g`.
pub open spec fn common_game(rows: Seq<ScoreRow>, ids: Seq<i32>, g: i32) -> bool {
    forall|k: int| 0 <= k < ids.len() ==> played(rows, #[trigger] ids[k], g)
}

/// The rows of `src` that belong to one of `ids` and to a game that all of
/// `ids` played in `all`.
pub open spec fn common_rows(src: Seq<ScoreRow>, all: Seq<ScoreRow>, ids: Seq<i32>) -> Seq<ScoreRow>
    decreases src.len(),
{
    if src.len() == 0 {
        Seq::empty()
    } else {
        let before = common_rows(src.drop_last(), all, ids);
        let r = src.last();
        if ids.contains(r.player_id) && common_game(all, ids, r.game_id) {
            before.push(r)
        } else {
            before
        }
    }
}

fn has_played(rows: &[ScoreRow], pid: i32, g: i32) -> (r: bool)
    ensures
        r == played(rows@, pid, g),
{
    let mut j: usize = 0;
    while j < rows.len()
        invariant
            j <= rows.len(),
            forall|q: int| 0 <= q < j ==> !(rows@[q].player_id == pid && rows@[q].game_id == g),
        decreases rows.len() - j,
    {
        if rows[j].player_id == pid && rows[j].game_id == g {
            return true;
        }
        j += 1;
    }
    false
}

fn is_common_game(rows: &[ScoreRow], ids: &[i32], g: i32) -> (r: bool)
    ensures
        r == common_game(rows@, ids@, g),
{
    let mut k: usize = 0;
    while k < ids.len()
        invariant
            k <= ids.len(),
            forall|q: int| 0 <= q < k ==> played(rows@, #[trigger] ids@[q], g),
        decreases ids.len() - k,
    {
        if !has_played(rows, ids[k], g) {
            return false;
        }
        k += 1;
    }
    true
}

fn is_named(ids: &[i32], pid: i32) -> (r: bool)
    ensures
        r == ids@.contains(pid),
{
    let mut k: usize = 0;
    while k < ids.len()
        invariant
            k <= ids.len(),
            forall|q: int| 0 <= q < k ==> ids@[q] != pid,
        decreases ids.len() - k,
    {
        if ids[k] == pid {
            return true;
        }
        k += 1;
    }
    false
}

/// The rows of the named players in the games that every one of them played.
/// `rows` are all score rows of the group, in the order wanted for the result;
/// a game that only some of the players played is left out entirely.
pub fn get_common_player_games(ids: &[i32], rows: &[ScoreRow]) -> (r: Vec<ScoreRow>)
    ensures
        r@ == common_rows(rows@, rows@, ids@),
{
    let mut out: Vec<ScoreRow> = Vec::new();
    let mut i: usize = 0;
    while i < rows.len()
        invariant
            i <= rows.len(),
            out@ == common_rows(rows@.take(i as int), rows@, ids@),
        decreases rows.len() - i,
    {
        proof {
            assert(rows@.take(i as int + 1).drop_last() =~= rows@.take(i as int));
        }
        let row = &rows[i];
        if is_named(ids, row.player_id) && is_common_game(rows, ids, row.game_id) {
            out.push(row.duplicate());
        }
        i += 1;
    }
    proof {
        assert(rows@.take(rows.len() as int) =~= rows@);
    }
    out
}

/// `s` in the reverse order.
pub open spec fn reversed(s: Seq<i32>) -> Seq<i32> {
    Seq::new(s.len(), |i: int| s[s.len() - 1 - i])
}

/// Some entry of `out` is about player `pid`.
pub open spec fn has_history(out: Seq<HeadToHeadHistorySingle>, pid: i32) -> bool {
    exists|k: int| 0 <= k < out.len() && out[k].id == pid
}

/// `out` holds one entry per player with a row, sorted by id, each with the
/// player's counted points in reverse iteration order.
pub open spec fn is_histories_of(out: Seq<HeadToHeadHistorySingle>, rows: Seq<ScoreRow>, cap: Option<i32>) -> bool {
    &&& forall|k: int| 0 <= k < out.len() ==> rows_of(rows, (#[trigger] out[k]).id).len() > 0
    &&& forall|k: int| 0 <= k < out.len() ==> (#[trigger] out[k]).name == rows_of(rows, out[k].id)[0].player_name
    &&& forall|k: int| 0 <= k < out.len() ==> (#[trigger] out[k]).history@ == reversed(
        points_of(counted_rows(rows, out[k].id, cap)),
    )
    &&& forall|k1: int, k2: int| 0 <= k1 < k2 < out.len() ==> out[k1].id < out[k2].id
    &&& forall|i: int| 0 <= i < rows.len() ==> has_history(out, #[trigger] rows[i].player_id)
}

/// `v` in the reverse order.
fn reversed_copy(v: &Vec<i32>) -> (r: Vec<i32>)
    ensures
        r@ == reversed(v@),
{
    let mut out: Vec<i32> = Vec::new();
    let mut j: usize = v.len();
    while j > 0
        invariant
            j <= v.len(),
            out@ == reversed(v@).take(v.len() - j),
        decreases j,
    {
        j -= 1;
        out.push(v[j]);
        proof {
            assert(out@ =~= reversed(v@).take(v.len() - j));
        }
    }
    proof {
        assert(reversed(v@).take(v.len() as int) =~= reversed(v@));
    }
    out
}

spec fn in_prefix(acc: Seq<crate::stats::PlayerTally>, k: int, x: i32) -> bool {
    exists|j: int| 0 <= j < k && acc[j].id == x
}

/// The position at which an entry for `id` keeps `out` sorted by id.
fn insert_position(out: &Vec<HeadToHeadHistorySingle>, id: i32) -> (r: usize)
    requires
        forall|k1: int, k2: int| 0 <= k1 < k2 < out.len() ==> out@[k1].id < out@[k2].id,
    ensures
        r <= out.len(),
        forall|k: int| 0 <= k < r ==> out@[k].id < id,
        forall|k: int| r <= k < out.len() ==> out@[k].id >= id,
{
    let mut k: usize = 0;
    while k < out.len() && out[k].id < id
        invariant
            k <= out.len(),
            forall|q: int| 0 <= q < k ==> out@[q].id < id,
        decreases out.len() - k,
    {
        k += 1;
    }
    proof {
        assert forall|q: int| k <= q < out.len() implies out@[q].id >= id by {
            if q > k {
                assert(out@[k as int].id < out@[q].id);
            }
        }
    }
    k
}

/// Per-player score histories over head-to-head rows (most recent game
/// first): each named player's first `number_games` rows, put back in
/// chronological order, with the players sorted by id.
pub fn get_head_to_head_histories(common_games: &[ScoreRow], number_games: Option<i32>) -> (r: Vec<HeadToHeadHistorySingle>)
    ensures
        is_histories_of(r@, common_games@, number_games),
{
    let no_maxes: Vec<GameMax> = Vec::new();
    let acc = accumulate(common_games, no_maxes.as_slice(), number_games);
    let mut out: Vec<HeadToHeadHistorySingle> = Vec::new();
    let mut k: usize = 0;
    while k < acc.len()
        invariant
            k <= acc.len(),
            forall|j: int| 0 <= j < acc.len() ==> tally_of(#[trigger] acc@[j], common_games@, no_maxes@, number_games),
            forall|k1: int, k2: int| 0 <= k1 < k2 < acc.len() ==> acc@[k1].id != acc@[k2].id,
            forall|i: int| 0 <= i < common_games.len() ==> crate::stats::has_tally(acc@, #[trigger] common_games@[i].player_id),
            forall|q: int| 0 <= q < out.len() ==> rows_of(common_games@, (#[trigger] out@[q]).id).len() > 0,
            forall|q: int| 0 <= q < out.len() ==> (#[trigger] out@[q]).name == rows_of(common_games@, out@[q].id)[0].player_name,
            forall|q: int| 0 <= q < out.len() ==> (#[trigger] out@[q]).history@ == reversed(
                points_of(counted_rows(common_games@, out@[q].id, number_games)),
            ),
            forall|k1: int, k2: int| 0 <= k1 < k2 < out.len() ==> out@[k1].id < out@[k2].id,
            forall|j: int| 0 <= j < k ==> has_history(out@, #[trigger] acc@[j].id),
            forall|q: int| 0 <= q < out.len() ==> in_prefix(acc@, k as int, #[trigger] out@[q].id),
        decreases acc.len() - k,
    {
        let id = acc[k].id;
        proof {
            assert(tally_of(acc@[k as int], common_games@, no_maxes@, number_games));
        }
        let entry = HeadToHeadHistorySingle { id, name: acc[k].name.clone(), history: reversed_copy(&acc[k].kept) };
        let pos = insert_position(&out, id);
        let ghost before = out@;
        out.insert(pos, entry);
        proof {
            assert(out@ == before.insert(pos as int, entry));
            assert forall|q: int| 0 <= q < out.len() implies #[trigger] out@[q] == if q < pos {
                before[q]
            } else if q == pos {
                entry
            } else {
                before[q - 1]
            } by {}
            assert forall|j: int| 0 <= j < k + 1 implies has_history(out@, #[trigger] acc@[j].id) by {
                if j < k {
                    assert(has_history(before, acc@[j].id));
                    let w = choose|w: int| 0 <= w < before.len() && before[w].id == acc@[j].id;
                    if w < pos {
                        assert(out@[w].id == acc@[j].id);
                    } else {
                        assert(out@[w + 1].id == acc@[j].id);
                    }
                } else {
                    assert(out@[pos as int].id == acc@[j].id);
                }
            }
            assert forall|q: int| 0 <= q < out.len() implies in_prefix(acc@, k + 1, #[trigger] out@[q].id) by {
                if q == pos as int {
                    assert(acc@[k as int].id == out@[q].id);
                } else {
                    let b = if q < pos { q } else { q - 1 };
                    assert(out@[q] == before[b]);
                    assert(in_prefix(acc@, k as int, before[b].id));
                    let j = choose|j: int| 0 <= j < k && acc@[j].id == before[b].id;
                    assert(acc@[j].id == out@[q].id);
                }
            }
            assert forall|k1: int, k2: int| 0 <= k1 < k2 < out.len() implies out@[k1].id < out@[k2].id by {
                if k1 == pos as int {
                    assert(before[k2 - 1].id >= id);
                    assert(in_prefix(acc@, k as int, before[k2 - 1].id));
                    let j = choose|j: int| 0 <= j < k && acc@[j].id == before[k2 - 1].id;
                    assert(acc@[j].id != acc@[k as int].id);
                } else if k2 == pos as int {
                    assert(before[k1].id < id);
                }
            }
        }
        k += 1;
    }
    proof {
        assert forall|i: int| 0 <= i < common_games.len() implies has_history(out@, #[trigger] common_games@[i].player_id) by {
            assert(crate::stats::has_tally(acc@, common_games@[i].player_id));
            let w = choose|w: int| 0 <= w < acc.len() && acc@[w].id == common_games@[i].player_id;
            assert(has_history(out@, acc@[w].id));
        }
    }
    out
}

/// Head-to-head comparison in a group. `ids` is the percent-encoded,
/// comma-separated list of players; `rows` are all score rows of the group,
/// most recent game first; `maxes` the highest score of each game; `n` caps
/// each player to their first `n` common games in that order.
pub fn head_to_head_report(ids: &str, rows: &[ScoreRow], maxes: &[GameMax], n: Option<i32>) -> (r: Result<HeadToHead, ApiError>)
    ensures
        r is Err <==> parsed_ids(ids@) is None,
        !ids@.contains('%') ==> parsed_ids(ids@) == ids_of_text(ids@),
        r matches Err(e) ==> e == ApiError::Validation,
        r matches Ok(h) ==> ({
            let common = common_rows(rows@, rows@, parsed_ids(ids@)->0);
            &&& is_stats_of(h.player_stats@, common, maxes@, n)
            &&& is_histories_of(h.histories@, common, n)
        }),
{
    let named = match parse_ids(ids) {
        Ok(v) => v,
        Err(_) => {
            return Err(ApiError::Validation);
        },
    };
    let common = get_common_player_games(named.as_slice(), rows);
    let player_stats = get_head_to_head_stats(common.as_slice(), n, maxes);
    let histories = get_head_to_head_histories(common.as_slice(), n);
    Ok(HeadToHead { player_stats, histories })
}

} // verus!
