use vstd::prelude::*;

verus! {

/// Badge tiers, highest first. A score earns the highest tier whose threshold
/// it reaches, as a fraction of the group's maximum score: star 100%, gold
/// 94%, silver 88%, bronze 83%.
#[derive(Debug, Clone, Copy, PartialEq, Eq, Structural)]
pub enum BadgeTier {
    Star,
    Gold,
    Silver,
    Bronze,
}

/// The tier that `score` earns against `max_score`, if any.
pub open spec fn tier_of(score: i32, max_score: i32) -> Option<BadgeTier> {
    let s = score as int;
    let m = max_score as int;
    if s >= m {
        Some(BadgeTier::Star)
    } else if 100 * s >= 94 * m {
        Some(BadgeTier::Gold)
    } else if 100 * s >= 88 * m {
        Some(BadgeTier::Silver)
    } else if 100 * s >= 83 * m {
        Some(BadgeTier::Bronze)
    } else {
        None
    }
}

/// The tier that `score` earns against `max_score`, if any.
pub fn badge_tier(score: i32, max_score: i32) -> (r: Option<BadgeTier>)
    ensures
        r == tier_of(score, max_score),
{
    let s = score as i64;
    let m = max_score as i64;
    if s >= m {
        Some(BadgeTier::Star)
    } else if 100 * s >= 94 * m {
        Some(BadgeTier::Gold)
    } else if 100 * s >= 88 * m {
        Some(BadgeTier::Silver)
    } else if 100 * s >= 83 * m {
        Some(BadgeTier::Bronze)
    } else {
        None
    }
}

/// How many times a player earned each tier.
#[derive(Debug, Clone, Copy, PartialEq, Eq, Structural)]
pub struct Badges {
    pub star: usize,
    pub gold: usize,
    pub silver: usize,
    pub bronze: usize,
}

impl Badges {
    pub open spec fn total(self) -> int {
        self.star + self.gold + self.silver + self.bronze
    }

    /// These counts with one more of tier `t`, if there is one.
    pub open spec fn with(self, t: Option<BadgeTier>) -> Badges {
        match t {
            None => self,
            Some(BadgeTier::Star) => Badges { star: (self.star + 1) as usize, ..self },
            Some(BadgeTier::Gold) => Badges { gold: (self.gold + 1) as usize, ..self },
            Some(BadgeTier::Silver) => Badges { silver: (self.silver + 1) as usize, ..self },
            Some(BadgeTier::Bronze) => Badges { bronze: (self.bronze + 1) as usize, ..self },
        }
    }

    /// No badge of any tier.
    pub fn new() -> (r: Badges)
        ensures
            r == (Badges { star: 0, gold: 0, silver: 0, bronze: 0 }),
    {
        Badges { star: 0, gold: 0, silver: 0, bronze: 0 }
    }
}

/// The badges earned by a run of scores.
pub open spec fn badges_of(scores: Seq<i32>, max_score: i32) -> Badges
    decreases scores.len(),
{
    if scores.len() == 0 {
        Badges { star: 0, gold: 0, silver: 0, bronze: 0 }
    } else {
        badges_of(scores.drop_last(), max_score).with(tier_of(scores.last(), max_score))
    }
}

/// Counts the badges that `scores` earn against `max_score`; each score
/// counts towards one tier at most.
pub fn count_badges(scores: &[i32], max_score: i32) -> (r: Badges)
    ensures
        r == badges_of(scores@, max_score),
{
    let mut b = Badges::new();
    let mut i: usize = 0;
    while i < scores.len()
        invariant
            i <= scores.len(),
            b == badges_of(scores@.take(i as int), max_score),
            b.total() <= i,
        decreases scores.len() - i,
    {
        proof {
            assert(scores@.take(i as int + 1).drop_last() =~= scores@.take(i as int));
            assert(scores@.take(i as int + 1).last() == scores@[i as int]);
        }
        match badge_tier(scores[i], max_score) {
            None => {},
            Some(BadgeTier::Star) => b.star = b.star + 1,
            Some(BadgeTier::Gold) => b.gold = b.gold + 1,
            Some(BadgeTier::Silver) => b.silver = b.silver + 1,
            Some(BadgeTier::Bronze) => b.bronze = b.bronze + 1,
        }
        i += 1;
    }
    proof {
        assert(scores@.take(scores.len() as int) =~= scores@);
    }
    b
}

/// One player's score history in a group.
#[derive(Debug)]
pub struct PlayerScores {
    pub id: i32,
    pub scores: Vec<i32>,
}

/// A player's badges.
#[derive(Debug, Clone, Copy, PartialEq, Eq)]
pub struct BadgesWithId {
    pub id: i32,
    pub badges: Badges,
}

/// The group has no maximum score, so its players cannot earn badges.
#[derive(Debug, Clone, Copy, PartialEq, Eq)]
pub struct NoMaxScoreErr;

/// The badges of each player of a group, in the order of `players`. Fails
/// when the group has no maximum score.
pub fn get_badges(max_score: Option<i32>, players: &[PlayerScores]) -> (r: Result<Vec<BadgesWithId>, NoMaxScoreErr>)
    ensures
        r is Err <==> max_score is None,
        r matches Ok(v) ==> v.len() == players.len() && forall|k: int| 0 <= k < v.len() ==> (#[trigger] v@[k]).id
            == players@[k].id && v@[k].badges == badges_of(players@[k].scores@, max_score->0),
{
    let m = match max_score {
        Some(m) => m,
        None => {
            return Err(NoMaxScoreErr);
        },
    };
    let mut out: Vec<BadgesWithId> = Vec::new();
    let mut k: usize = 0;
    while k < players.len()
        invariant
            k <= players.len(),
            max_score == Some(m),
            out.len() == k,
            forall|j: int| 0 <= j < k ==> (#[trigger] out@[j]).id == players@[j].id && out@[j].badges == badges_of(
                players@[j].scores@,
                m,
            ),
        decreases players.len() - k,
    {
        let badges = count_badges(players[k].scores.as_slice(), m);
        out.push(BadgesWithId { id: players[k].id, badges });
        k += 1;
    }
    Ok(out)
}

/// The tiers are exclusive and cover the thresholds: a score adds one badge,
/// of exactly one tier, when it reaches at least the bronze threshold, and no
/// badge otherwise.
pub proof fn lemma_tiers_exclusive(b: Badges, score: i32, max_score: i32)
    requires
        b.total() < usize::MAX,
    ensures
        ({
            let reaches = score >= max_score || 100 * (score as int) >= 83 * (max_score as int);
            let after = b.with(tier_of(score, max_score));
            &&& after.star >= b.star && after.gold >= b.gold && after.silver >= b.silver && after.bronze >= b.bronze
            &&& reaches ==> after.total() == b.total() + 1
            &&& !reaches ==> after == b
        }),
{
}

} // verus!
