use vstd::prelude::*;

verus! {

/// A player as listed.
#[derive(Debug, PartialEq, Eq)]
pub struct Player {
    pub id: i32,
    pub name: String,
}

/// One score of a new game.
#[derive(Debug, Clone, Copy, PartialEq, Eq, Structural)]
pub struct GameScore {
    pub player_id: i32,
    pub score: i32,
}

/// A new game: its group and one score per participant.
#[derive(Debug)]
pub struct Game {
    pub scores: Vec<GameScore>,
    pub group_id: i32,
}

/// A group, by id.
#[derive(Debug, Clone, Copy, PartialEq, Eq, Structural)]
pub struct GroupIdData {
    pub group_id: i32,
}

/// A new group: its name and, optionally, the highest score a game can give.
#[derive(Debug)]
pub struct CreateGroupData {
    pub name: String,
    pub max_score: Option<i32>,
}

/// Options of the group statistics: the number of games counted per player,
/// and whether the group's most recent game is left out.
#[derive(Debug, Clone, Copy, PartialEq, Eq)]
pub struct GetStatsData {
    pub n: Option<i32>,
    pub skip_most_recent: bool,
}

/// A player's history in a group, optionally its last `n` games.
#[derive(Debug, Clone, Copy, PartialEq, Eq)]
pub struct HistoryData {
    pub group_id: i32,
    pub n: Option<usize>,
}

/// A new player.
#[derive(Debug)]
pub struct CreatePlayerData {
    pub name: String,
}

/// Login credentials.
#[derive(Debug)]
pub struct AuthData {
    pub name: String,
    pub password: String,
}

/// Players of a group, as a comma-separated list of ids.
#[derive(Debug)]
pub struct GetBadgesData {
    pub ids: String,
    pub group_id: i32,
}

/// A head-to-head request: the comma-separated, percent-encoded ids and the
/// number of common games counted per player.
#[derive(Debug)]
pub struct HeadToHeadData {
    pub ids: String,
    pub n: Option<i32>,
}

/// A group as stored.
#[derive(Debug)]
pub struct Group {
    pub id: i32,
    pub name: String,
    pub max_score: Option<i32>,
    pub archived: bool,
}

} // verus!
