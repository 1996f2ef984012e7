use vstd::prelude::*;

use crate::context::RankingContext;

verus! {

/// One player of a roster, identified by `player_id`.
#[derive(Debug, Clone)]
pub struct Player {
    pub player_id: u16,
    pub nick: String,
    pub country: String,
    pub country_iso: String,
}

impl Player {
    /// A placeholder player: the largest id and empty text.
    pub fn empty() -> (r: Self)
        ensures
            r.player_id == u16::MAX,
            r.nick@.len() == 0,
            r.country@.len() == 0,
            r.country_iso@.len() == 0,
    {
        Player { player_id: u16::MAX, nick: String::new(), country: String::new(), country_iso: String::new() }
    }

    /// An exact copy of this player.
    pub fn duplicate(&self) -> (r: Self)
        ensures
            r == *self,
    {
        Player {
            player_id: self.player_id,
            nick: self.nick.clone(),
            country: self.country.clone(),
            country_iso: self.country_iso.clone(),
        }
    }
}

/// One game of a match, with each side's score.
#[derive(Debug, Clone)]
pub struct GameMap {
    pub map_name: String,
    pub team_1_score: u16,
    pub team_2_score: u16,
}

impl GameMap {
    /// Equal scores: the map has no winner.
    pub open spec fn tied(self) -> bool {
        self.team_1_score == self.team_2_score
    }

    /// Whether the map ended with equal scores.
    pub fn is_tied(&self) -> (r: bool)
        ensures
            r == self.tied(),
    {
        self.team_1_score == self.team_2_score
    }
}

/// A match between two teams at one moment. As read from a feed, its team and
/// event ids are the feed's own and its winner is side 1 or 2; once taken in
/// (see `intake`), team ids and the winner are positions in the team
/// collection and `event_id` a position in the event collection.
#[derive(Debug, Clone)]
pub struct Match {
    pub match_start_time: u32,
    pub team_1_id: usize,
    pub team_2_id: usize,
    pub team_1_name: String,
    pub team_2_name: String,
    pub team_1_players: Vec<Player>,
    pub team_2_players: Vec<Player>,
    pub event_id: usize,
    pub maps: Vec<GameMap>,
    pub winning_team: usize,
}

impl Match {
    /// `id` is one of the two sides.
    pub open spec fn in_game(self, id: usize) -> bool {
        self.team_1_id == id || self.team_2_id == id
    }

    /// The side facing `id`.
    pub open spec fn opponent(self, id: usize) -> usize {
        if id == self.team_1_id {
            self.team_2_id
        } else {
            self.team_1_id
        }
    }

    /// The winner is one of the two sides.
    pub open spec fn winner_ok(self) -> bool {
        self.in_game(self.winning_team)
    }

    /// The index of the first map with equal scores at or after `from`, if any.
    pub open spec fn first_tie_from(self, from: int) -> Option<usize>
        decreases self.maps@.len() - from,
    {
        if from < 0 || from >= self.maps@.len() {
            None
        } else if self.maps@[from].tied() {
            Some(from as usize)
        } else {
            self.first_tie_from(from + 1)
        }
    }

    /// No map of this match is tied.
    pub open spec fn no_ties(self) -> bool {
        forall|j: int| 0 <= j < self.maps@.len() ==> !(#[trigger] self.maps@[j]).tied()
    }

    /// Both sides are teams of a collection of `n_teams`, the winner is one of
    /// them, and every map has a winner.
    pub open spec fn valid(self, n_teams: nat) -> bool {
        &&& self.team_1_id < n_teams
        &&& self.team_2_id < n_teams
        &&& self.winner_ok()
        &&& self.no_ties()
    }

    /// The side that did not win.
    pub fn losing_team_id(&self) -> (r: usize)
        requires
            self.winner_ok(),
        ensures
            r == self.opponent(self.winning_team),
    {
        self.other_team(self.winning_team)
    }

    /// Whether `id` is one of the two sides.
    pub fn is_in_game(&self, id: usize) -> (r: bool)
        ensures
            r == self.in_game(id),
    {
        self.team_1_id == id || self.team_2_id == id
    }

    /// The side facing `id`, which must be one of the two sides.
    pub fn other_team(&self, id: usize) -> (r: usize)
        requires
            self.in_game(id),
        ensures
            r == self.opponent(id),
            self.in_game(r),
    {
        if id == self.team_1_id {
            self.team_2_id
        } else {
            self.team_1_id
        }
    }

    /// The index of the first tied map, if any.
    pub fn first_tied_map(&self) -> (r: Option<usize>)
        ensures
            r == self.first_tie_from(0),
            r is None <==> self.no_ties(),
    {
        let n = self.maps.len();
        let mut j: usize = 0;
        while j < n
            invariant
                n == self.maps@.len(),
                0 <= j <= n,
                self.first_tie_from(0) == self.first_tie_from(j as int),
                forall|k: int| 0 <= k < j ==> !(#[trigger] self.maps@[k]).tied(),
            decreases n - j,
        {
            if self.maps[j].is_tied() {
                return Some(j);
            }
            j += 1;
        }
        None
    }
}

/// One payout of an event. Once rosters are merged, `team_id` is a team index
/// and `is_in_ranking` is set.
#[derive(Debug, Clone, Copy, PartialEq, Eq, Structural)]
pub struct PrizeDist {
    pub placement: u32,
    pub team_id: usize,
    pub is_in_ranking: bool,
    pub shared: bool,
}

/// A tournament with its payouts. `last_match_time` is the start of its
/// latest match inside the time window.
#[derive(Debug, Clone)]
pub struct Event {
    pub id: usize,
    pub name: String,
    pub is_lan: bool,
    pub last_match_time: u32,
    pub prize_distribution: Vec<PrizeDist>,
}

impl Event {
    /// An event whose latest match time is not known yet.
    pub fn new(id: usize, name: String, is_lan: bool, prize_distribution: Vec<PrizeDist>) -> (r: Self)
        ensures
            r.id == id,
            r.name == name,
            r.is_lan == is_lan,
            r.last_match_time == 0,
            r.prize_distribution == prize_distribution,
    {
        Event { id, name, is_lan, last_match_time: 0, prize_distribution }
    }
}

/// A team: the five-player core that identifies it and its match record.
#[derive(Debug, Clone)]
pub struct Team {
    pub name: String,
    pub core: [Player; 5],
    pub matches_played: u32,
    pub matches_won: u32,
}

impl Team {
    /// A team with no matches yet.
    pub fn new(name: String, core: [Player; 5]) -> (r: Self)
        ensures
            r.name == name,
            r.core == core,
            r.matches_played == 0,
            r.matches_won == 0,
    {
        Team { name, core, matches_played: 0, matches_won: 0 }
    }

    /// Enough matches played and won to appear in a ranking.
    pub open spec fn eligible(self, ctx: RankingContext) -> bool {
        self.matches_played >= ctx.min_matches_for_ranking && self.matches_won
            >= ctx.min_wins_for_ranking
    }

    /// Whether this team has played and won enough matches to be ranked.
    pub fn ranking_eligible(&self, ctx: &RankingContext) -> (r: bool)
        ensures
            r == self.eligible(*ctx),
    {
        self.matches_played >= ctx.min_matches_for_ranking && self.matches_won
            >= ctx.min_wins_for_ranking
    }
}

} // verus!
