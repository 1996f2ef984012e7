use team_rating::context::RankingContext;
use team_rating::error::RankError;
use team_rating::model::{Event, GameMap, Match, Player, PrizeDist, Team};
use team_rating::propagation::{map_results, validate_matches};
use team_rating::roster::{insert_team, shares_core};
use team_rating::seeding::{beaten_opponents, ranked_payouts, won_matches};
use team_rating::selection::{best_indices, nth_highest};
use team_rating::standings::eligible_teams;

fn player(id: u16) -> Player {
    Player { player_id: id, nick: format!("p{id}"), country: String::new(), country_iso: String::new() }
}

fn roster(ids: [u16; 5]) -> Vec<Player> {
    ids.iter().map(|&i| player(i)).collect()
}

fn game(a: u16, b: u16) -> GameMap {
    GameMap { map_name: String::from("map"), team_1_score: a, team_2_score: b }
}

fn game_match(start: u32, t1: usize, t2: usize, winner: usize, maps: Vec<GameMap>) -> Match {
    Match {
        match_start_time: start,
        team_1_id: t1,
        team_2_id: t2,
        team_1_name: String::from("one"),
        team_2_name: String::from("two"),
        team_1_players: roster([1, 2, 3, 4, 5]),
        team_2_players: roster([6, 7, 8, 9, 10]),
        event_id: 0,
        maps,
        winning_team: winner,
    }
}

fn team_with(played: u32, won: u32) -> Team {
    let mut t = Team::new(String::from("t"), [player(1), player(2), player(3), player(4), player(5)]);
    t.matches_played = played;
    t.matches_won = won;
    t
}

#[test]
fn nine_matches_is_not_eligible() {
    let ctx = RankingContext::default();
    assert!(!team_with(9, 9).ranking_eligible(&ctx));
    assert!(team_with(10, 1).ranking_eligible(&ctx));
    assert!(!team_with(10, 0).ranking_eligible(&ctx));
}

#[test]
fn eligible_teams_skips_short_records() {
    let ctx = RankingContext::default();
    let teams = vec![team_with(9, 9), team_with(10, 1), team_with(30, 0), team_with(12, 4)];
    assert_eq!(eligible_teams(&teams, &ctx), vec![1, 3]);
}

#[test]
fn two_map_sweep_moves_the_same_pair_twice() {
    let matches = vec![game_match(100, 0, 1, 0, vec![game(16, 0), game(16, 2)])];
    assert_eq!(validate_matches(&matches, 2), Ok(()));
    assert_eq!(map_results(&matches, 2), vec![(0, 1), (0, 1)]);
}

#[test]
fn map_results_follow_each_map_winner() {
    let matches = vec![
        game_match(100, 0, 1, 0, vec![game(16, 10), game(7, 16), game(19, 17)]),
        game_match(200, 2, 1, 1, vec![game(3, 16)]),
    ];
    assert_eq!(validate_matches(&matches, 3), Ok(()));
    assert_eq!(map_results(&matches, 3), vec![(0, 1), (1, 0), (0, 1), (1, 2)]);
}

#[test]
fn validation_reports_the_first_fault() {
    let ok = game_match(1, 0, 1, 1, vec![game(16, 3)]);
    let out_of_range = game_match(2, 0, 5, 0, vec![game(16, 3)]);
    let bad_winner = game_match(3, 0, 1, 2, vec![game(16, 3)]);
    let tied = game_match(4, 0, 1, 0, vec![game(16, 3), game(15, 15)]);
    assert_eq!(
        validate_matches(&vec![ok.clone(), out_of_range.clone(), bad_winner.clone()], 3),
        Err(RankError::TeamOutOfRange { match_index: 1 })
    );
    assert_eq!(
        validate_matches(&vec![ok.clone(), bad_winner.clone(), tied.clone()], 3),
        Err(RankError::WinnerNotInMatch { match_index: 1 })
    );
    assert_eq!(
        validate_matches(&vec![ok.clone(), tied.clone()], 3),
        Err(RankError::TiedMap { match_index: 1, map_index: 1 })
    );
    assert_eq!(tied.first_tied_map(), Some(1));
    assert_eq!(ok.first_tied_map(), None);
}

#[test]
fn match_sides() {
    let m = game_match(1, 3, 7, 7, vec![game(16, 3)]);
    assert_eq!(m.losing_team_id(), 3);
    assert_eq!(m.other_team(3), 7);
    assert_eq!(m.other_team(7), 3);
    assert!(m.is_in_game(3));
    assert!(!m.is_in_game(4));
}

#[test]
fn context_checks() {
    let ctx = RankingContext::default();
    assert_eq!(ctx.check(10), Ok(()));
    assert_eq!(ctx.check(4), Err(RankError::BadOutlierCount));
    assert_eq!(ctx.check(9), Err(RankError::BadBucketSize));
    let mut zero = ctx;
    zero.top_outlier_count = 0;
    assert_eq!(zero.check(10), Err(RankError::BadOutlierCount));
    let mut narrow = ctx;
    narrow.time_window_start = 1000;
    narrow.time_window_end = 1500;
    narrow.time_grace_period = 500;
    assert_eq!(narrow.check(10), Err(RankError::EmptyTimeWindow));
}

#[test]
fn time_mod_fraction() {
    let mut ctx = RankingContext::default();
    ctx.time_window_start = 1000;
    ctx.time_window_end = 2000;
    ctx.time_grace_period = 200;
    assert_eq!(ctx.time_mod(500), (0, 800));
    assert_eq!(ctx.time_mod(1000), (0, 800));
    assert_eq!(ctx.time_mod(1400), (400, 800));
    assert_eq!(ctx.time_mod(1800), (800, 800));
    assert_eq!(ctx.time_mod(1950), (800, 800));
}

#[test]
fn nth_highest_counts_equal_values_separately() {
    let keys = vec![5, 9, 9, 3, 7];
    assert_eq!(nth_highest(&keys, 1), 1);
    assert_eq!(nth_highest(&keys, 2), 1);
    assert_eq!(nth_highest(&keys, 3), 4);
    assert_eq!(nth_highest(&keys, 4), 0);
    assert_eq!(nth_highest(&keys, 5), 3);
}

#[test]
fn best_indices_highest_first() {
    let keys = vec![5, 9, 9, 3, 7];
    assert_eq!(best_indices(&keys, 3), vec![1, 2, 4]);
    assert_eq!(best_indices(&keys, 10), vec![1, 2, 4, 0, 3]);
    assert_eq!(best_indices(&keys, 0), Vec::<usize>::new());
    assert_eq!(best_indices(&Vec::new(), 4), Vec::<usize>::new());
}

#[test]
fn wins_and_best_win_per_opponent() {
    let matches = vec![
        game_match(100, 0, 1, 0, vec![game(16, 1)]),
        game_match(50, 2, 0, 0, vec![game(1, 16)]),
        game_match(200, 1, 0, 0, vec![game(3, 16)]),
        game_match(300, 0, 2, 2, vec![game(3, 16)]),
        game_match(150, 0, 1, 0, vec![game(16, 4)]),
    ];
    assert_eq!(won_matches(&matches, 0), vec![0, 1, 2, 4]);
    assert_eq!(won_matches(&matches, 2), vec![3]);
    assert_eq!(won_matches(&matches, 1), Vec::<usize>::new());
    assert_eq!(beaten_opponents(&matches, 0), vec![2, 1]);
    assert_eq!(beaten_opponents(&matches, 2), vec![3]);
}

#[test]
fn equal_start_keeps_the_later_listed_win() {
    let matches = vec![
        game_match(100, 0, 1, 0, vec![game(16, 1)]),
        game_match(100, 0, 1, 0, vec![game(16, 2)]),
    ];
    assert_eq!(beaten_opponents(&matches, 0), vec![1]);
}

#[test]
fn payouts_in_ranking_only() {
    let pd = |team_id: usize, in_ranking: bool| PrizeDist { placement: 1, team_id, is_in_ranking: in_ranking, shared: false };
    let events = vec![
        Event::new(10, String::from("a"), true, vec![pd(0, true), pd(1, false), pd(2, true)]),
        Event::new(11, String::from("b"), false, vec![]),
        Event::new(12, String::from("c"), false, vec![pd(1, true)]),
    ];
    assert_eq!(events[0].last_match_time, 0);
    assert_eq!(ranked_payouts(&events), vec![(0, 0), (0, 2), (2, 0)]);
}

#[test]
fn rosters_sharing_three_players_merge() {
    let mut teams: Vec<Team> = Vec::new();
    assert_eq!(insert_team(&mut teams, "alpha", &roster([1, 2, 3, 4, 5])), 0);
    assert_eq!(insert_team(&mut teams, "beta", &roster([6, 7, 8, 9, 10])), 1);
    assert_eq!(insert_team(&mut teams, "alpha2", &roster([1, 2, 3, 11, 12])), 0);
    assert_eq!(insert_team(&mut teams, "gamma", &roster([1, 2, 11, 12, 13])), 2);
    assert_eq!(teams.len(), 3);
    assert_eq!(teams[0].name, "alpha");
    assert_eq!(teams[2].name, "gamma");
    assert_eq!(teams[2].core[4].player_id, 13);
    assert_eq!(teams[2].matches_played, 0);
}

#[test]
fn core_overlap_counts() {
    let core = [player(1), player(2), player(3), player(4), player(5)];
    assert!(shares_core(&core, &roster([5, 4, 3, 20, 21])));
    assert!(!shares_core(&core, &roster([5, 4, 30, 20, 21])));
    assert!(shares_core(&core, &vec![player(1), player(1), player(1)]));
}

#[test]
fn placeholder_player() {
    let p = Player::empty();
    assert_eq!(p.player_id, u16::MAX);
    assert!(p.nick.is_empty());
    let q = player(4).duplicate();
    assert_eq!(q.player_id, 4);
    assert_eq!(q.nick, "p4");
}

#[test]
fn nth_highest_edges() {
    assert_eq!(nth_highest(&vec![4, 4, 4], 1), 0);
    assert_eq!(nth_highest(&vec![4, 4, 4], 3), 0);
    assert_eq!(nth_highest(&vec![1, 2, 3, 4], 4), 0);
    assert_eq!(nth_highest(&vec![0, u64::MAX], 1), 1);
    assert_eq!(nth_highest(&vec![42], 1), 0);
}

#[test]
fn best_indices_ties_keep_list_order() {
    assert_eq!(best_indices(&vec![2, 2, 2, 2], 3), vec![0, 1, 2]);
    assert_eq!(best_indices(&vec![1, 3, 3, 1], 4), vec![1, 2, 0, 3]);
}

#[test]
fn empty_inputs() {
    let none: Vec<Match> = Vec::new();
    assert_eq!(validate_matches(&none, 0), Ok(()));
    assert_eq!(map_results(&none, 0), Vec::<(usize, usize)>::new());
    assert_eq!(won_matches(&none, 0), Vec::<usize>::new());
    assert_eq!(beaten_opponents(&none, 0), Vec::<usize>::new());
    assert_eq!(eligible_teams(&Vec::new(), &RankingContext::default()), Vec::<usize>::new());
    assert_eq!(ranked_payouts(&Vec::new()), Vec::<(usize, usize)>::new());
}

#[test]
fn match_without_maps_moves_nothing() {
    let matches = vec![game_match(1, 0, 1, 0, vec![]), game_match(2, 1, 0, 0, vec![game(2, 16)])];
    assert_eq!(validate_matches(&matches, 2), Ok(()));
    assert_eq!(map_results(&matches, 2), vec![(0, 1)]);
}

#[test]
fn eligibility_follows_the_context() {
    let mut ctx = RankingContext::default();
    ctx.min_matches_for_ranking = 3;
    ctx.min_wins_for_ranking = 2;
    assert!(team_with(3, 2).ranking_eligible(&ctx));
    assert!(!team_with(3, 1).ranking_eligible(&ctx));
    assert!(!team_with(2, 2).ranking_eligible(&ctx));
}

#[test]
fn default_context_values() {
    let ctx = RankingContext::default();
    assert_eq!(ctx.top_outlier_count, 5);
    assert_eq!(ctx.factor_bucket_size, 10);
    assert_eq!(ctx.time_window_start, 0);
    assert_eq!(ctx.time_window_end, u32::MAX);
    assert_eq!(ctx.time_grace_period, 30 * 24 * 60 * 60);
    assert_eq!(ctx.check_window(), Ok(()));
    assert_eq!(ctx.time_mod(0), (0, u32::MAX - 30 * 24 * 60 * 60));
}

#[test]
fn repeated_selection_gives_the_same_choices() {
    let matches = vec![
        game_match(100, 0, 1, 0, vec![game(16, 1)]),
        game_match(300, 1, 0, 0, vec![game(3, 16)]),
        game_match(200, 0, 2, 2, vec![game(3, 16)]),
    ];
    let keys = vec![7, 3, 7, 1];
    for _ in 0..2 {
        assert_eq!(beaten_opponents(&matches, 0), vec![1]);
        assert_eq!(won_matches(&matches, 0), vec![0, 1]);
        assert_eq!(nth_highest(&keys, 2), 0);
        assert_eq!(best_indices(&keys, 2), vec![0, 2]);
        assert_eq!(map_results(&matches, 3), vec![(0, 1), (0, 1), (2, 0)]);
    }
}
