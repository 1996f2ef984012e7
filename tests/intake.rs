use team_rating::context::RankingContext;
use team_rating::intake::{accepts_match, add_event, assign_teams, link_event, newest_first, resolve_payouts};
use team_rating::model::{Event, GameMap, Match, Player, PrizeDist, Team};
use team_rating::text::{is_showmatch, mentions_showmatch};

fn player(id: u16) -> Player {
    Player { player_id: id, nick: format!("p{id}"), country: String::new(), country_iso: String::new() }
}

fn roster(ids: &[u16]) -> Vec<Player> {
    ids.iter().map(|&i| player(i)).collect()
}

fn raw_match(start: u32, t1: usize, p1: &[u16], t2: usize, p2: &[u16], event: usize, winner: usize) -> Match {
    Match {
        match_start_time: start,
        team_1_id: t1,
        team_2_id: t2,
        team_1_name: format!("team{t1}"),
        team_2_name: format!("team{t2}"),
        team_1_players: roster(p1),
        team_2_players: roster(p2),
        event_id: event,
        maps: vec![GameMap { map_name: String::from("m"), team_1_score: 16, team_2_score: 8 }],
        winning_team: winner,
    }
}

fn payout(team_id: usize) -> PrizeDist {
    PrizeDist { placement: 1, team_id, is_in_ranking: false, shared: false }
}

#[test]
fn match_acceptance() {
    let mut ctx = RankingContext::default();
    ctx.time_window_start = 100;
    ctx.time_window_end = 1000;
    let full = raw_match(500, 1, &[1, 2, 3, 4, 5], 2, &[6, 7, 8, 9, 10], 7, 1);
    assert!(accepts_match(&ctx, &full));
    let early = raw_match(50, 1, &[1, 2, 3, 4, 5], 2, &[6, 7, 8, 9, 10], 7, 1);
    assert!(!accepts_match(&ctx, &early));
    let late = raw_match(1001, 1, &[1, 2, 3, 4, 5], 2, &[6, 7, 8, 9, 10], 7, 1);
    assert!(!accepts_match(&ctx, &late));
    let short = raw_match(500, 1, &[1, 2, 3, 4], 2, &[6, 7, 8, 9, 10], 7, 1);
    assert!(!accepts_match(&ctx, &short));
    let long = raw_match(500, 1, &[1, 2, 3, 4, 5], 2, &[6, 7, 8, 9, 10, 11], 7, 1);
    assert!(!accepts_match(&ctx, &long));
}

#[test]
fn events_are_listed_once() {
    let mut events = Vec::new();
    assert!(add_event(&mut events, Event::new(7, String::from("Major"), true, vec![])));
    assert!(add_event(&mut events, Event::new(9, String::from("Cup"), false, vec![])));
    assert!(!add_event(&mut events, Event::new(7, String::from("Major again"), true, vec![])));
    assert_eq!(events.len(), 2);
    assert_eq!(events[0].name, "Major");
}

#[test]
fn showmatch_names() {
    assert!(is_showmatch("Charity ShowMatch 2023"));
    assert!(is_showmatch("SHOWMATCH"));
    assert!(!is_showmatch("Show Match"));
    assert!(!is_showmatch("Masters"));
    assert!(mentions_showmatch("a showmatch"));
    assert!(!mentions_showmatch("A SHOWMATCH"));
    assert!(!mentions_showmatch(""));
}

#[test]
fn linking_matches_to_events() {
    let mut events = vec![
        Event::new(7, String::from("Major"), true, vec![]),
        Event::new(9, String::from("All-Star Showmatch"), false, vec![]),
    ];
    let mut m = raw_match(500, 1, &[1, 2, 3, 4, 5], 2, &[6, 7, 8, 9, 10], 7, 1);
    assert!(link_event(&mut events, &mut m));
    assert_eq!(m.event_id, 0);
    assert_eq!(events[0].last_match_time, 500);
    let mut older = raw_match(300, 1, &[1, 2, 3, 4, 5], 2, &[6, 7, 8, 9, 10], 7, 1);
    assert!(link_event(&mut events, &mut older));
    assert_eq!(events[0].last_match_time, 500);
    let mut exhibition = raw_match(600, 1, &[1, 2, 3, 4, 5], 2, &[6, 7, 8, 9, 10], 9, 1);
    assert!(!link_event(&mut events, &mut exhibition));
    assert_eq!(exhibition.event_id, 9);
    assert_eq!(events[1].last_match_time, 0);
    let mut unknown = raw_match(600, 1, &[1, 2, 3, 4, 5], 2, &[6, 7, 8, 9, 10], 4, 1);
    assert!(!link_event(&mut events, &mut unknown));
    assert_eq!(unknown.event_id, 4);
}

#[test]
fn newest_matches_come_first() {
    let ms = vec![
        raw_match(100, 1, &[1, 2, 3, 4, 5], 2, &[6, 7, 8, 9, 10], 0, 1),
        raw_match(300, 1, &[1, 2, 3, 4, 5], 2, &[6, 7, 8, 9, 10], 0, 1),
        raw_match(100, 1, &[1, 2, 3, 4, 5], 2, &[6, 7, 8, 9, 10], 0, 1),
        raw_match(200, 1, &[1, 2, 3, 4, 5], 2, &[6, 7, 8, 9, 10], 0, 1),
    ];
    assert_eq!(newest_first(&ms), vec![1, 3, 0, 2]);
}

#[test]
fn rosters_become_teams_with_records() {
    let mut matches = vec![
        raw_match(300, 11, &[1, 2, 3, 4, 5], 22, &[6, 7, 8, 9, 10], 0, 1),
        raw_match(200, 33, &[1, 2, 3, 40, 50], 22, &[6, 7, 8, 9, 10], 0, 2),
        raw_match(100, 44, &[60, 70, 80, 90, 95], 11, &[1, 2, 4, 40, 50], 0, 2),
    ];
    let raw = matches.clone();
    let mut teams: Vec<Team> = Vec::new();
    assign_teams(&mut matches, &mut teams);
    assert_eq!(teams.len(), 3);
    assert_eq!((matches[0].team_1_id, matches[0].team_2_id, matches[0].winning_team), (0, 1, 0));
    assert_eq!((matches[1].team_1_id, matches[1].team_2_id, matches[1].winning_team), (0, 1, 1));
    // 1, 2 and 4 of the last roster belong to the first core
    assert_eq!((matches[2].team_1_id, matches[2].team_2_id, matches[2].winning_team), (2, 0, 0));
    assert_eq!((teams[0].matches_played, teams[0].matches_won), (3, 2));
    assert_eq!((teams[1].matches_played, teams[1].matches_won), (2, 1));
    assert_eq!((teams[2].matches_played, teams[2].matches_won), (1, 0));
    assert_eq!(teams[0].name, "team11");
    assert_eq!(matches[2].match_start_time, raw[2].match_start_time);

    let mut events = vec![Event::new(5, String::from("Cup"), false, vec![payout(22), payout(11), payout(99), payout(44)])];
    resolve_payouts(&mut events, &raw, &matches);
    let pd = &events[0].prize_distribution;
    assert_eq!((pd[0].team_id, pd[0].is_in_ranking), (1, true));
    assert_eq!((pd[1].team_id, pd[1].is_in_ranking), (0, true));
    assert_eq!((pd[2].team_id, pd[2].is_in_ranking), (99, false));
    assert_eq!((pd[3].team_id, pd[3].is_in_ranking), (2, true));
}
