use std::collections::HashMap;

use quiz_scoreboard::advance::{next_round_players, select_advancing};
use quiz_scoreboard::data::{Event, Player, PlayerId, PlayerRow, PlayerStatus, QuestionRow};
use quiz_scoreboard::loader::{
    log_head_rows, log_line_row, next_round_record, players_from_rows,
    questions_from_rows, ranking,
};

fn player(id: PlayerId, name: &str) -> Player {
    Player { id, name: name.to_string(), affiliation: None, grade: None }
}

#[test]
fn empty_files_are_refused() {
    assert_eq!(players_from_rows(vec![]).err(), Some("No players loaded from CSV".to_string()));
    assert_eq!(questions_from_rows(vec![]).err(), Some("No questions loaded from CSV".to_string()));
    let ps = players_from_rows(vec![PlayerRow {
        id: 1,
        name: "A".to_string(),
        affiliation: Some("X".to_string()),
        grade: None,
    }])
    .unwrap();
    assert_eq!(ps.len(), 1);
    assert_eq!(ps[0].affiliation.as_deref(), Some("X"));
    let qs = questions_from_rows(vec![QuestionRow { id: 2, text: "t".to_string(), answer: "a".to_string() }])
        .unwrap();
    assert_eq!(qs[0].id, 2);
}

#[test]
fn log_head_lists_players() {
    let players = vec![
        Player { id: 10, name: "A".to_string(), affiliation: Some("Club".to_string()), grade: Some("1".to_string()) },
        player(2, "B"),
    ];
    let rows = log_head_rows(&players);
    assert_eq!(rows[0], vec!["id", "10", "2"]);
    assert_eq!(rows[1], vec!["name", "A", "B"]);
    assert_eq!(rows[2], vec!["affiliation", "Club", ""]);
    assert_eq!(rows[3], vec!["grade", "1", ""]);
}

#[test]
fn log_line_marks_answers() {
    let players = vec![player(1, "A"), player(2, "B"), player(3, "C")];
    let mut events: HashMap<PlayerId, Vec<Event>> = HashMap::new();
    events.insert(1, vec![Event::Buzz(1), Event::Wrong]);
    events.insert(3, vec![Event::Buzz(2), Event::Correct, Event::SetScore(4)]);
    let row = log_line_row(7, &players, &events).unwrap();
    assert_eq!(row, vec!["7", "x", "", "o"]);
    events.insert(9, vec![Event::Correct]);
    assert_eq!(log_line_row(7, &players, &events), Err("Player with id 9 not found".to_string()));
}

#[test]
fn ranking_orders_by_finishing_rank() {
    let mut statuses: HashMap<PlayerId, PlayerStatus> = HashMap::new();
    for (id, rank) in [(1, Some(3)), (2, None), (3, Some(1)), (4, Some(2))] {
        let mut s = PlayerStatus::new();
        s.finish_rank = rank;
        statuses.insert(id, s);
    }
    assert_eq!(ranking(&statuses), vec![(3, 1), (4, 2), (1, 3)]);
}

#[test]
fn next_round_takes_ranked_first_then_list_order() {
    let players = vec![player(1, "A"), player(2, "B"), player(3, "C"), player(4, "D")];
    let mut statuses: HashMap<PlayerId, PlayerStatus> = HashMap::new();
    let mut s = PlayerStatus::new();
    s.finish_rank = Some(1);
    statuses.insert(3, s);
    let mut ghost = PlayerStatus::new();
    ghost.finish_rank = Some(2);
    statuses.insert(9, ghost);
    let chosen = next_round_players(&players, &statuses, 3);
    let ids: Vec<PlayerId> = chosen.iter().map(|p| p.id).collect();
    assert_eq!(ids, vec![3, 1, 2]);
    let all = next_round_players(&players, &statuses, 10);
    assert_eq!(all.iter().map(|p| p.id).collect::<Vec<_>>(), vec![3, 1, 2, 4]);
    assert!(next_round_players(&players, &statuses, 0).is_empty());
}

#[test]
fn selection_skips_repeated_ids() {
    let players = vec![player(1, "A"), player(1, "A twin"), player(2, "B")];
    let chosen = select_advancing(&[(2, 1)], &players, 3);
    let names: Vec<&str> = chosen.iter().map(|p| p.name.as_str()).collect();
    assert_eq!(names, vec!["B", "A"]);
}

#[test]
fn next_round_record_fills_missing_fields() {
    let p = Player { id: 5, name: "E".to_string(), affiliation: None, grade: Some("3".to_string()) };
    assert_eq!(next_round_record(&p), vec!["5", "E", "", "3"]);
}
