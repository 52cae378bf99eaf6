use std::collections::HashMap;

use quiz_scoreboard::config::AppConfig;
use quiz_scoreboard::data::{
    Player, PlayerRow, PlayerStatus, Question, QuestionRow, QuestionStatus, RuleOption,
    SharedQuizState,
};

fn player(id: usize, name: &str) -> Player {
    Player { id, name: name.to_string(), affiliation: Some("Club".to_string()), grade: None }
}

#[test]
fn new_status_is_blank() {
    let s = PlayerStatus::new();
    assert_eq!(s.score, 0);
    assert_eq!(s.correct_count, 0);
    assert_eq!(s.wrong_count, 0);
    assert_eq!(s.freeze_count, 0);
    assert_eq!(s.frozen_until, None);
    assert!(!s.is_winner && !s.is_eliminated);
    assert_eq!(s.finish_rank, None);
    assert_eq!(PlayerStatus::default(), s);
    let q = QuestionStatus::default();
    assert!(!q.finished && q.locked.is_empty());
}

#[test]
fn rule_labels_and_menu() {
    assert_eq!(RuleOption::all_options().len(), 5);
    let labels: Vec<&str> = RuleOption::all_options().iter().map(|r| r.label()).collect();
    assert_eq!(labels, vec!["Free Batting", "N Correct M Wrong", "UpDown", "N Freeze", "N by M"]);
    assert_eq!(RuleOption::default(), RuleOption::FreeBatting);
}

#[test]
fn shared_state_starts_everyone_fresh() {
    let players = vec![player(1, "A"), player(2, "B"), player(1, "A again")];
    let questions = vec![Question { id: 1, text: "Q".to_string(), answer: "A".to_string() }];
    let s = SharedQuizState::new(players, questions);
    assert_eq!(s.display_statuses.len(), 2);
    assert_eq!(s.display_statuses[&1], PlayerStatus::new());
    assert_eq!(s.working_statuses.len(), 2);
    assert_eq!(s.current_question, 0);
    assert_eq!(s.rule_option, RuleOption::FreeBatting);
    assert_eq!((s.n_correct, s.m_wrong), (7, 3));
    assert_eq!(s.next_finish_rank, 1);
    assert!(!s.round_completed);
    assert_eq!(s.players.len(), 3);
    let e = SharedQuizState::empty();
    assert!(e.players.is_empty() && e.display_statuses.is_empty());
    assert_eq!((e.n_correct, e.m_wrong), (7, 3));
}

#[test]
fn rows_convert_to_players_and_questions() {
    let p = Player::from(PlayerRow {
        id: 3,
        name: "Dan".to_string(),
        affiliation: None,
        grade: Some("2".to_string()),
    });
    assert_eq!(p.id, 3);
    assert_eq!(p.name, "Dan");
    assert_eq!(p.grade.as_deref(), Some("2"));
    let c = p.clone();
    assert_eq!(c.name, "Dan");
    let q = Question::from(QuestionRow { id: 1, text: "T".to_string(), answer: "A".to_string() });
    assert_eq!((q.id, q.text.as_str(), q.answer.as_str()), (1, "T", "A"));
}

#[test]
fn default_config() {
    let c = AppConfig::default();
    assert_eq!(c.round_name, "Free Batting");
    assert_eq!(c.players_csv, "data/players.csv");
    assert_eq!(c.questions_csv, "data/questions.csv");
    assert_eq!(c.log_csv, "data/log.csv");
    assert_eq!(c.next_round_player_csv, "data/next_round_players.csv");
    assert_eq!(c.next_round_advance_count, 5);
    assert_eq!((c.n_correct, c.m_wrong), (7, 3));
    assert_eq!(c.rule_option, RuleOption::FreeBatting);
    let empty: HashMap<usize, (i32, u32, u32)> = HashMap::new();
    assert_eq!(c.initial_player_states, empty);
}
