use std::collections::HashMap;

use quiz_scoreboard::data::{Event, Player, PlayerId, PlayerStatus, QuestionStatus, RuleOption};
use quiz_scoreboard::terminal::{
    classify_command, find_player, handle_answer_command, handle_set_command,
    parameter_or_default, prompt_step, rule_at, rule_needs_parameters, Command, PromptStep,
};

fn player(id: PlayerId, name: &str) -> Player {
    Player { id, name: name.to_string(), affiliation: None, grade: None }
}

fn roster() -> Vec<Player> {
    vec![player(1, "Alice"), player(2, "Bob"), player(3, "Carol")]
}

struct Table {
    statuses: HashMap<PlayerId, PlayerStatus>,
    events: HashMap<PlayerId, Vec<Event>>,
    question: QuestionStatus,
}

fn table() -> Table {
    Table { statuses: HashMap::new(), events: HashMap::new(), question: QuestionStatus::new() }
}

fn answer(t: &mut Table, players: &[Player], line: &[&str]) -> Result<(), String> {
    handle_answer_command(line, players, &mut t.statuses, &mut t.events, &mut t.question)
}

#[test]
fn buzz_is_numbered_after_locked_players() {
    let players = roster();
    let mut t = table();
    assert_eq!(answer(&mut t, &players, &["buzz", "1"]), Ok(()));
    assert_eq!(t.events[&1], vec![Event::Buzz(1)]);
    assert_eq!(answer(&mut t, &players, &["wrong", "1"]), Ok(()));
    assert!(t.question.locked.contains(&1));
    assert_eq!(answer(&mut t, &players, &["buzz", "2"]), Ok(()));
    assert_eq!(t.events[&2], vec![Event::Buzz(2)]);
    assert_eq!(t.events[&1], vec![Event::Buzz(1), Event::Wrong]);
}

#[test]
fn correct_answer_finishes_question() {
    let players = roster();
    let mut t = table();
    assert_eq!(answer(&mut t, &players, &["correct", "3"]), Ok(()));
    assert!(t.question.finished);
    assert_eq!(t.events[&3], vec![Event::Correct]);
    assert!(t.question.locked.is_empty());
}

#[test]
fn locked_out_player_is_refused_and_nothing_changes() {
    let players = roster();
    let mut t = table();
    answer(&mut t, &players, &["wrong", "2"]).unwrap();
    let before = t.events.clone();
    let r = answer(&mut t, &players, &["correct", "2"]);
    assert_eq!(r, Err("Bob already locked out".to_string()));
    assert_eq!(t.events, before);
    assert!(!t.question.finished);
}

#[test]
fn answer_command_errors() {
    let players = roster();
    let mut t = table();
    assert_eq!(
        answer(&mut t, &players, &["buzz"]),
        Err("format: buzz <player_id> / correct <player_id> / wrong <player_id>".to_string())
    );
    assert_eq!(answer(&mut t, &players, &["buzz", "x1"]), Err("invalid player id".to_string()));
    assert_eq!(answer(&mut t, &players, &["buzz", "-1"]), Err("invalid player id".to_string()));
    assert_eq!(answer(&mut t, &players, &["buzz", "7"]), Err("unknown player".to_string()));
    assert_eq!(answer(&mut t, &players, &["shout", "1"]), Err("unknown action".to_string()));
    assert!(t.events.is_empty());
    assert_eq!(answer(&mut t, &players, &["buzz", "+1"]), Ok(()));
}

#[test]
fn frozen_winner_and_eliminated_players_are_refused() {
    let players = roster();
    let mut t = table();
    let mut frozen = PlayerStatus::new();
    frozen.freeze_count = 2;
    t.statuses.insert(1, frozen);
    let mut until = PlayerStatus::new();
    until.frozen_until = Some(12);
    t.statuses.insert(2, until);
    let mut winner = PlayerStatus::new();
    winner.is_winner = true;
    t.statuses.insert(3, winner);
    assert_eq!(
        answer(&mut t, &players, &["buzz", "1"]),
        Err("Alice is temporarily frozen (freeze_count > 0)".to_string())
    );
    assert_eq!(
        answer(&mut t, &players, &["buzz", "2"]),
        Err("Bob is frozen until question 12".to_string())
    );
    assert_eq!(answer(&mut t, &players, &["buzz", "3"]), Err("Carol already winner".to_string()));
    let mut out = PlayerStatus::new();
    out.is_eliminated = true;
    t.statuses.insert(3, out);
    assert_eq!(answer(&mut t, &players, &["buzz", "3"]), Err("Carol already eliminated".to_string()));
    assert!(t.events.is_empty());
}

#[test]
fn set_command_sets_score_and_records_event() {
    let players = roster();
    let mut t = table();
    let r = handle_set_command(&["set", "2", "15"], &players, &mut t.statuses, &mut t.events);
    assert_eq!(r, Ok("Player Bob score set to 15".to_string()));
    assert_eq!(t.statuses[&2].score, 15);
    assert_eq!(t.events[&2], vec![Event::SetScore(15)]);
    let r = handle_set_command(&["set", "2", "-3"], &players, &mut t.statuses, &mut t.events);
    assert_eq!(r, Ok("Player Bob score set to -3".to_string()));
    assert_eq!(t.statuses[&2].score, -3);
    assert_eq!(t.events[&2], vec![Event::SetScore(15), Event::SetScore((-3i32) as u32)]);
}

#[test]
fn set_command_errors() {
    let players = roster();
    let mut t = table();
    let mut call = |line: &[&str]| handle_set_command(line, &players, &mut t.statuses, &mut t.events);
    assert_eq!(call(&["set", "2"]), Err("format: set <player_id> <score>".to_string()));
    assert_eq!(call(&["set", "b", "1"]), Err("invalid player id".to_string()));
    assert_eq!(call(&["set", "2", "lots"]), Err("invalid score value".to_string()));
    assert_eq!(call(&["set", "2", "99999999999"]), Err("invalid score value".to_string()));
    assert_eq!(call(&["set", "9", "1"]), Err("unknown player".to_string()));
    assert!(t.statuses.is_empty());
    assert!(t.events.is_empty());
}

#[test]
fn first_matching_player_is_found() {
    let players = vec![player(4, "A"), player(5, "B"), player(4, "C")];
    assert_eq!(find_player(&players, 4), Some(0));
    assert_eq!(find_player(&players, 5), Some(1));
    assert_eq!(find_player(&players, 6), None);
}

#[test]
fn commands_are_classified() {
    assert_eq!(classify_command("next", &["next"]), Command::Next);
    assert_eq!(classify_command("pass", &["pass"]), Command::Pass);
    assert_eq!(classify_command("set 1 3", &["set", "1", "3"]), Command::SetScore);
    assert_eq!(classify_command("wrong 1", &["wrong", "1"]), Command::Answer);
    assert_eq!(classify_command("correct 2", &["correct", "2"]), Command::Answer);
    assert_eq!(classify_command("set 1", &["set", "1"]), Command::Invalid);
    assert_eq!(classify_command("hello", &["hello"]), Command::Invalid);
}

#[test]
fn rule_parameters_default_and_parse() {
    assert_eq!(parameter_or_default("", 7), Ok(7));
    assert_eq!(parameter_or_default("12", 7), Ok(12));
    assert_eq!(parameter_or_default("-4", 7), Ok(-4));
    assert_eq!(parameter_or_default("seven", 7), Err("Invalid number".to_string()));
    assert!(rule_needs_parameters(RuleOption::NCorrectMWrong));
    assert!(rule_needs_parameters(RuleOption::Freeze));
    assert!(rule_needs_parameters(RuleOption::NByM));
    assert!(!rule_needs_parameters(RuleOption::UpDown));
    assert!(!rule_needs_parameters(RuleOption::FreeBatting));
    assert_eq!(rule_at(0), Some(RuleOption::FreeBatting));
    assert_eq!(rule_at(4), Some(RuleOption::NByM));
    assert_eq!(rule_at(5), None);
}

#[test]
fn prompt_steps_follow_the_question_state() {
    let mut q = QuestionStatus::new();
    assert_eq!(prompt_step(Command::Answer, &mut q), PromptStep::Answer);
    assert_eq!(prompt_step(Command::SetScore, &mut q), PromptStep::SetScore);
    assert_eq!(prompt_step(Command::Invalid, &mut q), PromptStep::ShowFormat);
    assert!(!q.finished);
    assert_eq!(prompt_step(Command::Pass, &mut q), PromptStep::QuestionFinished);
    assert!(q.finished);
    assert_eq!(prompt_step(Command::Answer, &mut q), PromptStep::QuestionFinished);
    assert_eq!(prompt_step(Command::Next, &mut q), PromptStep::EndQuestion);
}
