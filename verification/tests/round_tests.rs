use std::collections::HashMap;

use quiz_scoreboard::data::{Event, Player, PlayerId, PlayerStatus, Question, RuleOption, SharedQuizState};
use quiz_scoreboard::fits::{count_newly_finished, round_fits, status_fits};
use quiz_scoreboard::round::{
    assign_finish_ranks, has_active_players, initial_statuses, tick_freeze_counts, AnswerButton,
    NextQuestion,
};

fn player(id: PlayerId, name: &str) -> Player {
    Player { id, name: name.to_string(), affiliation: None, grade: None }
}

fn question(id: usize) -> Question {
    Question { id, text: format!("question {}", id), answer: format!("answer {}", id) }
}

fn started(rule: RuleOption, n: u32, m: u32, questions: usize) -> SharedQuizState {
    let mut s = SharedQuizState::empty();
    let players = vec![player(1, "A"), player(2, "B"), player(3, "C")];
    let qs = (1..=questions).map(question).collect();
    s.apply_config(players, qs, &HashMap::new(), rule, n, m);
    s
}

#[test]
fn config_sets_up_initial_values() {
    let players = vec![player(1, "A"), player(2, "B")];
    let mut initial = HashMap::new();
    initial.insert(2, (10, 4, 1));
    initial.insert(8, (1, 1, 1));
    let st = initial_statuses(&players, &initial);
    assert_eq!(st.len(), 2);
    assert_eq!(st[&1], PlayerStatus::new());
    assert_eq!((st[&2].score, st[&2].correct_count, st[&2].wrong_count), (10, 4, 1));

    let mut s = SharedQuizState::empty();
    s.current_question = 4;
    s.round_completed = true;
    s.apply_config(players, vec![question(1)], &initial, RuleOption::UpDown, 5, 2);
    assert_eq!(s.display_statuses[&2].score, 10);
    assert_eq!(s.working_statuses[&2].score, 10);
    assert_eq!(s.current_question, 0);
    assert!(!s.round_completed);
    assert_eq!(s.rule_option, RuleOption::UpDown);
    assert_eq!((s.n_correct, s.m_wrong), (5, 2));
    assert_eq!(s.next_finish_rank, 1);
}

#[test]
fn buttons_score_the_question_from_the_shown_statuses() {
    let mut s = started(RuleOption::FreeBatting, 7, 3, 3);
    assert!(!s.answer_disabled(1));
    s.press_answer_button(1, AnswerButton::Buzz);
    s.press_answer_button(2, AnswerButton::Buzz);
    assert_eq!(s.player_events[&2], vec![Event::Buzz(2)]);
    s.press_answer_button(1, AnswerButton::Wrong);
    assert_eq!(s.working_statuses[&1].wrong_count, 1);
    s.press_answer_button(2, AnswerButton::Correct);
    assert!(s.question_status.finished);
    assert!(s.answer_disabled(3));
    assert_eq!(s.working_statuses[&2].score, 1);
    assert_eq!(s.display_statuses[&2].score, 0);
    // pressing again recomputes from the shown statuses, not cumulatively
    s.press_answer_button(3, AnswerButton::Wrong);
    assert_eq!(s.working_statuses[&2].score, 1);
    assert_eq!(s.working_statuses[&1].wrong_count, 1);
}

#[test]
fn winners_get_finishing_ranks_in_turn() {
    let mut s = started(RuleOption::NCorrectMWrong, 1, 3, 5);
    s.press_answer_button(2, AnswerButton::Correct);
    assert!(s.working_statuses[&2].is_winner);
    assert_eq!(s.working_statuses[&2].finish_rank, Some(1));
    assert_eq!(s.next_finish_rank, 2);
    assert_eq!(s.advance_question(), false);
    s.press_answer_button(3, AnswerButton::Correct);
    assert_eq!(s.working_statuses[&3].finish_rank, Some(2));
    assert_eq!(s.working_statuses[&2].finish_rank, Some(1));
    assert_eq!(s.next_finish_rank, 3);
}

#[test]
fn simultaneous_winners_get_distinct_consecutive_ranks() {
    let mut statuses: HashMap<PlayerId, PlayerStatus> = HashMap::new();
    for id in 1..=3 {
        let mut st = PlayerStatus::new();
        st.is_winner = id != 2;
        statuses.insert(id, st);
    }
    let mut ranked = PlayerStatus::new();
    ranked.is_winner = true;
    ranked.finish_rank = Some(1);
    statuses.insert(4, ranked);
    let mut next = 2;
    assign_finish_ranks(&mut statuses, &mut next);
    assert_eq!(next, 4);
    let mut ranks = vec![statuses[&1].finish_rank.unwrap(), statuses[&3].finish_rank.unwrap()];
    ranks.sort();
    assert_eq!(ranks, vec![2, 3]);
    assert_eq!(statuses[&2].finish_rank, None);
    assert_eq!(statuses[&4].finish_rank, Some(1));
}

#[test]
fn next_question_steps() {
    let mut s = started(RuleOption::Freeze, 5, 3, 2);
    assert_eq!(s.next_question_step(), NextQuestion::Advance);
    s.press_answer_button(1, AnswerButton::Wrong);
    assert_eq!(s.working_statuses[&1].freeze_count, 2);
    assert!(s.answer_disabled(1));
    assert_eq!(s.advance_question(), false);
    assert_eq!(s.current_question, 1);
    assert_eq!(s.display_statuses[&1].freeze_count, 1);
    assert_eq!(s.working_statuses[&1].freeze_count, 1);
    assert!(s.player_events.is_empty());
    assert!(!s.question_status.finished);
    assert_eq!(s.next_question_step(), NextQuestion::FinishRound);
    assert!(s.complete_round());
    assert!(s.round_completed);
    assert!(!s.complete_round());
    assert_eq!(s.next_question_step(), NextQuestion::Stay);
}

#[test]
fn advancing_past_the_last_question_runs_out() {
    let mut s = started(RuleOption::FreeBatting, 7, 3, 1);
    assert_eq!(s.next_question_step(), NextQuestion::FinishRound);
    assert_eq!(s.advance_question(), true);
}

#[test]
fn freeze_counts_tick_down_to_zero() {
    let mut statuses: HashMap<PlayerId, PlayerStatus> = HashMap::new();
    let mut a = PlayerStatus::new();
    a.freeze_count = 2;
    statuses.insert(1, a);
    statuses.insert(2, PlayerStatus::new());
    tick_freeze_counts(&mut statuses);
    assert_eq!(statuses[&1].freeze_count, 1);
    assert_eq!(statuses[&2].freeze_count, 0);
    tick_freeze_counts(&mut statuses);
    tick_freeze_counts(&mut statuses);
    assert_eq!(statuses[&1].freeze_count, 0);
}

#[test]
fn active_players_are_those_still_playing() {
    let players = vec![player(1, "A"), player(2, "B")];
    let mut statuses: HashMap<PlayerId, PlayerStatus> = HashMap::new();
    let mut w = PlayerStatus::new();
    w.is_winner = true;
    statuses.insert(1, w);
    let mut f = PlayerStatus::new();
    f.frozen_until = Some(5);
    statuses.insert(2, f);
    assert!(!has_active_players(&players, &statuses, 3));
    assert!(has_active_players(&players, &statuses, 5));
    assert!(has_active_players(&[player(7, "new")], &statuses, 1));
    assert!(!has_active_players(&[], &statuses, 1));
}

#[test]
fn buzz_count_counts_all_players() {
    let mut s = started(RuleOption::FreeBatting, 7, 3, 2);
    assert_eq!(s.buzz_count(), Some(0));
    s.press_answer_button(3, AnswerButton::Buzz);
    s.press_answer_button(3, AnswerButton::Wrong);
    s.press_answer_button(1, AnswerButton::Buzz);
    assert_eq!(s.buzz_count(), Some(2));
    assert_eq!(s.player_events[&1], vec![Event::Buzz(2)]);
}

#[test]
fn scoring_fit_tests_report_overflow() {
    let mut big = PlayerStatus::new();
    big.score = i32::MAX;
    let one_correct = vec![Event::Correct];
    assert!(!status_fits(RuleOption::FreeBatting, 7, 3, &big, &one_correct));
    assert!(status_fits(RuleOption::FreeBatting, 7, 3, &big, &vec![Event::Wrong]));
    assert!(status_fits(RuleOption::UpDown, 7, 3, &big, &vec![Event::Wrong]));
    let mut nbym = PlayerStatus::new();
    nbym.wrong_count = 3;
    assert!(!status_fits(RuleOption::NByM, 7, 3, &nbym, &vec![Event::Wrong]));
    assert!(status_fits(RuleOption::NByM, 7, 4, &nbym, &vec![Event::Wrong]));
    let mut statuses: HashMap<PlayerId, PlayerStatus> = HashMap::new();
    statuses.insert(1, big);
    let mut events: HashMap<PlayerId, Vec<Event>> = HashMap::new();
    events.insert(1, one_correct.clone());
    assert!(!round_fits(RuleOption::FreeBatting, 7, 3, &statuses, &events));
    events.insert(1, vec![]);
    assert!(round_fits(RuleOption::FreeBatting, 7, 3, &statuses, &events));
    let mut w = PlayerStatus::new();
    w.is_winner = true;
    statuses.insert(2, w);
    assert_eq!(count_newly_finished(&statuses), 1);

    let mut s = started(RuleOption::NCorrectMWrong, 1, 3, 2);
    assert!(s.can_score(&s.player_events));
    assert!(s.button_fits(1, AnswerButton::Correct));
    s.next_finish_rank = u32::MAX;
    assert!(!s.button_fits(1, AnswerButton::Correct));
    assert!(s.button_fits(1, AnswerButton::Wrong));
}

#[test]
fn eliminated_players_get_finishing_ranks_too() {
    let mut s = started(RuleOption::NCorrectMWrong, 7, 1, 5);
    s.press_answer_button(1, AnswerButton::Wrong);
    assert!(s.working_statuses[&1].is_eliminated);
    assert!(!s.working_statuses[&1].is_winner);
    assert_eq!(s.working_statuses[&1].finish_rank, Some(1));
    assert_eq!(s.next_finish_rank, 2);
    assert_eq!(s.working_statuses[&2].finish_rank, None);
}

#[test]
fn eliminated_and_winning_players_are_ranked_together() {
    let mut statuses: HashMap<PlayerId, PlayerStatus> = HashMap::new();
    let mut out = PlayerStatus::new();
    out.is_eliminated = true;
    statuses.insert(1, out);
    let mut won = PlayerStatus::new();
    won.is_winner = true;
    statuses.insert(2, won);
    statuses.insert(3, PlayerStatus::new());
    assert_eq!(count_newly_finished(&statuses), 2);
    let mut next = 5;
    assign_finish_ranks(&mut statuses, &mut next);
    assert_eq!(next, 7);
    let mut ranks = vec![statuses[&1].finish_rank.unwrap(), statuses[&2].finish_rank.unwrap()];
    ranks.sort();
    assert_eq!(ranks, vec![5, 6]);
    assert_eq!(statuses[&3].finish_rank, None);
}

#[test]
fn finishing_the_round_keeps_the_question_state() {
    let mut s = started(RuleOption::FreeBatting, 7, 3, 1);
    s.press_answer_button(2, AnswerButton::Correct);
    assert!(s.question_status.finished);
    assert_eq!(s.next_question_step(), NextQuestion::FinishRound);
    assert!(s.complete_round());
    assert!(s.round_completed);
    assert!(s.question_status.finished);
    assert_eq!(s.next_question_step(), NextQuestion::Stay);
    assert!(!s.complete_round());
    assert!(s.round_completed);
    assert!(s.question_status.finished);
}

#[test]
fn shown_statuses_copy_only_players_on_display() {
    let mut s = started(RuleOption::FreeBatting, 7, 3, 2);
    let mut statuses: HashMap<PlayerId, PlayerStatus> = HashMap::new();
    let mut st = PlayerStatus::new();
    st.score = 4;
    statuses.insert(2, st);
    statuses.insert(9, st);
    s.show_statuses(&statuses);
    assert_eq!(s.display_statuses[&2].score, 4);
    assert_eq!(s.display_statuses[&1].score, 0);
    assert!(!s.display_statuses.contains_key(&9));
    assert_eq!(s.display_statuses.len(), 3);
    assert_eq!(s.working_statuses[&2].score, 0);
}
