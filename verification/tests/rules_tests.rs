use std::collections::HashMap;

use quiz_scoreboard::data::{Event, PlayerId, PlayerStatus, QuestionStatus, RuleOption};
use quiz_scoreboard::rules::{
    apply_selected_rule, FreeBatting, Freeze, NByM, NCorrectMWrong, QuizRule, UpDown,
};

fn events_of(list: &[(PlayerId, Vec<Event>)]) -> HashMap<PlayerId, Vec<Event>> {
    let mut m = HashMap::new();
    for (id, evs) in list {
        m.insert(*id, evs.clone());
    }
    m
}

#[test]
fn free_batting_counts_answers_and_finishes_on_correct() {
    let mut statuses: HashMap<PlayerId, PlayerStatus> = HashMap::new();
    statuses.insert(1, PlayerStatus::new());
    let mut events = events_of(&[
        (1, vec![Event::Buzz(1), Event::Wrong]),
        (2, vec![Event::Buzz(2), Event::Correct]),
    ]);
    let mut q = QuestionStatus::new();
    FreeBatting.apply(&mut statuses, &mut events, &mut q);
    assert!(q.finished);
    let s1 = statuses[&1];
    assert_eq!((s1.score, s1.correct_count, s1.wrong_count), (0, 0, 1));
    let s2 = statuses[&2];
    assert_eq!((s2.score, s2.correct_count, s2.wrong_count), (1, 1, 0));
    assert!(!s2.is_winner);
    assert_eq!(events.len(), 2);
}

#[test]
fn free_batting_without_correct_answer_leaves_question_open() {
    let mut statuses: HashMap<PlayerId, PlayerStatus> = HashMap::new();
    let mut events = events_of(&[(3, vec![Event::Wrong, Event::Wrong])]);
    let mut q = QuestionStatus::new();
    FreeBatting.apply(&mut statuses, &mut events, &mut q);
    assert!(!q.finished);
    assert_eq!(statuses[&3].wrong_count, 2);
}

#[test]
fn players_without_events_are_untouched() {
    let mut statuses: HashMap<PlayerId, PlayerStatus> = HashMap::new();
    let mut other = PlayerStatus::new();
    other.score = 5;
    other.correct_count = 5;
    statuses.insert(9, other);
    let mut events = events_of(&[(1, vec![Event::Correct])]);
    let mut q = QuestionStatus::new();
    NCorrectMWrong::new(7, 3).apply(&mut statuses, &mut events, &mut q);
    assert_eq!(statuses[&9], other);
    assert_eq!(statuses.len(), 2);
}

#[test]
fn n_correct_m_wrong_wins_and_eliminates() {
    let mut statuses: HashMap<PlayerId, PlayerStatus> = HashMap::new();
    let mut near_win = PlayerStatus::new();
    near_win.score = 6;
    near_win.correct_count = 6;
    statuses.insert(1, near_win);
    let mut near_out = PlayerStatus::new();
    near_out.wrong_count = 2;
    statuses.insert(2, near_out);
    let mut events = events_of(&[(1, vec![Event::Correct]), (2, vec![Event::Wrong])]);
    let mut q = QuestionStatus::new();
    NCorrectMWrong::new(7, 3).apply(&mut statuses, &mut events, &mut q);
    assert!(statuses[&1].is_winner);
    assert_eq!(statuses[&1].score, 7);
    assert!(!statuses[&1].is_eliminated);
    assert!(statuses[&2].is_eliminated);
    assert!(!statuses[&2].is_winner);
    assert!(q.finished);
}

#[test]
fn freeze_freezes_after_wrong_answer_and_never_finishes_question() {
    let mut statuses: HashMap<PlayerId, PlayerStatus> = HashMap::new();
    let mut s = PlayerStatus::new();
    s.wrong_count = 1;
    statuses.insert(4, s);
    let mut events = events_of(&[(4, vec![Event::Wrong]), (5, vec![Event::Correct])]);
    let mut q = QuestionStatus::new();
    Freeze::new(2).apply(&mut statuses, &mut events, &mut q);
    assert_eq!(statuses[&4].wrong_count, 2);
    assert_eq!(statuses[&4].freeze_count, 3);
    assert_eq!(statuses[&5].freeze_count, 0);
    assert_eq!(statuses[&5].score, 1);
    assert!(!statuses[&5].is_winner);
    assert!(!q.finished);
    assert!(!statuses[&4].is_eliminated);
}

#[test]
fn freeze_wins_at_n() {
    let mut statuses: HashMap<PlayerId, PlayerStatus> = HashMap::new();
    let mut events = events_of(&[(5, vec![Event::Correct, Event::Correct])]);
    let mut q = QuestionStatus::new();
    Freeze::new(2).apply(&mut statuses, &mut events, &mut q);
    assert!(statuses[&5].is_winner);
}

#[test]
fn n_by_m_score_is_correct_times_remaining_wrongs() {
    let mut statuses: HashMap<PlayerId, PlayerStatus> = HashMap::new();
    let mut s = PlayerStatus::new();
    s.correct_count = 2;
    s.wrong_count = 1;
    statuses.insert(1, s);
    let mut events = events_of(&[(1, vec![Event::Correct, Event::Wrong])]);
    let mut q = QuestionStatus::new();
    NByM::new(3, 4).apply(&mut statuses, &mut events, &mut q);
    let r = statuses[&1];
    assert_eq!((r.correct_count, r.wrong_count), (3, 2));
    assert_eq!(r.score, 3 * (4 - 2));
    assert!(!r.is_winner);
    assert!(!r.is_eliminated);
    assert!(!q.finished);
}

#[test]
fn n_by_m_wins_at_n_times_m_and_eliminates_at_m() {
    let mut statuses: HashMap<PlayerId, PlayerStatus> = HashMap::new();
    let mut s = PlayerStatus::new();
    s.correct_count = 2;
    statuses.insert(1, s);
    let mut t = PlayerStatus::new();
    t.wrong_count = 1;
    statuses.insert(2, t);
    let mut events = events_of(&[(1, vec![Event::Correct]), (2, vec![Event::Wrong])]);
    let mut q = QuestionStatus::new();
    NByM::new(1, 2).apply(&mut statuses, &mut events, &mut q);
    assert_eq!(statuses[&1].score, 6);
    assert!(statuses[&1].is_winner);
    assert_eq!(statuses[&2].score, 0);
    assert!(statuses[&2].is_eliminated);
}

#[test]
fn up_down_wrong_answer_resets_score() {
    let mut statuses: HashMap<PlayerId, PlayerStatus> = HashMap::new();
    let mut s = PlayerStatus::new();
    s.score = 4;
    s.correct_count = 4;
    statuses.insert(1, s);
    let mut events = events_of(&[(1, vec![Event::Correct, Event::Wrong, Event::Correct])]);
    let mut q = QuestionStatus::new();
    UpDown::new(5, 2).apply(&mut statuses, &mut events, &mut q);
    let r = statuses[&1];
    assert_eq!(r.score, 0);
    assert_eq!(r.correct_count, 5);
    assert_eq!(r.wrong_count, 1);
    assert!(!r.is_winner);
    assert!(q.finished);
}

#[test]
fn up_down_counts_up_and_wins() {
    let mut statuses: HashMap<PlayerId, PlayerStatus> = HashMap::new();
    let mut s = PlayerStatus::new();
    s.score = 4;
    statuses.insert(1, s);
    let mut events = events_of(&[(1, vec![Event::Correct])]);
    let mut q = QuestionStatus::new();
    UpDown::new(5, 2).apply(&mut statuses, &mut events, &mut q);
    assert_eq!(statuses[&1].score, 5);
    assert!(statuses[&1].is_winner);
}

#[test]
fn selected_rule_dispatches_on_option() {
    let mut statuses: HashMap<PlayerId, PlayerStatus> = HashMap::new();
    let mut events = events_of(&[(1, vec![Event::Wrong, Event::Wrong])]);
    let mut q = QuestionStatus::new();
    apply_selected_rule(&RuleOption::NCorrectMWrong, 7, 2, &mut statuses, &mut events, &mut q);
    assert!(statuses[&1].is_eliminated);

    let mut statuses: HashMap<PlayerId, PlayerStatus> = HashMap::new();
    let mut q = QuestionStatus::new();
    apply_selected_rule(&RuleOption::FreeBatting, 7, 2, &mut statuses, &mut events, &mut q);
    assert!(!statuses[&1].is_eliminated);
    assert_eq!(statuses[&1].wrong_count, 2);

    let mut statuses: HashMap<PlayerId, PlayerStatus> = HashMap::new();
    let mut q = QuestionStatus::new();
    apply_selected_rule(&RuleOption::Freeze, 7, 2, &mut statuses, &mut events, &mut q);
    assert_eq!(statuses[&1].freeze_count, 3);
}

#[test]
fn set_and_buzz_events_do_not_score() {
    let mut statuses: HashMap<PlayerId, PlayerStatus> = HashMap::new();
    let mut events = events_of(&[(1, vec![Event::Buzz(1), Event::SetScore(10)])]);
    let mut q = QuestionStatus::new();
    FreeBatting.apply(&mut statuses, &mut events, &mut q);
    assert_eq!(statuses[&1], PlayerStatus::new());
    assert!(!q.finished);
}

#[test]
fn finished_question_stays_finished() {
    let mut statuses: HashMap<PlayerId, PlayerStatus> = HashMap::new();
    let mut events: HashMap<PlayerId, Vec<Event>> = HashMap::new();
    let mut q = QuestionStatus::new();
    q.finished = true;
    FreeBatting.apply(&mut statuses, &mut events, &mut q);
    assert!(q.finished);
    assert!(statuses.is_empty());
}

#[test]
fn free_batting_ignores_event_order_and_non_scoring_events() {
    let mut start: HashMap<PlayerId, PlayerStatus> = HashMap::new();
    let mut s = PlayerStatus::new();
    s.score = 2;
    s.correct_count = 2;
    start.insert(1, s);

    let mut a = start.clone();
    let mut ev_a = events_of(&[(1, vec![Event::Buzz(1), Event::Wrong, Event::Correct]), (2, vec![Event::Wrong])]);
    let mut q_a = QuestionStatus::new();
    FreeBatting.apply(&mut a, &mut ev_a, &mut q_a);

    let mut b = start.clone();
    let mut ev_b = events_of(&[(1, vec![Event::Correct, Event::SetScore(3), Event::Wrong]), (2, vec![Event::Buzz(2), Event::Wrong])]);
    let mut q_b = QuestionStatus::new();
    FreeBatting.apply(&mut b, &mut ev_b, &mut q_b);

    assert_eq!(a, b);
    assert_eq!(q_a.finished, q_b.finished);
    assert_eq!((a[&1].score, a[&1].correct_count, a[&1].wrong_count), (3, 3, 1));
}

#[test]
fn selected_rule_is_the_rule_itself() {
    let start = |c: u32, w: u32| {
        let mut m: HashMap<PlayerId, PlayerStatus> = HashMap::new();
        let mut s = PlayerStatus::new();
        s.correct_count = c;
        s.wrong_count = w;
        m.insert(1, s);
        m
    };
    let evs = events_of(&[(1, vec![Event::Correct, Event::Wrong])]);

    let mut a = start(2, 1);
    let mut ev = evs.clone();
    let mut q = QuestionStatus::new();
    apply_selected_rule(&RuleOption::UpDown, 3, 2, &mut a, &mut ev, &mut q);
    let mut b = start(2, 1);
    let mut ev2 = evs.clone();
    let mut q2 = QuestionStatus::new();
    UpDown::new(3, 2).apply(&mut b, &mut ev2, &mut q2);
    assert_eq!(a, b);
    assert_eq!(q.finished, q2.finished);

    let mut a = start(2, 1);
    let mut ev = evs.clone();
    let mut q = QuestionStatus::new();
    apply_selected_rule(&RuleOption::NByM, 3, 4, &mut a, &mut ev, &mut q);
    let mut b = start(2, 1);
    let mut ev2 = evs.clone();
    let mut q2 = QuestionStatus::new();
    NByM::new(3, 4).apply(&mut b, &mut ev2, &mut q2);
    assert_eq!(a, b);
    assert_eq!(a[&1].score, 3 * (4 - 2));
}

#[test]
fn unused_rule_parameters_change_nothing() {
    let evs = events_of(&[(1, vec![Event::Wrong, Event::Wrong]), (2, vec![Event::Correct])]);
    let run = |rule: RuleOption, n: u32, m: u32| {
        let mut st: HashMap<PlayerId, PlayerStatus> = HashMap::new();
        let mut ev = evs.clone();
        let mut q = QuestionStatus::new();
        apply_selected_rule(&rule, n, m, &mut st, &mut ev, &mut q);
        (st, q.finished)
    };
    assert_eq!(run(RuleOption::FreeBatting, 1, 1), run(RuleOption::FreeBatting, 9, 5));
    assert_eq!(run(RuleOption::Freeze, 3, 1), run(RuleOption::Freeze, 3, 8));
}
