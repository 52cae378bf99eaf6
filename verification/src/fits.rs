//! Tells, ahead of scoring, whether a question's numbers fit their types.
use std::collections::HashMap;
use vstd::prelude::*;

use crate::data::{Event, PlayerId, PlayerStatus, QuestionStatus, RuleOption, SharedQuizState};
use crate::round::{buzz_total, newly_finished, newly_finished_players, AnswerButton};
use crate::terminal::{event_recorded, record_event};
use crate::rules::{
    apply_selected_rule, count_correct, count_wrong, correct_streak, n_by_m_score, n_by_m_target,
    round_in_range, selected_round_in_range, status_or_fresh,
    statuses_after, streak_within, FreeBatting, Freeze, NByM,
    NCorrectMWrong, PlayerRule, UpDown,
};

verus! {

broadcast use vstd::std_specs::hash::group_hash_axioms;

proof fn lemma_counts_bounded(evs: Seq<Event>)
    ensures
        count_correct(evs) <= evs.len(),
        count_wrong(evs) <= evs.len(),
        correct_streak(evs) <= evs.len(),
    decreases evs.len(),
{
    if evs.len() > 0 {
        lemma_counts_bounded(evs.drop_last());
    }
}

/// What one pass over a player's events finds, counted without limits.
pub struct EventCounts {
    pub correct: u64,
    pub wrong: u64,
    pub streak: u64,
    /// Whether the streak of correct answers stayed within `i32` all along.
    pub streak_fits: bool,
}

/// Counts a player's correct and wrong answers and the closing streak.
pub fn event_counts(events: &Vec<Event>) -> (c: EventCounts)
    ensures
        c.correct == count_correct(events@),
        c.wrong == count_wrong(events@),
        c.streak == correct_streak(events@),
        c.streak_fits == streak_within(events@, i32::MAX as int),
{
    let len = events.len();
    let mut c = EventCounts { correct: 0, wrong: 0, streak: 0, streak_fits: true };
    let mut j: usize = 0;
    while j < len
        invariant
            len == events@.len(),
            j <= len,
            c.correct == count_correct(events@.take(j as int)),
            c.wrong == count_wrong(events@.take(j as int)),
            c.streak == correct_streak(events@.take(j as int)),
            c.streak_fits == forall|k: int|
                0 <= k <= j ==> #[trigger] correct_streak(events@.take(k)) <= i32::MAX,
        decreases len - j,
    {
        proof {
            assert(events@.take(j as int + 1).drop_last() == events@.take(j as int));
            lemma_counts_bounded(events@.take(j as int));
            assert(events@.take(j as int).len() == j);
        }
        match events[j] {
            Event::Correct => {
                c.correct += 1;
                c.streak += 1;
            },
            Event::Wrong => {
                c.wrong += 1;
                c.streak = 0;
            },
            _ => {},
        }
        let ok = c.streak <= 0x7fff_ffff;
        proof {
            assert(events@.take(j as int + 1).last() == events@[j as int]);
            assert(c.streak == correct_streak(events@.take(j as int + 1)));
            let next = c.streak_fits && ok;
            let all = forall|k: int|
                0 <= k <= j + 1 ==> #[trigger] correct_streak(events@.take(k)) <= i32::MAX;
            if next {
                assert forall|k: int| 0 <= k <= j + 1 implies #[trigger] correct_streak(
                    events@.take(k),
                ) <= i32::MAX by {
                    if k <= j {
                    }
                }
            }
            if all {
                assert(correct_streak(events@.take(j as int + 1)) <= i32::MAX);
                assert forall|k: int| 0 <= k <= j implies #[trigger] correct_streak(
                    events@.take(k),
                ) <= i32::MAX by {}
            }
            assert(next == all);
        }
        c.streak_fits = c.streak_fits && ok;
        j += 1;
    }
    assert(events@.take(len as int) == events@);
    c
}

/// Whether the chosen rule's arithmetic stays in range for one player.
pub open spec fn rule_fits(
    rule_option: RuleOption,
    n: u32,
    m: u32,
    s: PlayerStatus,
    events: Seq<Event>,
) -> bool {
    match rule_option {
        RuleOption::FreeBatting => FreeBatting.in_range(s, events),
        RuleOption::NCorrectMWrong => (NCorrectMWrong { n, m }).in_range(s, events),
        RuleOption::UpDown => (UpDown { n, m }).in_range(s, events),
        RuleOption::Freeze => (Freeze { n }).in_range(s, events),
        RuleOption::NByM => (NByM { n, m }).in_range(s, events),
    }
}

/// Tells whether the chosen rule's arithmetic stays in range for one player.
pub fn status_fits(rule_option: RuleOption, n: u32, m: u32, s: &PlayerStatus, events: &Vec<Event>) -> (r: bool)
    ensures
        r == rule_fits(rule_option, n, m, *s, events@),
{
    let c = event_counts(events);
    let max32: u64 = 0x7fff_ffff;
    let umax32: u64 = 0xffff_ffff;
    if c.wrong > max32 || s.wrong_count as u64 + c.wrong > umax32 {
        return false;
    }
    match rule_option {
        RuleOption::UpDown => {
            if !c.streak_fits {
                return false;
            }
            assert(correct_streak(events@.take(events@.len() as int)) <= i32::MAX);
            assert(events@.take(events@.len() as int) == events@);
            s.correct_count as u64 + c.streak <= umax32 && s.score as i64
                + c.streak as i64 <= max32 as i64
        },
        RuleOption::FreeBatting | RuleOption::NCorrectMWrong | RuleOption::Freeze => {
            let basic = c.correct <= max32 && s.correct_count as u64 + c.correct <= umax32
                && s.score as i64 + c.correct as i64 <= max32 as i64;
            if let RuleOption::Freeze = rule_option {
                basic && (c.wrong == 0 || s.wrong_count as u64 + c.wrong + 1 <= umax32)
            } else {
                basic
            }
        },
        RuleOption::NByM => {
            if c.correct > max32 || s.correct_count as u64 + c.correct > umax32 {
                return false;
            }
            let correct_count = (s.correct_count as u64 + c.correct) as u32;
            let wrong_count = (s.wrong_count as u64 + c.wrong) as u32;
            if wrong_count > m {
                return false;
            }
            let a = #[verifier::truncate] (correct_count as i32) as i64;
            let b = #[verifier::truncate] ((m - wrong_count) as i32) as i64;
            let na = #[verifier::truncate] (n as i32) as i64;
            let nb = #[verifier::truncate] (m as i32) as i64;
            assert(-0x8000_0000 <= a <= 0x7fff_ffff && -0x8000_0000 <= b <= 0x7fff_ffff);
            assert(-0x4000_0000_0000_0000 <= a * b <= 0x4000_0000_0000_0000) by (nonlinear_arith)
                requires
                    -0x8000_0000 <= a <= 0x7fff_ffff,
                    -0x8000_0000 <= b <= 0x7fff_ffff,
            ;
            assert(-0x4000_0000_0000_0000 <= na * nb <= 0x4000_0000_0000_0000) by (nonlinear_arith)
                requires
                    -0x8000_0000 <= na <= 0x7fff_ffff,
                    -0x8000_0000 <= nb <= 0x7fff_ffff,
            ;
            let score = a * b;
            let target = na * nb;
            assert(score == n_by_m_score(correct_count, wrong_count, m));
            assert(target == n_by_m_target(n, m));
            -0x8000_0000 <= score && score <= 0x7fff_ffff && -0x8000_0000 <= target && target
                <= 0x7fff_ffff
        },
    }
}

proof fn lemma_round_fits(
    rule_option: RuleOption,
    n: u32,
    m: u32,
    statuses: Map<PlayerId, PlayerStatus>,
    events: Map<PlayerId, Vec<Event>>,
)
    ensures
        selected_round_in_range(rule_option, n, m, statuses, events) == forall|k: PlayerId| #[trigger]
            events.contains_key(k) ==> rule_fits(rule_option, n, m, status_or_fresh(statuses, k), events[k]@),
{
}

/// Tells whether the chosen rule's arithmetic stays in range for every
/// player with events.
pub fn round_fits(
    rule_option: RuleOption,
    n: u32,
    m: u32,
    statuses: &HashMap<PlayerId, PlayerStatus>,
    events: &HashMap<PlayerId, Vec<Event>>,
) -> (r: bool)
    ensures
        r == selected_round_in_range(rule_option, n, m, statuses@, events@),
{
    proof {
        lemma_round_fits(rule_option, n, m, statuses@, events@);
    }
    let keys = crate::keys::map_keys(events);
    let mut i: usize = 0;
    while i < keys.len()
        invariant
            i <= keys@.len(),
            keys@.to_set() == events@.dom(),
            forall|j: int|
                0 <= j < i ==> rule_fits(
                    rule_option,
                    n,
                    m,
                    status_or_fresh(statuses@, #[trigger] keys@[j]),
                    events@[keys@[j]]@,
                ),
        decreases keys@.len() - i,
    {
        let pid = keys[i];
        assert(keys@.to_set().contains(pid)) by {
            assert(keys@.contains(pid));
        }
        let s = match statuses.get(&pid) {
            Some(s) => *s,
            None => PlayerStatus::new(),
        };
        if !status_fits(rule_option, n, m, &s, events.get(&pid).unwrap()) {
            return false;
        }
        i += 1;
    }
    assert forall|k: PlayerId| #[trigger] events@.contains_key(k) implies rule_fits(
        rule_option,
        n,
        m,
        status_or_fresh(statuses@, k),
        events@[k]@,
    ) by {
        assert(keys@.to_set().contains(k));
        let j = choose|j: int| 0 <= j < keys@.len() && keys@[j] == k;
        assert(rule_fits(rule_option, n, m, status_or_fresh(statuses@, keys@[j]), events@[keys@[j]]@));
    }
    true
}

/// Counts the players who have just won or been eliminated and have no
/// finishing rank yet.
pub fn count_newly_finished(statuses: &HashMap<PlayerId, PlayerStatus>) -> (count: usize)
    ensures
        count == newly_finished_players(statuses@).len(),
{
    let ghost st = statuses@;
    let ghost newly = newly_finished_players(st);
    proof {
        st.dom().lemma_len_filter(|k: PlayerId| newly_finished(st[k]));
    }
    let keys = crate::keys::map_keys(statuses);
    proof {
        keys@.unique_seq_to_set();
        vstd::set_lib::lemma_len_subset(newly, st.dom());
    }
    let ghost mut found: Seq<PlayerId> = Seq::empty();
    let mut count: usize = 0;
    let mut i: usize = 0;
    while i < keys.len()
        invariant
            i <= keys@.len(),
            keys@.no_duplicates(),
            keys@.to_set() == st.dom(),
            st == statuses@,
            newly == newly_finished_players(st),
            newly.finite(),
            newly.len() <= keys@.len(),
            found.no_duplicates(),
            count == found.len(),
            forall|k: PlayerId|
                #[trigger] found.contains(k) <==> (keys@.take(i as int).contains(k) && newly.contains(k)),
        decreases keys@.len() - i,
    {
        let pid = keys[i];
        assert(keys@.to_set().contains(pid)) by {
            assert(keys@.contains(pid));
        }
        assert(!keys@.take(i as int).contains(pid)) by {
            if keys@.take(i as int).contains(pid) {
                let t0 = keys@.take(i as int);
                let j = choose|j: int| 0 <= j < t0.len() && t0[j] == pid;
                assert(keys@[j] == pid);
            }
        }
        assert(keys@.take(i as int + 1) == keys@.take(i as int).push(pid));
        let s = statuses.get(&pid).unwrap();
        let is_new = s.finish_rank.is_none() && (s.is_winner || s.is_eliminated);
        let ghost old_found = found;
        if is_new {
            proof {
                assert(newly.contains(pid));
                assert(found.to_set().subset_of(newly.remove(pid)));
                vstd::set_lib::lemma_len_subset(found.to_set(), newly.remove(pid));
                found.unique_seq_to_set();
                found = found.push(pid);
            }
            count += 1;
        }
        proof {
            assert forall|k: PlayerId| #[trigger] found.contains(k) <==> (keys@.take(i as int + 1).contains(k)
                && newly.contains(k)) by {
                if keys@.take(i as int + 1).contains(k) && k != pid {
                    let t1 = keys@.take(i as int + 1);
                    let j = choose|j: int| 0 <= j < t1.len() && t1[j] == k;
                    assert(keys@.take(i as int)[j] == k);
                }
                if keys@.take(i as int).contains(k) {
                    let t0 = keys@.take(i as int);
                    let j = choose|j: int| 0 <= j < t0.len() && t0[j] == k;
                    assert(keys@.take(i as int + 1)[j] == k);
                }
                if k == pid {
                    assert(keys@.take(i as int + 1)[i as int] == pid);
                    if is_new {
                        assert(found[old_found.len() as int] == pid);
                    }
                }
                if found.contains(k) && k != pid && is_new {
                    let j = choose|j: int| 0 <= j < found.len() && found[j] == k;
                    assert(old_found[j] == k);
                }
                if old_found.contains(k) && is_new {
                    let j = choose|j: int| 0 <= j < old_found.len() && old_found[j] == k;
                    assert(found[j] == k);
                }
            }
        }
        i += 1;
    }
    proof {
        assert(keys@.take(keys@.len() as int) == keys@);
        assert forall|k: PlayerId| found.to_set().contains(k) <==> newly.contains(k) by {
            if newly.contains(k) {
                assert(keys@.to_set().contains(k));
            }
        }
        assert(found.to_set() =~= newly);
        found.unique_seq_to_set();
    }
    count
}

/// Whether two event maps hold the same players with the same events.
pub open spec fn same_events(e1: Map<PlayerId, Vec<Event>>, e2: Map<PlayerId, Vec<Event>>) -> bool {
    &&& e1.dom() == e2.dom()
    &&& forall|k: PlayerId| #[trigger] e1.contains_key(k) ==> e1[k]@ == e2[k]@
}

proof fn lemma_scoring_sees_events_only<R: PlayerRule>(
    rule: R,
    statuses: Map<PlayerId, PlayerStatus>,
    e1: Map<PlayerId, Vec<Event>>,
    e2: Map<PlayerId, Vec<Event>>,
)
    requires
        same_events(e1, e2),
    ensures
        statuses_after(rule, statuses, e1) == statuses_after(rule, statuses, e2),
        round_in_range(rule, statuses, e1) == round_in_range(rule, statuses, e2),
{
    assert(statuses_after(rule, statuses, e1) =~= statuses_after(rule, statuses, e2));
    if round_in_range(rule, statuses, e1) {
        assert forall|k: PlayerId| #[trigger] e2.contains_key(k) implies rule.in_range(
            status_or_fresh(statuses, k),
            e2[k]@,
        ) by {
            assert(e1.contains_key(k));
        }
    }
    if round_in_range(rule, statuses, e2) {
        assert forall|k: PlayerId| #[trigger] e1.contains_key(k) implies rule.in_range(
            status_or_fresh(statuses, k),
            e1[k]@,
        ) by {
            assert(e2.contains_key(k));
        }
    }
}

proof fn lemma_can_score_sees_events_only(
    state: SharedQuizState,
    e1: Map<PlayerId, Vec<Event>>,
    e2: Map<PlayerId, Vec<Event>>,
)
    requires
        same_events(e1, e2),
    ensures
        state.can_score_with(e1) == state.can_score_with(e2),
{
    let st = state.display_statuses@;
    let (n, m) = (state.n_correct, state.m_wrong);
    match state.rule_option {
        RuleOption::FreeBatting => lemma_scoring_sees_events_only(FreeBatting, st, e1, e2),
        RuleOption::NCorrectMWrong => lemma_scoring_sees_events_only(NCorrectMWrong { n, m }, st, e1, e2),
        RuleOption::UpDown => lemma_scoring_sees_events_only(UpDown { n, m }, st, e1, e2),
        RuleOption::Freeze => lemma_scoring_sees_events_only(Freeze { n }, st, e1, e2),
        RuleOption::NByM => lemma_scoring_sees_events_only(NByM { n, m }, st, e1, e2),
    }
    assert(state.scored_with(e1) == state.scored_with(e2));
}

impl SharedQuizState {
    /// Tells whether the given events can be scored: the rule's arithmetic
    /// stays in range and there are finishing ranks left.
    pub fn can_score(&self, events: &HashMap<PlayerId, Vec<Event>>) -> (r: bool)
        ensures
            r == self.can_score_with(events@),
    {
        if !round_fits(self.rule_option, self.n_correct, self.m_wrong, &self.display_statuses, events) {
            return false;
        }
        let mut scored = self.display_statuses.clone();
        let mut events_copy = events.clone();
        let mut question = QuestionStatus::new();
        apply_selected_rule(
            &self.rule_option,
            self.n_correct,
            self.m_wrong,
            &mut scored,
            &mut events_copy,
            &mut question,
        );
        let count = count_newly_finished(&scored);
        count as u64 <= 0xffff_ffff - self.next_finish_rank as u64
    }

    /// Tells whether pressing an answer button for a player can be scored:
    /// the buzz number fits, and so does scoring the events with the new one.
    pub fn button_fits(&self, pid: PlayerId, button: AnswerButton) -> (r: bool)
        ensures
            r == ((button is Buzz ==> buzz_total(self.player_events@) <= usize::MAX && (buzz_total(
                self.player_events@,
            ) as u32) < u32::MAX) && forall|events: Map<PlayerId, Vec<Event>>|
                #[trigger] event_recorded(self.player_events@, events, pid, self.button_event(button))
                    ==> self.can_score_with(events)),
    {
        let event = match button {
            AnswerButton::Correct => Event::Correct,
            AnswerButton::Wrong => Event::Wrong,
            AnswerButton::Buzz => {
                let total = match self.buzz_count() {
                    Some(t) => t,
                    None => return false,
                };
                if #[verifier::truncate] (total as u32) == 0xffff_ffff {
                    return false;
                }
                Event::Buzz(#[verifier::truncate] (total as u32) + 1)
            },
        };
        assert(event == self.button_event(button));
        let mut events = self.player_events.clone();
        record_event(&mut events, pid, event);
        let r = self.can_score(&events);
        proof {
            assert forall|other: Map<PlayerId, Vec<Event>>|
                #[trigger] event_recorded(self.player_events@, other, pid, event) implies self.can_score_with(
                other,
            ) == r by {
                assert(same_events(events@, other)) by {
                    assert(events@.dom() == other.dom());
                    assert forall|k: PlayerId| #[trigger] events@.contains_key(k) implies events@[k]@
                        == other[k]@ by {
                        if k != pid {
                            assert(self.player_events@.contains_key(k));
                        }
                    }
                }
                lemma_can_score_sees_events_only(*self, events@, other);
            }
            if !r {
                assert(event_recorded(self.player_events@, events@, pid, event));
            }
        }
        r
    }
}

} // verus!
