use std::collections::HashMap;
use vstd::prelude::*;

use crate::data::{fresh_status, Event, PlayerId, PlayerStatus, QuestionStatus, RuleOption};
use crate::keys::map_keys;

verus! {

broadcast use vstd::std_specs::hash::group_hash_axioms;

// ---------------------------------------------------------------------------
// What a question's events amount to
// ---------------------------------------------------------------------------

/// The number of correct answers among the events.
pub open spec fn count_correct(evs: Seq<Event>) -> nat
    decreases evs.len(),
{
    if evs.len() == 0 {
        0
    } else {
        count_correct(evs.drop_last()) + if evs.last() == Event::Correct {
            1nat
        } else {
            0nat
        }
    }
}

/// The number of wrong answers among the events.
pub open spec fn count_wrong(evs: Seq<Event>) -> nat
    decreases evs.len(),
{
    if evs.len() == 0 {
        0
    } else {
        count_wrong(evs.drop_last()) + if evs.last() == Event::Wrong {
            1nat
        } else {
            0nat
        }
    }
}

/// The correct answers given after the last wrong one (all of them when
/// none was wrong).
pub open spec fn correct_streak(evs: Seq<Event>) -> nat
    decreases evs.len(),
{
    if evs.len() == 0 {
        0
    } else if evs.last() == Event::Correct {
        correct_streak(evs.drop_last()) + 1
    } else if evs.last() == Event::Wrong {
        0
    } else {
        correct_streak(evs.drop_last())
    }
}

/// Whether the running streak of correct answers stays within `bound` at
/// every point of the events.
pub open spec fn streak_within(evs: Seq<Event>, bound: int) -> bool {
    forall|j: int| 0 <= j <= evs.len() ==> #[trigger] correct_streak(evs.take(j)) <= bound
}

proof fn lemma_counts_of_prefix(evs: Seq<Event>, j: int)
    requires
        0 <= j <= evs.len(),
    ensures
        count_correct(evs.take(j)) <= count_correct(evs),
        count_wrong(evs.take(j)) <= count_wrong(evs),
    decreases evs.len(),
{
    if j < evs.len() {
        assert(evs.drop_last().take(j) == evs.take(j));
        lemma_counts_of_prefix(evs.drop_last(), j);
    } else {
        assert(evs.take(j) == evs);
    }
}

/// What one pass over a player's events collects.
struct Tally {
    pub correct: i32,
    pub wrong: i32,
    pub saw_correct: bool,
}

/// Counts the correct and wrong answers among a player's events.
fn tally(events: &Vec<Event>) -> (t: Tally)
    requires
        count_correct(events@) <= i32::MAX,
        count_wrong(events@) <= i32::MAX,
    ensures
        t.correct == count_correct(events@),
        t.wrong == count_wrong(events@),
        t.saw_correct == events@.contains(Event::Correct),
{
    let mut correct: i32 = 0;
    let mut wrong: i32 = 0;
    let mut saw_correct = false;
    let mut j: usize = 0;
    while j < events.len()
        invariant
            j <= events.len(),
            count_correct(events@) <= i32::MAX,
            count_wrong(events@) <= i32::MAX,
            correct == count_correct(events@.take(j as int)),
            wrong == count_wrong(events@.take(j as int)),
            saw_correct == events@.take(j as int).contains(Event::Correct),
        decreases events.len() - j,
    {
        let ghost before = events@.take(j as int);
        let ghost after = events@.take(j as int + 1);
        proof {
            assert(after.drop_last() == before);
            lemma_counts_of_prefix(events@, j as int + 1);
            assert(after.contains(Event::Correct) <==> (before.contains(Event::Correct)
                || events@[j as int] == Event::Correct)) by {
                if after.contains(Event::Correct) {
                    let k = choose|k: int| 0 <= k < after.len() && after[k] == Event::Correct;
                    if k < j {
                        assert(before[k] == Event::Correct);
                    }
                }
                if before.contains(Event::Correct) {
                    let k = choose|k: int| 0 <= k < before.len() && before[k] == Event::Correct;
                    assert(after[k] == Event::Correct);
                }
                if events@[j as int] == Event::Correct {
                    assert(after[j as int] == Event::Correct);
                }
            }
        }
        match events[j] {
            Event::Buzz(_) => {},
            Event::Correct => {
                saw_correct = true;
                correct += 1;
            },
            Event::Wrong => {
                wrong += 1;
            },
            _ => {},
        }
        j += 1;
    }
    assert(events@.take(events.len() as int) == events@);
    Tally { correct, wrong, saw_correct }
}

/// What one pass over a player's events collects under UpDown, where a
/// wrong answer wipes out the correct answers before it.
struct StreakTally {
    pub streak: i32,
    pub wrong: i32,
    pub saw_correct: bool,
}

/// Counts the correct answers since the last wrong one, and the wrong answers.
fn tally_streak(events: &Vec<Event>) -> (t: StreakTally)
    requires
        streak_within(events@, i32::MAX as int),
        count_wrong(events@) <= i32::MAX,
    ensures
        t.streak == correct_streak(events@),
        t.wrong == count_wrong(events@),
        t.saw_correct == events@.contains(Event::Correct),
{
    let mut streak: i32 = 0;
    let mut wrong: i32 = 0;
    let mut saw_correct = false;
    let mut j: usize = 0;
    while j < events.len()
        invariant
            j <= events.len(),
            streak_within(events@, i32::MAX as int),
            count_wrong(events@) <= i32::MAX,
            streak == correct_streak(events@.take(j as int)),
            wrong == count_wrong(events@.take(j as int)),
            saw_correct == events@.take(j as int).contains(Event::Correct),
        decreases events.len() - j,
    {
        let ghost before = events@.take(j as int);
        let ghost after = events@.take(j as int + 1);
        proof {
            assert(after.drop_last() == before);
            lemma_counts_of_prefix(events@, j as int + 1);
            assert(correct_streak(events@.take(j as int + 1)) <= i32::MAX);
            assert(after.contains(Event::Correct) <==> (before.contains(Event::Correct)
                || events@[j as int] == Event::Correct)) by {
                if after.contains(Event::Correct) {
                    let k = choose|k: int| 0 <= k < after.len() && after[k] == Event::Correct;
                    if k < j {
                        assert(before[k] == Event::Correct);
                    }
                }
                if before.contains(Event::Correct) {
                    let k = choose|k: int| 0 <= k < before.len() && before[k] == Event::Correct;
                    assert(after[k] == Event::Correct);
                }
                if events@[j as int] == Event::Correct {
                    assert(after[j as int] == Event::Correct);
                }
            }
        }
        match events[j] {
            Event::Buzz(_) => {},
            Event::Correct => {
                saw_correct = true;
                streak += 1;
            },
            Event::Wrong => {
                wrong += 1;
                streak = 0;
            },
            _ => {},
        }
        j += 1;
    }
    assert(events@.take(events.len() as int) == events@);
    StreakTally { streak, wrong, saw_correct }
}

// ---------------------------------------------------------------------------
// Rules
// ---------------------------------------------------------------------------

/// How a player's status changes with the events of one question.
pub trait PlayerRule: Sized {
    /// The status a player has after a question, from the status before it
    /// and the player's events in it.
    spec fn next_status(&self, status: PlayerStatus, events: Seq<Event>) -> PlayerStatus;

    /// Whether the arithmetic of `next_status` stays within the integer
    /// types of the status.
    spec fn in_range(&self, status: PlayerStatus, events: Seq<Event>) -> bool;

    /// Whether a correct answer ends the question under this rule.
    spec fn finishes_on_correct(&self) -> bool;

    /// Applies the rule to one player's events; the flag tells whether the
    /// events end the question.
    fn update_status(&self, status: PlayerStatus, events: &Vec<Event>) -> (r: (PlayerStatus, bool))
        requires
            self.in_range(status, events@),
        ensures
            r.0 == self.next_status(status, events@),
            r.1 == (self.finishes_on_correct() && events@.contains(Event::Correct)),
    ;
}

/// A scoring rule, applied to all the events of a question at once.
pub trait QuizRule: PlayerRule {
    /// Applies the rule to the events of a question: each player with events
    /// gets the status that `next_status` gives (starting from a fresh status
    /// when the player had none), every other status stays, and the question
    /// is finished when the rule ends it on a correct answer that occurred.
    fn apply(
        &self,
        player_statuses: &mut HashMap<PlayerId, PlayerStatus>,
        player_events: &mut HashMap<PlayerId, Vec<Event>>,
        question_status: &mut QuestionStatus,
    )
        requires
            forall|k: PlayerId| #[trigger]
                old(player_events)@.contains_key(k) ==> self.in_range(
                    status_or_fresh(old(player_statuses)@, k),
                    old(player_events)@[k]@,
                ),
        ensures
            final(player_events)@ == old(player_events)@,
            final(player_statuses)@.dom() == old(player_statuses)@.dom() + old(
                player_events,
            )@.dom(),
            forall|k: PlayerId| #[trigger]
                old(player_events)@.contains_key(k) ==> final(player_statuses)@[k]
                    == self.next_status(
                    status_or_fresh(old(player_statuses)@, k),
                    old(player_events)@[k]@,
                ),
            forall|k: PlayerId|
                old(player_statuses)@.contains_key(k) && !old(player_events)@.contains_key(k)
                    ==> #[trigger] final(player_statuses)@[k] == old(player_statuses)@[k],
            final(question_status).locked@ == old(question_status).locked@,
            final(question_status).finished == (old(question_status).finished || (
            self.finishes_on_correct() && some_correct(old(player_events)@))),
    ;
}

/// A player's status before a question: the recorded one, or a fresh one.
pub open spec fn status_or_fresh(statuses: Map<PlayerId, PlayerStatus>, k: PlayerId) -> PlayerStatus {
    if statuses.contains_key(k) {
        statuses[k]
    } else {
        fresh_status()
    }
}

/// The statuses after the rule has been applied to the players in `done`.
pub open spec fn statuses_after_players<R: PlayerRule>(
    rule: R,
    statuses: Map<PlayerId, PlayerStatus>,
    events: Map<PlayerId, Vec<Event>>,
    done: Set<PlayerId>,
) -> Map<PlayerId, PlayerStatus> {
    Map::new(
        |k: PlayerId| statuses.contains_key(k) || done.contains(k),
        |k: PlayerId|
            if done.contains(k) {
                rule.next_status(status_or_fresh(statuses, k), events[k]@)
            } else {
                statuses[k]
            },
    )
}

/// The statuses after the rule has been applied to a question's events.
pub open spec fn statuses_after<R: PlayerRule>(
    rule: R,
    statuses: Map<PlayerId, PlayerStatus>,
    events: Map<PlayerId, Vec<Event>>,
) -> Map<PlayerId, PlayerStatus> {
    statuses_after_players(rule, statuses, events, events.dom())
}

/// Whether the rule's arithmetic stays in range for every player with events.
pub open spec fn round_in_range<R: PlayerRule>(
    rule: R,
    statuses: Map<PlayerId, PlayerStatus>,
    events: Map<PlayerId, Vec<Event>>,
) -> bool {
    forall|k: PlayerId| #[trigger]
        events.contains_key(k) ==> rule.in_range(status_or_fresh(statuses, k), events[k]@)
}

/// Whether some player answered correctly.
pub open spec fn some_correct(events: Map<PlayerId, Vec<Event>>) -> bool {
    exists|k: PlayerId| #[trigger] events.contains_key(k) && events[k]@.contains(Event::Correct)
}

/// Applies a rule to every player's events of a question.
fn apply_rule<R: PlayerRule>(
    rule: &R,
    player_statuses: &mut HashMap<PlayerId, PlayerStatus>,
    player_events: &HashMap<PlayerId, Vec<Event>>,
    question_status: &mut QuestionStatus,
)
    requires
        round_in_range(*rule, old(player_statuses)@, player_events@),
    ensures
        final(player_statuses)@ == statuses_after(*rule, old(player_statuses)@, player_events@),
        final(question_status).locked@ == old(question_status).locked@,
        final(question_status).finished == (old(question_status).finished || (
        rule.finishes_on_correct() && some_correct(player_events@))),
{
    let ghost start = player_statuses@;
    let ghost finished0 = question_status.finished;
    let keys = map_keys(player_events);
    let mut i: usize = 0;
    while i < keys.len()
        invariant
            i <= keys.len(),
            keys@.no_duplicates(),
            keys@.to_set() == player_events@.dom(),
            round_in_range(*rule, start, player_events@),
            player_statuses@ == statuses_after_players(
                *rule,
                start,
                player_events@,
                keys@.take(i as int).to_set(),
            ),
            question_status.locked@ == old(question_status).locked@,
            question_status.finished == (finished0 || (rule.finishes_on_correct() && exists|j: int|
                0 <= j < i && #[trigger] player_events@[keys@[j]]@.contains(Event::Correct))),
        decreases keys.len() - i,
    {
        let pid = keys[i];
        let ghost done = keys@.take(i as int).to_set();
        assert(keys@.to_set().contains(pid)) by {
            assert(keys@.contains(pid));
        }
        assert(!done.contains(pid)) by {
            if done.contains(pid) {
                let j = choose|j: int| 0 <= j < i && keys@[j] == pid;
                assert(keys@.take(i as int)[j] == pid);
            }
        }
        let events = player_events.get(&pid).unwrap();
        let status = match player_statuses.get(&pid) {
            Some(s) => *s,
            None => PlayerStatus::new(),
        };
        assert(status == status_or_fresh(start, pid));
        assert(rule.in_range(status_or_fresh(start, pid), player_events@[pid]@));
        let (new_status, ends) = rule.update_status(status, events);
        player_statuses.insert(pid, new_status);
        if ends {
            question_status.finished = true;
        }
        proof {
            let next_done = keys@.take(i as int + 1).to_set();
            assert(keys@.take(i as int + 1) == keys@.take(i as int).push(pid));
            keys@.take(i as int).lemma_push_to_set_commute(pid);
            assert(next_done == done.insert(pid));
            assert(player_statuses@ =~= statuses_after_players(
                *rule,
                start,
                player_events@,
                next_done,
            ));
            if ends {
                assert(player_events@[keys@[i as int]]@.contains(Event::Correct));
            }
        }
        i += 1;
    }
    proof {
        assert(keys@.take(keys.len() as int) == keys@);
        if rule.finishes_on_correct() && some_correct(player_events@) {
            let k = choose|k: PlayerId| #[trigger] player_events@.contains_key(k)
                && player_events@[k]@.contains(Event::Correct);
            assert(keys@.to_set().contains(k));
            let j = choose|j: int| 0 <= j < keys.len() && keys@[j] == k;
            assert(player_events@[keys@[j]]@.contains(Event::Correct));
        }
        if rule.finishes_on_correct() && exists|j: int|
            0 <= j < keys.len() && #[trigger] player_events@[keys@[j]]@.contains(Event::Correct) {
            let j = choose|j: int|
                0 <= j < keys.len() && #[trigger] player_events@[keys@[j]]@.contains(Event::Correct);
            assert(keys@.to_set().contains(keys@[j]));
            assert(player_events@.contains_key(keys@[j]));
        }
    }
}

/// The rule without limits: every correct answer scores a point.
pub struct FreeBatting;

impl PlayerRule for FreeBatting {
    open spec fn next_status(&self, status: PlayerStatus, events: Seq<Event>) -> PlayerStatus {
        PlayerStatus {
            correct_count: (status.correct_count + count_correct(events)) as u32,
            wrong_count: (status.wrong_count + count_wrong(events)) as u32,
            score: (status.score + count_correct(events)) as i32,
            ..status
        }
    }

    open spec fn in_range(&self, status: PlayerStatus, events: Seq<Event>) -> bool {
        &&& count_correct(events) <= i32::MAX
        &&& count_wrong(events) <= i32::MAX
        &&& status.correct_count + count_correct(events) <= u32::MAX
        &&& status.wrong_count + count_wrong(events) <= u32::MAX
        &&& status.score + count_correct(events) <= i32::MAX
    }

    open spec fn finishes_on_correct(&self) -> bool {
        true
    }

    fn update_status(&self, status: PlayerStatus, events: &Vec<Event>) -> (r: (PlayerStatus, bool)) {
        let t = tally(events);
        let mut status = status;
        status.correct_count += t.correct as u32;
        status.wrong_count += t.wrong as u32;
        status.score += t.correct;
        (status, t.saw_correct)
    }

}

impl QuizRule for FreeBatting {
    fn apply(
        &self,
        player_statuses: &mut HashMap<PlayerId, PlayerStatus>,
        player_events: &mut HashMap<PlayerId, Vec<Event>>,
        question_status: &mut QuestionStatus,
    ) {
        apply_rule(self, player_statuses, player_events, question_status);
        assert(player_statuses@.dom() =~= old(player_statuses)@.dom() + old(player_events)@.dom());
    }
}

/// First to `n` correct answers wins; `m` wrong answers eliminate.
pub struct NCorrectMWrong {
    pub n: u32,
    pub m: u32,
}

impl NCorrectMWrong {
    pub fn new(n: u32, m: u32) -> (r: Self)
        ensures
            r.n == n,
            r.m == m,
    {
        Self { n, m }
    }
}

impl PlayerRule for NCorrectMWrong {
    open spec fn next_status(&self, status: PlayerStatus, events: Seq<Event>) -> PlayerStatus {
        let correct_count = (status.correct_count + count_correct(events)) as u32;
        let wrong_count = (status.wrong_count + count_wrong(events)) as u32;
        let score = (status.score + count_correct(events)) as i32;
        PlayerStatus {
            correct_count,
            wrong_count,
            score,
            is_winner: status.is_winner || score >= self.n as i32,
            is_eliminated: status.is_eliminated || wrong_count >= self.m,
            ..status
        }
    }

    open spec fn in_range(&self, status: PlayerStatus, events: Seq<Event>) -> bool {
        &&& count_correct(events) <= i32::MAX
        &&& count_wrong(events) <= i32::MAX
        &&& status.correct_count + count_correct(events) <= u32::MAX
        &&& status.wrong_count + count_wrong(events) <= u32::MAX
        &&& status.score + count_correct(events) <= i32::MAX
    }

    open spec fn finishes_on_correct(&self) -> bool {
        true
    }

    fn update_status(&self, status: PlayerStatus, events: &Vec<Event>) -> (r: (PlayerStatus, bool)) {
        let t = tally(events);
        let mut status = status;
        status.correct_count += t.correct as u32;
        status.wrong_count += t.wrong as u32;
        status.score += t.correct;
        if status.score >= self.n as i32 {
            status.is_winner = true;
        }
        if status.wrong_count >= self.m {
            status.is_eliminated = true;
        }
        (status, t.saw_correct)
    }
}

impl QuizRule for NCorrectMWrong {
    fn apply(
        &self,
        player_statuses: &mut HashMap<PlayerId, PlayerStatus>,
        player_events: &mut HashMap<PlayerId, Vec<Event>>,
        question_status: &mut QuestionStatus,
    ) {
        apply_rule(self, player_statuses, player_events, question_status);
        assert(player_statuses@.dom() =~= old(player_statuses)@.dom() + old(player_events)@.dom());
    }
}

/// First to `n` correct answers wins; a wrong answer freezes the player for
/// as many questions as wrong answers so far, plus one.
pub struct Freeze {
    pub n: u32,
}

impl Freeze {
    pub fn new(n: u32) -> (r: Self)
        ensures
            r.n == n,
    {
        Self { n }
    }
}

impl PlayerRule for Freeze {
    open spec fn next_status(&self, status: PlayerStatus, events: Seq<Event>) -> PlayerStatus {
        let correct_count = (status.correct_count + count_correct(events)) as u32;
        let wrong_count = (status.wrong_count + count_wrong(events)) as u32;
        let score = (status.score + count_correct(events)) as i32;
        PlayerStatus {
            correct_count,
            wrong_count,
            score,
            freeze_count: if count_wrong(events) > 0 {
                (wrong_count + 1) as u32
            } else {
                status.freeze_count
            },
            is_winner: status.is_winner || score >= self.n as i32,
            ..status
        }
    }

    open spec fn in_range(&self, status: PlayerStatus, events: Seq<Event>) -> bool {
        &&& count_correct(events) <= i32::MAX
        &&& count_wrong(events) <= i32::MAX
        &&& status.correct_count + count_correct(events) <= u32::MAX
        &&& status.wrong_count + count_wrong(events) <= u32::MAX
        &&& status.score + count_correct(events) <= i32::MAX
        &&& count_wrong(events) > 0 ==> status.wrong_count + count_wrong(events) + 1 <= u32::MAX
    }

    open spec fn finishes_on_correct(&self) -> bool {
        false
    }

    fn update_status(&self, status: PlayerStatus, events: &Vec<Event>) -> (r: (PlayerStatus, bool)) {
        let t = tally(events);
        let mut status = status;
        status.correct_count += t.correct as u32;
        status.wrong_count += t.wrong as u32;
        status.score += t.correct;
        if t.wrong > 0 {
            status.freeze_count = status.wrong_count + 1;
        }
        if status.score >= self.n as i32 {
            status.is_winner = true;
        }
        (status, false)
    }
}

impl QuizRule for Freeze {
    fn apply(
        &self,
        player_statuses: &mut HashMap<PlayerId, PlayerStatus>,
        player_events: &mut HashMap<PlayerId, Vec<Event>>,
        question_status: &mut QuestionStatus,
    ) {
        apply_rule(self, player_statuses, player_events, question_status);
        assert(player_statuses@.dom() =~= old(player_statuses)@.dom() + old(player_events)@.dom());
    }
}

/// The score is the correct answers times the wrong answers still allowed
/// (`m` minus the wrong answers); reaching `n` times `m` wins, `m` wrong
/// answers eliminate.
pub struct NByM {
    pub n: u32,
    pub m: u32,
}

impl NByM {
    pub fn new(n: u32, m: u32) -> (r: Self)
        ensures
            r.n == n,
            r.m == m,
    {
        Self { n, m }
    }
}

/// The N-by-M score of a player with the given counts.
pub open spec fn n_by_m_score(correct_count: u32, wrong_count: u32, m: u32) -> int {
    (correct_count as i32) * ((m - wrong_count) as u32 as i32)
}

/// The N-by-M winning line.
pub open spec fn n_by_m_target(n: u32, m: u32) -> int {
    (n as i32) * (m as i32)
}

impl PlayerRule for NByM {
    open spec fn next_status(&self, status: PlayerStatus, events: Seq<Event>) -> PlayerStatus {
        let correct_count = (status.correct_count + count_correct(events)) as u32;
        let wrong_count = (status.wrong_count + count_wrong(events)) as u32;
        let score = n_by_m_score(correct_count, wrong_count, self.m) as i32;
        PlayerStatus {
            correct_count,
            wrong_count,
            score,
            is_winner: status.is_winner || score >= n_by_m_target(self.n, self.m),
            is_eliminated: status.is_eliminated || wrong_count >= self.m,
            ..status
        }
    }

    open spec fn in_range(&self, status: PlayerStatus, events: Seq<Event>) -> bool {
        let correct_count = (status.correct_count + count_correct(events)) as u32;
        let wrong_count = (status.wrong_count + count_wrong(events)) as u32;
        &&& count_correct(events) <= i32::MAX
        &&& count_wrong(events) <= i32::MAX
        &&& status.correct_count + count_correct(events) <= u32::MAX
        &&& status.wrong_count + count_wrong(events) <= u32::MAX
        &&& wrong_count <= self.m
        &&& i32::MIN <= n_by_m_score(correct_count, wrong_count, self.m) <= i32::MAX
        &&& i32::MIN <= n_by_m_target(self.n, self.m) <= i32::MAX
    }

    open spec fn finishes_on_correct(&self) -> bool {
        false
    }

    fn update_status(&self, status: PlayerStatus, events: &Vec<Event>) -> (r: (PlayerStatus, bool)) {
        let t = tally(events);
        let mut status = status;
        status.correct_count += t.correct as u32;
        status.wrong_count += t.wrong as u32;
        status.score = status.correct_count as i32 * (self.m - status.wrong_count) as i32;
        if status.score >= self.n as i32 * self.m as i32 {
            status.is_winner = true;
        }
        if status.wrong_count >= self.m {
            status.is_eliminated = true;
        }
        (status, false)
    }
}

impl QuizRule for NByM {
    fn apply(
        &self,
        player_statuses: &mut HashMap<PlayerId, PlayerStatus>,
        player_events: &mut HashMap<PlayerId, Vec<Event>>,
        question_status: &mut QuestionStatus,
    ) {
        apply_rule(self, player_statuses, player_events, question_status);
        assert(player_statuses@.dom() =~= old(player_statuses)@.dom() + old(player_events)@.dom());
    }
}

/// Correct answers count up, a wrong answer drops the score back to zero;
/// a score of `n` wins and `m` wrong answers eliminate.
pub struct UpDown {
    pub n: u32,
    pub m: u32,
}

impl UpDown {
    pub fn new(n: u32, m: u32) -> (r: Self)
        ensures
            r.n == n,
            r.m == m,
    {
        Self { n, m }
    }
}

impl PlayerRule for UpDown {
    open spec fn next_status(&self, status: PlayerStatus, events: Seq<Event>) -> PlayerStatus {
        let correct_count = (status.correct_count + correct_streak(events)) as u32;
        let wrong_count = (status.wrong_count + count_wrong(events)) as u32;
        let score = if count_wrong(events) > 0 {
            0i32
        } else {
            (status.score + correct_streak(events)) as i32
        };
        PlayerStatus {
            correct_count,
            wrong_count,
            score,
            is_winner: status.is_winner || score >= self.n as i32,
            is_eliminated: status.is_eliminated || wrong_count >= self.m,
            ..status
        }
    }

    open spec fn in_range(&self, status: PlayerStatus, events: Seq<Event>) -> bool {
        &&& streak_within(events, i32::MAX as int)
        &&& count_wrong(events) <= i32::MAX
        &&& status.correct_count + correct_streak(events) <= u32::MAX
        &&& status.wrong_count + count_wrong(events) <= u32::MAX
        &&& status.score + correct_streak(events) <= i32::MAX
    }

    open spec fn finishes_on_correct(&self) -> bool {
        true
    }

    fn update_status(&self, status: PlayerStatus, events: &Vec<Event>) -> (r: (PlayerStatus, bool)) {
        let t = tally_streak(events);
        let mut status = status;
        status.correct_count += t.streak as u32;
        status.wrong_count += t.wrong as u32;
        status.score += t.streak;
        if t.wrong > 0 {
            status.score = 0;
        }
        if status.score >= self.n as i32 {
            status.is_winner = true;
        }
        if status.wrong_count >= self.m {
            status.is_eliminated = true;
        }
        (status, t.saw_correct)
    }
}

impl QuizRule for UpDown {
    fn apply(
        &self,
        player_statuses: &mut HashMap<PlayerId, PlayerStatus>,
        player_events: &mut HashMap<PlayerId, Vec<Event>>,
        question_status: &mut QuestionStatus,
    ) {
        apply_rule(self, player_statuses, player_events, question_status);
        assert(player_statuses@.dom() =~= old(player_statuses)@.dom() + old(player_events)@.dom());
    }
}

/// The statuses after the chosen rule has been applied to a question's events.
pub open spec fn selected_statuses_after(
    rule_option: RuleOption,
    n: u32,
    m: u32,
    statuses: Map<PlayerId, PlayerStatus>,
    events: Map<PlayerId, Vec<Event>>,
) -> Map<PlayerId, PlayerStatus> {
    match rule_option {
        RuleOption::FreeBatting => statuses_after(FreeBatting, statuses, events),
        RuleOption::NCorrectMWrong => statuses_after(NCorrectMWrong { n, m }, statuses, events),
        RuleOption::UpDown => statuses_after(UpDown { n, m }, statuses, events),
        RuleOption::Freeze => statuses_after(Freeze { n }, statuses, events),
        RuleOption::NByM => statuses_after(NByM { n, m }, statuses, events),
    }
}

/// Whether the chosen rule's arithmetic stays in range for a question's events.
pub open spec fn selected_round_in_range(
    rule_option: RuleOption,
    n: u32,
    m: u32,
    statuses: Map<PlayerId, PlayerStatus>,
    events: Map<PlayerId, Vec<Event>>,
) -> bool {
    match rule_option {
        RuleOption::FreeBatting => round_in_range(FreeBatting, statuses, events),
        RuleOption::NCorrectMWrong => round_in_range(NCorrectMWrong { n, m }, statuses, events),
        RuleOption::UpDown => round_in_range(UpDown { n, m }, statuses, events),
        RuleOption::Freeze => round_in_range(Freeze { n }, statuses, events),
        RuleOption::NByM => round_in_range(NByM { n, m }, statuses, events),
    }
}

/// Whether a correct answer ends the question under the chosen rule.
pub open spec fn selected_finishes_on_correct(rule_option: RuleOption) -> bool {
    match rule_option {
        RuleOption::FreeBatting | RuleOption::NCorrectMWrong | RuleOption::UpDown => true,
        RuleOption::Freeze | RuleOption::NByM => false,
    }
}

/// Applies the trait-level contract of `apply` to restate it as `statuses_after`.
proof fn lemma_apply_result<R: PlayerRule>(
    rule: R,
    before: Map<PlayerId, PlayerStatus>,
    events: Map<PlayerId, Vec<Event>>,
    after: Map<PlayerId, PlayerStatus>,
)
    requires
        after.dom() == before.dom() + events.dom(),
        forall|k: PlayerId| #[trigger]
            events.contains_key(k) ==> after[k] == rule.next_status(
                status_or_fresh(before, k),
                events[k]@,
            ),
        forall|k: PlayerId|
            before.contains_key(k) && !events.contains_key(k) ==> #[trigger] after[k]
                == before[k],
    ensures
        after == statuses_after(rule, before, events),
{
    assert(after =~= statuses_after(rule, before, events));
}

/// Applies the rule chosen for the round, with its parameters `n` and `m`
/// (the Freeze rule takes `n` only).
pub fn apply_selected_rule(
    rule_option: &RuleOption,
    n: u32,
    m: u32,
    player_statuses: &mut HashMap<PlayerId, PlayerStatus>,
    player_events: &mut HashMap<PlayerId, Vec<Event>>,
    question_status: &mut QuestionStatus,
)
    requires
        selected_round_in_range(*rule_option, n, m, old(player_statuses)@, old(player_events)@),
    ensures
        final(player_events)@ == old(player_events)@,
        final(player_statuses)@ == selected_statuses_after(
            *rule_option,
            n,
            m,
            old(player_statuses)@,
            old(player_events)@,
        ),
        final(question_status).locked@ == old(question_status).locked@,
        final(question_status).finished == (old(question_status).finished || (
        selected_finishes_on_correct(*rule_option) && some_correct(old(player_events)@))),
{
    let ghost before = player_statuses@;
    let ghost events = player_events@;
    match rule_option {
        RuleOption::FreeBatting => {
            FreeBatting.apply(player_statuses, player_events, question_status);
            proof {
                lemma_apply_result(FreeBatting, before, events, player_statuses@);
            }
        },
        RuleOption::NCorrectMWrong => {
            let rule = NCorrectMWrong::new(n, m);
            rule.apply(player_statuses, player_events, question_status);
            proof {
                lemma_apply_result(rule, before, events, player_statuses@);
            }
        },
        RuleOption::UpDown => {
            let rule = UpDown::new(n, m);
            rule.apply(player_statuses, player_events, question_status);
            proof {
                lemma_apply_result(rule, before, events, player_statuses@);
            }
        },
        RuleOption::Freeze => {
            let rule = Freeze::new(n);
            rule.apply(player_statuses, player_events, question_status);
            proof {
                lemma_apply_result(rule, before, events, player_statuses@);
            }
        },
        RuleOption::NByM => {
            let rule = NByM::new(n, m);
            rule.apply(player_statuses, player_events, question_status);
            proof {
                lemma_apply_result(rule, before, events, player_statuses@);
            }
        },
    }
}

} // verus!
