use std::collections::HashMap;
use vstd::prelude::*;

use crate::terminal::{event_recorded, record_event};
use crate::rules::{apply_selected_rule, selected_finishes_on_correct, selected_round_in_range, selected_statuses_after, some_correct};
use crate::data::{
    fresh_status, player_ids, Event, Player, PlayerId, PlayerStatus, Question, QuestionStatus,
    RuleOption, SharedQuizState,
};

verus! {

broadcast use vstd::std_specs::hash::group_hash_axioms;

/// The status a player starts with: fresh, or with the score and counts set
/// up for them before the round.
pub open spec fn configured_status(initial: Map<PlayerId, (i32, u32, u32)>, k: PlayerId) -> PlayerStatus {
    if initial.contains_key(k) {
        PlayerStatus {
            score: initial[k].0,
            correct_count: initial[k].1,
            wrong_count: initial[k].2,
            ..fresh_status()
        }
    } else {
        fresh_status()
    }
}

/// The statuses a round starts from, for every listed player.
pub open spec fn configured_statuses(
    players: Seq<Player>,
    initial: Map<PlayerId, (i32, u32, u32)>,
) -> Map<PlayerId, PlayerStatus> {
    Map::new(|k: PlayerId| player_ids(players).contains(k), |k: PlayerId| configured_status(initial, k))
}

proof fn lemma_ids_push(players: Seq<Player>, i: int)
    requires
        0 <= i < players.len(),
    ensures
        player_ids(players.take(i + 1)) == player_ids(players.take(i)).insert(players[i].id),
{
    let prev = players.take(i);
    let next = players.take(i + 1);
    assert forall|k: PlayerId| player_ids(next).contains(k) <==> (player_ids(prev).contains(k)
        || k == players[i].id) by {
        if player_ids(next).contains(k) {
            let j = choose|j: int| 0 <= j < next.len() && next[j].id == k;
            if j < i {
                assert(prev[j].id == k);
            }
        }
        if player_ids(prev).contains(k) {
            let j = choose|j: int| 0 <= j < prev.len() && prev[j].id == k;
            assert(next[j].id == k);
        }
        if k == players[i].id {
            assert(next[i].id == k);
        }
    }
    assert(player_ids(next) =~= player_ids(prev).insert(players[i].id));
}

/// The starting statuses of the listed players, with the values set up for
/// some of them before the round.
pub fn initial_statuses(
    players: &Vec<Player>,
    initial: &HashMap<PlayerId, (i32, u32, u32)>,
) -> (statuses: HashMap<PlayerId, PlayerStatus>)
    ensures
        statuses@ == configured_statuses(players@, initial@),
{
    let mut statuses: HashMap<PlayerId, PlayerStatus> = HashMap::new();
    let mut i: usize = 0;
    while i < players.len()
        invariant
            i <= players.len(),
            statuses@ == configured_statuses(players@.take(i as int), initial@),
        decreases players.len() - i,
    {
        let id = players[i].id;
        let mut status = PlayerStatus::new();
        if let Some(values) = initial.get(&id) {
            status.score = values.0;
            status.correct_count = values.1;
            status.wrong_count = values.2;
        }
        statuses.insert(id, status);
        proof {
            lemma_ids_push(players@, i as int);
            assert(statuses@ =~= configured_statuses(players@.take(i as int + 1), initial@));
        }
        i += 1;
    }
    assert(players@.take(players.len() as int) == players@);
    statuses
}

impl SharedQuizState {
    /// Starts a round with the loaded players and questions and the chosen
    /// settings: every player gets their starting status, shown and working
    /// alike, and the question count, events, ranks and completion start over.
    pub fn apply_config(
        &mut self,
        players: Vec<Player>,
        questions: Vec<Question>,
        initial: &HashMap<PlayerId, (i32, u32, u32)>,
        rule_option: RuleOption,
        n_correct: u32,
        m_wrong: u32,
    )
        ensures
            final(self).players@ == players@,
            final(self).questions@ == questions@,
            final(self).display_statuses@ == configured_statuses(players@, initial@),
            final(self).working_statuses@ == configured_statuses(players@, initial@),
            final(self).player_events@ == Map::<PlayerId, Vec<Event>>::empty(),
            !final(self).question_status.finished,
            final(self).question_status.locked@ == Set::<PlayerId>::empty(),
            final(self).current_question == 0,
            final(self).rule_option == rule_option,
            final(self).n_correct == n_correct,
            final(self).m_wrong == m_wrong,
            final(self).next_finish_rank == 1,
            !final(self).round_completed,
    {
        let display_statuses = initial_statuses(&players, initial);
        self.players = players;
        self.questions = questions;
        self.working_statuses = display_statuses.clone();
        self.display_statuses = display_statuses;
        self.player_events = HashMap::new();
        self.question_status = QuestionStatus::new();
        self.current_question = 0;
        self.rule_option = rule_option;
        self.n_correct = n_correct;
        self.m_wrong = m_wrong;
        self.next_finish_rank = 1;
        self.round_completed = false;
    }
}

/// Whether a player has just finished, by winning or by being eliminated,
/// and has no finishing rank yet.
pub open spec fn newly_finished(s: PlayerStatus) -> bool {
    s.finish_rank is None && (s.is_winner || s.is_eliminated)
}

/// The players who have just won or been eliminated and have no finishing
/// rank yet.
pub open spec fn newly_finished_players(statuses: Map<PlayerId, PlayerStatus>) -> Set<PlayerId> {
    statuses.dom().filter(|k: PlayerId| newly_finished(statuses[k]))
}

/// A status with a finishing rank given.
pub open spec fn with_rank(s: PlayerStatus, rank: int) -> PlayerStatus {
    PlayerStatus { finish_rank: Some(rank as u32), ..s }
}

/// Whether `ranked` is `statuses` with the players in `order` given the
/// finishing ranks `first`, `first + 1`, ... in that order, where `order`
/// lists every player who has just finished, once.
pub open spec fn ranked_in_order(
    statuses: Map<PlayerId, PlayerStatus>,
    ranked: Map<PlayerId, PlayerStatus>,
    order: Seq<PlayerId>,
    first: int,
) -> bool {
    &&& order.no_duplicates()
    &&& order.to_set() == newly_finished_players(statuses)
    &&& ranked.dom() == statuses.dom()
    &&& forall|j: int|
        0 <= j < order.len() ==> #[trigger] ranked[order[j]] == with_rank(
            statuses[order[j]],
            first + j,
        )
    &&& forall|k: PlayerId|
        statuses.contains_key(k) && !order.contains(k) ==> #[trigger] ranked[k] == statuses[k]
}

/// Gives the players who have just won or been eliminated the next finishing
/// ranks, one each, in the order in which the map is walked.
pub fn assign_finish_ranks(statuses: &mut HashMap<PlayerId, PlayerStatus>, next_rank: &mut u32)
    requires
        *old(next_rank) + newly_finished_players(old(statuses)@).len() <= u32::MAX,
    ensures
        exists|order: Seq<PlayerId>|
            {
                &&& ranked_in_order(old(statuses)@, final(statuses)@, order, *old(next_rank) as int)
                &&& *final(next_rank) == *old(next_rank) + order.len()
            },
{
    let ghost start = statuses@;
    let ghost first = *next_rank as int;
    let ghost newly = newly_finished_players(start);
    proof {
        start.dom().lemma_len_filter(|k: PlayerId| newly_finished(start[k]));
    }
    let keys = crate::keys::map_keys(statuses);
    let ghost mut order: Seq<PlayerId> = Seq::empty();
    let mut i: usize = 0;
    while i < keys.len()
        invariant
            i <= keys.len(),
            keys@.no_duplicates(),
            keys@.to_set() == start.dom(),
            newly.finite(),
            newly == newly_finished_players(start),
            first + newly.len() <= u32::MAX,
            order.no_duplicates(),
            forall|k: PlayerId|
                #[trigger] order.contains(k) <==> (keys@.take(i as int).contains(k)
                    && newly.contains(k)),
            statuses@.dom() == start.dom(),
            forall|j: int|
                0 <= j < order.len() ==> #[trigger] statuses@[order[j]] == with_rank(
                    start[order[j]],
                    first + j,
                ),
            forall|k: PlayerId|
                start.contains_key(k) && !order.contains(k) ==> #[trigger] statuses@[k]
                    == start[k],
            *next_rank == first + order.len(),
        decreases keys.len() - i,
    {
        let pid = keys[i];
        assert(keys@.to_set().contains(pid)) by {
            assert(keys@.contains(pid));
        }
        assert(!keys@.take(i as int).contains(pid)) by {
            if keys@.take(i as int).contains(pid) {
                let t0 = keys@.take(i as int);
                let j = choose|j: int| 0 <= j < t0.len() && t0[j] == pid;
                assert(keys@[j] == pid);
            }
        }
        assert(keys@.take(i as int + 1) == keys@.take(i as int).push(pid));
        let status = *statuses.get(&pid).unwrap();
        assert(!order.contains(pid));
        assert(status == start[pid]);
        if status.finish_rank.is_none() && (status.is_winner || status.is_eliminated) {
            proof {
                assert(newly.contains(pid));
                assert(order.to_set().subset_of(newly.remove(pid)));
                vstd::set_lib::lemma_len_subset(order.to_set(), newly.remove(pid));
                order.unique_seq_to_set();
            }
            let mut updated = status;
            updated.finish_rank = Some(*next_rank);
            statuses.insert(pid, updated);
            *next_rank = *next_rank + 1;
            proof {
                let old_order = order;
                order = order.push(pid);
                assert(order[old_order.len() as int] == pid);
                assert forall|j: int| 0 <= j < old_order.len() implies order[j] == old_order[j] by {}
                assert forall|k: PlayerId| #[trigger] order.contains(k) <==> (keys@.take(
                    i as int + 1,
                ).contains(k) && newly.contains(k)) by {
                    if order.contains(k) && k != pid {
                        let j = choose|j: int| 0 <= j < order.len() && order[j] == k;
                        assert(old_order[j] == k);
                        assert(old_order.contains(k));
                        let t0 = keys@.take(i as int);
                        let j0 = choose|j0: int| 0 <= j0 < t0.len() && t0[j0] == k;
                        assert(keys@.take(i as int + 1)[j0] == k);
                    }
                    if keys@.take(i as int + 1).contains(k) && newly.contains(k) && k != pid {
                        let t1 = keys@.take(i as int + 1);
                        let j = choose|j: int| 0 <= j < t1.len() && t1[j] == k;
                        assert(keys@.take(i as int)[j] == k);
                        assert(old_order.contains(k));
                        let j2 = choose|j2: int| 0 <= j2 < old_order.len() && old_order[j2] == k;
                        assert(order[j2] == k);
                    }
                    if k == pid {
                        assert(order[old_order.len() as int] == pid);
                        assert(keys@.take(i as int + 1)[i as int] == pid);
                    }
                }
                assert forall|j: int| 0 <= j < order.len() implies #[trigger] statuses@[order[j]]
                    == with_rank(start[order[j]], first + j) by {
                    if j < old_order.len() {
                        assert(order[j] == old_order[j]);
                        assert(old_order.contains(old_order[j]));
                    }
                }
                assert forall|k: PlayerId|
                    start.contains_key(k) && !order.contains(k) implies #[trigger] statuses@[k]
                    == start[k] by {
                    assert(order.contains(pid));
                    if old_order.contains(k) {
                        let j = choose|j: int| 0 <= j < old_order.len() && old_order[j] == k;
                        assert(order[j] == k);
                    }
                }
                assert(statuses@.dom() =~= start.dom());
            }
        } else {
            proof {
                assert forall|k: PlayerId| #[trigger] order.contains(k) <==> (keys@.take(
                    i as int + 1,
                ).contains(k) && newly.contains(k)) by {
                    if keys@.take(i as int + 1).contains(k) && newly.contains(k) && k != pid {
                        let t1 = keys@.take(i as int + 1);
                        let j = choose|j: int| 0 <= j < t1.len() && t1[j] == k;
                        assert(keys@.take(i as int)[j] == k);
                    }
                    if k == pid {
                        assert(!newly.contains(pid));
                    }
                    if order.contains(k) {
                        assert(keys@.take(i as int).contains(k));
                        let t0 = keys@.take(i as int);
                        let j = choose|j: int| 0 <= j < t0.len() && t0[j] == k;
                        assert(keys@.take(i as int + 1)[j] == k);
                    }
                }
            }
        }
        i += 1;
    }
    proof {
        assert(keys@.take(keys.len() as int) == keys@);
        assert forall|k: PlayerId| order.to_set().contains(k) <==> newly.contains(k) by {
            if newly.contains(k) {
                assert(start.dom().contains(k));
                assert(keys@.to_set().contains(k));
            }
        }
        assert(order.to_set() =~= newly);
        assert(ranked_in_order(start, statuses@, order, first));
    }
}

impl SharedQuizState {
    /// The working statuses that the current question's events give under the
    /// round's rule, before finishing ranks are handed out.
    pub open spec fn scored_statuses(&self) -> Map<PlayerId, PlayerStatus> {
        selected_statuses_after(
            self.rule_option,
            self.n_correct,
            self.m_wrong,
            self.display_statuses@,
            self.player_events@,
        )
    }

    /// Whether the current question's events can be scored: the rule's
    /// arithmetic stays in range and there are finishing ranks left.
    pub open spec fn can_score_events(&self) -> bool {
        &&& selected_round_in_range(
            self.rule_option,
            self.n_correct,
            self.m_wrong,
            self.display_statuses@,
            self.player_events@,
        )
        &&& self.next_finish_rank + newly_finished_players(self.scored_statuses()).len() <= u32::MAX
    }

    /// Whether two states agree on everything but the working statuses, the
    /// question's status and the next finishing rank.
    pub open spec fn same_round(&self, other: &Self) -> bool {
        &&& self.players@ == other.players@
        &&& self.questions@ == other.questions@
        &&& self.display_statuses@ == other.display_statuses@
        &&& self.player_events@ == other.player_events@
        &&& self.current_question == other.current_question
        &&& self.rule_option == other.rule_option
        &&& self.n_correct == other.n_correct
        &&& self.m_wrong == other.m_wrong
        &&& self.round_completed == other.round_completed
    }

    /// Recomputes the working statuses: the round's rule applied to the shown
    /// statuses and the current question's events; players who have just won
    /// or been eliminated get the next finishing ranks, one each.
    pub fn apply_pending_events(&mut self)
        requires
            old(self).can_score_events(),
        ensures
            final(self).same_round(old(self)),
            exists|order: Seq<PlayerId>|
                {
                    &&& ranked_in_order(
                        old(self).scored_statuses(),
                        final(self).working_statuses@,
                        order,
                        old(self).next_finish_rank as int,
                    )
                    &&& final(self).next_finish_rank == old(self).next_finish_rank + order.len()
                },
            final(self).question_status.locked@ == old(self).question_status.locked@,
            final(self).question_status.finished == (old(self).question_status.finished || (
            selected_finishes_on_correct(old(self).rule_option) && some_correct(
                old(self).player_events@,
            ))),
    {
        self.working_statuses = self.display_statuses.clone();
        apply_selected_rule(
            &self.rule_option,
            self.n_correct,
            self.m_wrong,
            &mut self.working_statuses,
            &mut self.player_events,
            &mut self.question_status,
        );
        let ghost scored = self.working_statuses@;
        let ghost first = self.next_finish_rank as int;
        assert(scored == old(self).scored_statuses());
        assign_finish_ranks(&mut self.working_statuses, &mut self.next_finish_rank);
        proof {
            let order = choose|order: Seq<PlayerId>|
                {
                    &&& ranked_in_order(scored, self.working_statuses@, order, first)
                    &&& self.next_finish_rank == first + order.len()
                };
            assert(ranked_in_order(scored, self.working_statuses@, order, first));
        }
    }
}

/// A status one question later: a frozen player thaws by one question.
pub open spec fn thawed(s: PlayerStatus) -> PlayerStatus {
    if s.freeze_count > 0 {
        PlayerStatus { freeze_count: (s.freeze_count - 1) as u32, ..s }
    } else {
        s
    }
}

/// The statuses one question later.
pub open spec fn thawed_statuses(statuses: Map<PlayerId, PlayerStatus>) -> Map<PlayerId, PlayerStatus> {
    Map::new(|k: PlayerId| statuses.contains_key(k), |k: PlayerId| thawed(statuses[k]))
}

/// Counts every frozen player's remaining frozen questions down by one.
pub fn tick_freeze_counts(statuses: &mut HashMap<PlayerId, PlayerStatus>)
    ensures
        final(statuses)@ == thawed_statuses(old(statuses)@),
{
    let ghost start = statuses@;
    let keys = crate::keys::map_keys(statuses);
    let mut i: usize = 0;
    while i < keys.len()
        invariant
            i <= keys.len(),
            keys@.no_duplicates(),
            keys@.to_set() == start.dom(),
            statuses@.dom() == start.dom(),
            forall|k: PlayerId| #[trigger]
                start.contains_key(k) ==> statuses@[k] == if keys@.take(i as int).contains(k) {
                    thawed(start[k])
                } else {
                    start[k]
                },
        decreases keys.len() - i,
    {
        let pid = keys[i];
        assert(keys@.to_set().contains(pid)) by {
            assert(keys@.contains(pid));
        }
        assert(!keys@.take(i as int).contains(pid)) by {
            if keys@.take(i as int).contains(pid) {
                let t0 = keys@.take(i as int);
                let j = choose|j: int| 0 <= j < t0.len() && t0[j] == pid;
                assert(keys@[j] == pid);
            }
        }
        assert(keys@.take(i as int + 1) == keys@.take(i as int).push(pid));
        let mut status = *statuses.get(&pid).unwrap();
        if status.freeze_count > 0 {
            status.freeze_count -= 1;
        }
        statuses.insert(pid, status);
        proof {
            assert(statuses@.dom() =~= start.dom());
            assert forall|k: PlayerId| #[trigger]
                start.contains_key(k) implies statuses@[k] == if keys@.take(i as int + 1).contains(k) {
                    thawed(start[k])
                } else {
                    start[k]
                } by {
                if k != pid && keys@.take(i as int + 1).contains(k) {
                    let t1 = keys@.take(i as int + 1);
                    let j = choose|j: int| 0 <= j < t1.len() && t1[j] == k;
                    assert(keys@.take(i as int)[j] == k);
                }
                if k != pid && keys@.take(i as int).contains(k) {
                    let t0 = keys@.take(i as int);
                    let j = choose|j: int| 0 <= j < t0.len() && t0[j] == k;
                    assert(keys@.take(i as int + 1)[j] == k);
                }
                if k == pid {
                    assert(keys@.take(i as int + 1)[i as int] == pid);
                }
            }
        }
        i += 1;
    }
    proof {
        assert(keys@.take(keys.len() as int) == keys@);
        assert forall|k: PlayerId| #[trigger] start.contains_key(k) implies keys@.contains(k) by {
            assert(keys@.to_set().contains(k));
        }
        assert(statuses@ =~= thawed_statuses(start));
    }
}

/// Whether a player still takes part at question `q`: not finished, not
/// eliminated and not frozen.
pub open spec fn takes_part(statuses: Map<PlayerId, PlayerStatus>, id: PlayerId, q: u32) -> bool {
    statuses.contains_key(id) ==> {
        let s = statuses[id];
        &&& !s.is_winner
        &&& !s.is_eliminated
        &&& s.freeze_count == 0
        &&& !(s.frozen_until matches Some(f) && f > q)
    }
}

/// Whether some listed player still takes part at question `q`.
pub fn has_active_players(
    players: &[Player],
    statuses: &HashMap<PlayerId, PlayerStatus>,
    q: u32,
) -> (r: bool)
    ensures
        r == exists|i: int| 0 <= i < players@.len() && takes_part(statuses@, #[trigger] players@[i].id, q),
{
    let mut i: usize = 0;
    while i < players.len()
        invariant
            i <= players.len(),
            forall|j: int| 0 <= j < i ==> !takes_part(statuses@, #[trigger] players@[j].id, q),
        decreases players.len() - i,
    {
        let active = match statuses.get(&players[i].id) {
            None => true,
            Some(s) => !s.is_winner && !s.is_eliminated && s.freeze_count == 0 && !match s.frozen_until {
                Some(f) => f > q,
                None => false,
            },
        };
        if active {
            assert(takes_part(statuses@, players@[i as int].id, q));
            return true;
        }
        i += 1;
    }
    false
}

/// What the operator's "next question" control does in the current state.
#[derive(Clone, Copy, Debug, PartialEq, Eq, Structural)]
pub enum NextQuestion {
    /// The round is already over: nothing happens.
    Stay,
    /// That was the last question: the round ends.
    FinishRound,
    /// Log the question, then move on to the next one.
    Advance,
}

impl SharedQuizState {
    /// What the "next question" control does.
    pub fn next_question_step(&self) -> (r: NextQuestion)
        ensures
            r == if self.round_completed {
                NextQuestion::Stay
            } else if self.current_question + 1 >= self.questions@.len() {
                NextQuestion::FinishRound
            } else {
                NextQuestion::Advance
            },
    {
        if self.round_completed {
            NextQuestion::Stay
        } else if self.questions.len() == 0 || self.current_question as usize >= self.questions.len() - 1 {
            NextQuestion::FinishRound
        } else {
            NextQuestion::Advance
        }
    }

    /// Moves on to the next question: the working statuses become the shown
    /// ones, frozen players thaw by one question, and the events and the
    /// question's status start over. Tells whether the questions ran out.
    pub fn advance_question(&mut self) -> (ran_out: bool)
        requires
            old(self).current_question < u32::MAX,
        ensures
            final(self).display_statuses@ == thawed_statuses(old(self).working_statuses@),
            final(self).working_statuses@ == final(self).display_statuses@,
            final(self).current_question == old(self).current_question + 1,
            final(self).player_events@ == Map::<PlayerId, Vec<Event>>::empty(),
            !final(self).question_status.finished,
            final(self).question_status.locked@ == Set::<PlayerId>::empty(),
            final(self).players@ == old(self).players@,
            final(self).questions@ == old(self).questions@,
            final(self).rule_option == old(self).rule_option,
            final(self).n_correct == old(self).n_correct,
            final(self).m_wrong == old(self).m_wrong,
            final(self).next_finish_rank == old(self).next_finish_rank,
            final(self).round_completed == old(self).round_completed,
            ran_out == (final(self).current_question >= final(self).questions@.len()),
    {
        self.display_statuses = self.working_statuses.clone();
        tick_freeze_counts(&mut self.display_statuses);
        self.current_question = self.current_question + 1;
        self.player_events.clear();
        self.question_status = QuestionStatus::new();
        self.working_statuses = self.display_statuses.clone();
        self.current_question as usize >= self.questions.len()
    }

    /// Marks the round as over. Tells whether it was still running, that is
    /// whether the advancing players are still to be exported.
    pub fn complete_round(&mut self) -> (was_running: bool)
        ensures
            was_running == !old(self).round_completed,
            final(self).round_completed,
            final(self).players@ == old(self).players@,
            final(self).questions@ == old(self).questions@,
            final(self).display_statuses@ == old(self).display_statuses@,
            final(self).working_statuses@ == old(self).working_statuses@,
            final(self).player_events@ == old(self).player_events@,
            final(self).current_question == old(self).current_question,
            final(self).rule_option == old(self).rule_option,
            final(self).n_correct == old(self).n_correct,
            final(self).m_wrong == old(self).m_wrong,
            final(self).next_finish_rank == old(self).next_finish_rank,
            final(self).question_status.finished == old(self).question_status.finished,
            final(self).question_status.locked@ == old(self).question_status.locked@,
    {
        if self.round_completed {
            return false;
        }
        self.round_completed = true;
        true
    }
}

/// The number of buzzes among the events.
pub open spec fn count_buzz(evs: Seq<Event>) -> nat
    decreases evs.len(),
{
    if evs.len() == 0 {
        0
    } else {
        count_buzz(evs.drop_last()) + if evs.last() is Buzz {
            1nat
        } else {
            0nat
        }
    }
}

/// The number of buzzes in a question, over all players.
pub open spec fn buzz_total(events: Map<PlayerId, Vec<Event>>) -> nat
    decreases events.dom().len(),
    when events.dom().finite()
{
    if events.dom().len() == 0 {
        0
    } else {
        let k = events.dom().choose();
        count_buzz(events[k]@) + buzz_total(events.remove(k))
    }
}

/// The total can be taken apart at any player.
pub proof fn lemma_buzz_total_remove(events: Map<PlayerId, Vec<Event>>, k: PlayerId)
    requires
        events.dom().finite(),
        events.contains_key(k),
    ensures
        buzz_total(events) == count_buzz(events[k]@) + buzz_total(events.remove(k)),
    decreases events.dom().len(),
{
    let c = events.dom().choose();
    if c != k {
        lemma_buzz_total_remove(events.remove(c), k);
        lemma_buzz_total_remove(events.remove(k), c);
        assert(events.remove(c).remove(k) =~= events.remove(k).remove(c));
    }
}

proof fn lemma_count_buzz_bounded(evs: Seq<Event>)
    ensures
        count_buzz(evs) <= evs.len(),
    decreases evs.len(),
{
    if evs.len() > 0 {
        lemma_count_buzz_bounded(evs.drop_last());
    }
}

/// Counts the buzzes among one player's events.
fn count_buzzes(events: &Vec<Event>) -> (n: usize)
    ensures
        n == count_buzz(events@),
{
    let mut n: usize = 0;
    let mut j: usize = 0;
    while j < events.len()
        invariant
            j <= events@.len(),
            n == count_buzz(events@.take(j as int)),
        decreases events@.len() - j,
    {
        proof {
            assert(events@.take(j as int + 1).drop_last() == events@.take(j as int));
            lemma_count_buzz_bounded(events@.take(j as int));
        }
        if let Event::Buzz(_) = events[j] {
            n += 1;
        }
        j += 1;
    }
    assert(events@.take(events@.len() as int) == events@);
    n
}

impl SharedQuizState {
    /// The number of buzzes so far in the current question; `None` where it
    /// does not fit a `usize`.
    pub fn buzz_count(&self) -> (n: Option<usize>)
        ensures
            n == if buzz_total(self.player_events@) <= usize::MAX {
                Some(buzz_total(self.player_events@) as usize)
            } else {
                None
            },
    {
        let ghost all = self.player_events@;
        let keys = crate::keys::map_keys(&self.player_events);
        let ghost mut rest = all;
        let mut n: usize = 0;
        let mut i: usize = 0;
        while i < keys.len()
            invariant
                i <= keys.len(),
                all == self.player_events@,
                keys@.no_duplicates(),
                keys@.to_set() == all.dom(),
                all.dom().finite(),
                rest.dom().finite(),
                n + buzz_total(rest) == buzz_total(all),
                forall|k: PlayerId| #[trigger]
                    rest.contains_key(k) <==> (all.contains_key(k) && !keys@.take(i as int).contains(k)),
                forall|k: PlayerId| #[trigger] rest.contains_key(k) ==> rest[k] == all[k],
            decreases keys.len() - i,
        {
            let pid = keys[i];
            assert(keys@.to_set().contains(pid)) by {
                assert(keys@.contains(pid));
            }
            assert(!keys@.take(i as int).contains(pid)) by {
                if keys@.take(i as int).contains(pid) {
                    let t0 = keys@.take(i as int);
                    let j = choose|j: int| 0 <= j < t0.len() && t0[j] == pid;
                    assert(keys@[j] == pid);
                }
            }
            assert(keys@.take(i as int + 1) == keys@.take(i as int).push(pid));
            proof {
                lemma_buzz_total_remove(rest, pid);
            }
            let events = self.player_events.get(&pid).unwrap();
            let c = count_buzzes(events);
            n = match n.checked_add(c) {
                Some(v) => v,
                None => return None,
            };
            proof {
                rest = rest.remove(pid);
                assert forall|k: PlayerId| #[trigger]
                    rest.contains_key(k) <==> (all.contains_key(k) && !keys@.take(
                        i as int + 1,
                    ).contains(k)) by {
                    if k != pid && keys@.take(i as int + 1).contains(k) {
                        let t1 = keys@.take(i as int + 1);
                        let j = choose|j: int| 0 <= j < t1.len() && t1[j] == k;
                        assert(keys@.take(i as int)[j] == k);
                    }
                    if k != pid && keys@.take(i as int).contains(k) {
                        let t0 = keys@.take(i as int);
                        let j = choose|j: int| 0 <= j < t0.len() && t0[j] == k;
                        assert(keys@.take(i as int + 1)[j] == k);
                    }
                    if k == pid {
                        assert(keys@.take(i as int + 1)[i as int] == pid);
                    }
                }
            }
            i += 1;
        }
        proof {
            assert(keys@.take(keys.len() as int) == keys@);
            assert forall|k: PlayerId| !rest.contains_key(k) by {
                if all.contains_key(k) {
                    assert(keys@.to_set().contains(k));
                }
            }
            assert(rest.dom() =~= Set::empty());
        }
        Some(n)
    }
}

/// Which answer button the operator pressed.
#[derive(Clone, Copy, Debug, PartialEq, Eq, Structural)]
pub enum AnswerButton {
    Correct,
    Wrong,
    Buzz,
}

impl SharedQuizState {
    /// The statuses that the round's rule gives for the given events, before
    /// finishing ranks are handed out.
    pub open spec fn scored_with(&self, events: Map<PlayerId, Vec<Event>>) -> Map<PlayerId, PlayerStatus> {
        selected_statuses_after(
            self.rule_option,
            self.n_correct,
            self.m_wrong,
            self.display_statuses@,
            events,
        )
    }

    /// Whether the given events can be scored: the rule's arithmetic stays in
    /// range and there are finishing ranks left.
    pub open spec fn can_score_with(&self, events: Map<PlayerId, Vec<Event>>) -> bool {
        &&& selected_round_in_range(
            self.rule_option,
            self.n_correct,
            self.m_wrong,
            self.display_statuses@,
            events,
        )
        &&& self.next_finish_rank + newly_finished_players(self.scored_with(events)).len() <= u32::MAX
    }

    /// Whether the working statuses and the next finishing rank are what
    /// scoring the given events from the shown statuses gives.
    pub open spec fn scored_from(&self, before: &Self, events: Map<PlayerId, Vec<Event>>) -> bool {
        exists|order: Seq<PlayerId>|
            {
                &&& ranked_in_order(
                    before.scored_with(events),
                    self.working_statuses@,
                    order,
                    before.next_finish_rank as int,
                )
                &&& self.next_finish_rank == before.next_finish_rank + order.len()
            }
    }

    /// The event that pressing a button records.
    pub open spec fn button_event(&self, button: AnswerButton) -> Event {
        match button {
            AnswerButton::Correct => Event::Correct,
            AnswerButton::Wrong => Event::Wrong,
            AnswerButton::Buzz => Event::Buzz((buzz_total(self.player_events@) as u32 + 1) as u32),
        }
    }

    /// Whether the answer buttons of a player are disabled: the question is
    /// finished, or the player is frozen.
    pub fn answer_disabled(&self, pid: PlayerId) -> (r: bool)
        ensures
            r == (self.question_status.finished || (self.working_statuses@.contains_key(pid)
                && self.working_statuses@[pid].freeze_count > 0)),
    {
        if self.question_status.finished {
            return true;
        }
        match self.working_statuses.get(&pid) {
            Some(s) => s.freeze_count > 0,
            None => false,
        }
    }

    /// Records the event of an answer button for a player and scores the
    /// question again. A correct answer finishes the question; a buzz is
    /// numbered after the buzzes so far.
    pub fn press_answer_button(&mut self, pid: PlayerId, button: AnswerButton)
        requires
            button is Buzz ==> buzz_total(old(self).player_events@) <= usize::MAX
                && (buzz_total(old(self).player_events@) as u32) < u32::MAX,
            forall|events: Map<PlayerId, Vec<Event>>|
                #[trigger] event_recorded(
                    old(self).player_events@,
                    events,
                    pid,
                    old(self).button_event(button),
                ) ==> old(self).can_score_with(events),
        ensures
            event_recorded(
                old(self).player_events@,
                final(self).player_events@,
                pid,
                old(self).button_event(button),
            ),
            final(self).players@ == old(self).players@,
            final(self).questions@ == old(self).questions@,
            final(self).display_statuses@ == old(self).display_statuses@,
            final(self).current_question == old(self).current_question,
            final(self).rule_option == old(self).rule_option,
            final(self).n_correct == old(self).n_correct,
            final(self).m_wrong == old(self).m_wrong,
            final(self).round_completed == old(self).round_completed,
            final(self).scored_from(old(self), final(self).player_events@),
            final(self).question_status.locked@ == old(self).question_status.locked@,
            final(self).question_status.finished == (old(self).question_status.finished
                || button is Correct || (selected_finishes_on_correct(old(self).rule_option)
                && some_correct(final(self).player_events@))),
    {
        let event = match button {
            AnswerButton::Correct => Event::Correct,
            AnswerButton::Wrong => Event::Wrong,
            AnswerButton::Buzz => {
                let next = #[verifier::truncate] (self.buzz_count().unwrap() as u32) + 1;
                Event::Buzz(next)
            },
        };
        record_event(&mut self.player_events, pid, event);
        if let AnswerButton::Correct = button {
            self.question_status.finished = true;
        }
        assert(self.can_score_events());
        let ghost before = *self;
        self.apply_pending_events();
        proof {
            let order = choose|order: Seq<PlayerId>|
                {
                    &&& ranked_in_order(
                        before.scored_statuses(),
                        self.working_statuses@,
                        order,
                        before.next_finish_rank as int,
                    )
                    &&& self.next_finish_rank == before.next_finish_rank + order.len()
                };
            assert(before.scored_statuses() == old(self).scored_with(self.player_events@));
            assert(ranked_in_order(
                old(self).scored_with(self.player_events@),
                self.working_statuses@,
                order,
                old(self).next_finish_rank as int,
            ));
        }
    }
}

/// The shown statuses after the statuses of a question are put on display:
/// every shown player with a new status shows it, the others stay, and no
/// player is added.
pub open spec fn shown_statuses(
    display: Map<PlayerId, PlayerStatus>,
    statuses: Map<PlayerId, PlayerStatus>,
) -> Map<PlayerId, PlayerStatus> {
    Map::new(
        |k: PlayerId| display.contains_key(k),
        |k: PlayerId|
            if statuses.contains_key(k) {
                statuses[k]
            } else {
                display[k]
            },
    )
}

impl SharedQuizState {
    /// Puts the given statuses on display, for the players already shown.
    pub fn show_statuses(&mut self, statuses: &HashMap<PlayerId, PlayerStatus>)
        ensures
            final(self).display_statuses@ == shown_statuses(old(self).display_statuses@, statuses@),
            final(self).players@ == old(self).players@,
            final(self).questions@ == old(self).questions@,
            final(self).working_statuses@ == old(self).working_statuses@,
            final(self).player_events@ == old(self).player_events@,
            final(self).question_status.finished == old(self).question_status.finished,
            final(self).question_status.locked@ == old(self).question_status.locked@,
            final(self).current_question == old(self).current_question,
            final(self).rule_option == old(self).rule_option,
            final(self).n_correct == old(self).n_correct,
            final(self).m_wrong == old(self).m_wrong,
            final(self).next_finish_rank == old(self).next_finish_rank,
            final(self).round_completed == old(self).round_completed,
    {
        let ghost start = self.display_statuses@;
        let keys = crate::keys::map_keys(statuses);
        let mut i: usize = 0;
        while i < keys.len()
            invariant
                i <= keys@.len(),
                keys@.to_set() == statuses@.dom(),
                self.display_statuses@.dom() == start.dom(),
                forall|k: PlayerId| #[trigger]
                    start.contains_key(k) ==> self.display_statuses@[k] == if keys@.take(
                        i as int,
                    ).contains(k) {
                        statuses@[k]
                    } else {
                        start[k]
                    },
                self.players@ == old(self).players@,
                self.questions@ == old(self).questions@,
                self.working_statuses@ == old(self).working_statuses@,
                self.player_events@ == old(self).player_events@,
                self.question_status.finished == old(self).question_status.finished,
                self.question_status.locked@ == old(self).question_status.locked@,
                self.current_question == old(self).current_question,
                self.rule_option == old(self).rule_option,
                self.n_correct == old(self).n_correct,
                self.m_wrong == old(self).m_wrong,
                self.next_finish_rank == old(self).next_finish_rank,
                self.round_completed == old(self).round_completed,
            decreases keys@.len() - i,
        {
            let pid = keys[i];
            assert(keys@.to_set().contains(pid)) by {
                assert(keys@.contains(pid));
            }
            assert(keys@.take(i as int + 1) == keys@.take(i as int).push(pid));
            let status = *statuses.get(&pid).unwrap();
            if self.display_statuses.contains_key(&pid) {
                self.display_statuses.insert(pid, status);
            }
            proof {
                assert(self.display_statuses@.dom() =~= start.dom());
                assert forall|k: PlayerId| #[trigger]
                    start.contains_key(k) implies self.display_statuses@[k] == if keys@.take(
                        i as int + 1,
                    ).contains(k) {
                        statuses@[k]
                    } else {
                        start[k]
                    } by {
                    if k != pid && keys@.take(i as int + 1).contains(k) {
                        let t1 = keys@.take(i as int + 1);
                        let j = choose|j: int| 0 <= j < t1.len() && t1[j] == k;
                        assert(keys@.take(i as int)[j] == k);
                    }
                    if k != pid && keys@.take(i as int).contains(k) {
                        let t0 = keys@.take(i as int);
                        let j = choose|j: int| 0 <= j < t0.len() && t0[j] == k;
                        assert(keys@.take(i as int + 1)[j] == k);
                    }
                    if k == pid {
                        assert(keys@.take(i as int + 1)[i as int] == pid);
                    }
                }
            }
            i += 1;
        }
        proof {
            assert(keys@.take(keys@.len() as int) == keys@);
            assert forall|k: PlayerId| #[trigger] statuses@.contains_key(k) implies keys@.contains(k) by {
                assert(keys@.to_set().contains(k));
            }
            assert(self.display_statuses@ =~= shown_statuses(start, statuses@));
        }
    }
}

} // verus!
