//! Properties of the library that span its functions.
use vstd::prelude::*;

use crate::data::{Event, Player, PlayerId, PlayerStatus};
use crate::rules::{
    count_correct, count_wrong, correct_streak, selected_round_in_range, selected_statuses_after,
    status_or_fresh, FreeBatting, Freeze, NByM, NCorrectMWrong, PlayerRule, UpDown,
};
use crate::data::RuleOption;
use crate::display::{wrapped_char, wrapped_text};
use crate::rules::{round_in_range, selected_finishes_on_correct, some_correct, statuses_after};
use crate::round::{buzz_total, count_buzz, thawed};
use crate::terminal::{answer_outcome, event_recorded, events_of, first_index, AnswerAction};
use crate::text::parsed_usize;
use crate::loader::answer_marks;

verus! {

/// Whether a status is the same player's status later on: no count went
/// down, a win or an elimination was not taken back, and the finishing rank
/// and the freeze deadline were left as they were.
pub open spec fn progressed(before: PlayerStatus, after: PlayerStatus) -> bool {
    &&& after.correct_count >= before.correct_count
    &&& after.wrong_count >= before.wrong_count
    &&& before.is_winner ==> after.is_winner
    &&& before.is_eliminated ==> after.is_eliminated
    &&& after.finish_rank == before.finish_rank
    &&& after.frozen_until == before.frozen_until
}

/// Scoring a question under any of the rules never lowers a player's
/// correct or wrong count, never takes a win or an elimination back, and
/// leaves finishing ranks and freeze deadlines alone; players without events
/// keep their status as it was.
pub proof fn law_scoring_only_progresses(
    rule_option: RuleOption,
    n: u32,
    m: u32,
    statuses: Map<PlayerId, PlayerStatus>,
    events: Map<PlayerId, Vec<Event>>,
    k: PlayerId,
)
    requires
        selected_round_in_range(rule_option, n, m, statuses, events),
        statuses.contains_key(k) || events.contains_key(k),
    ensures
        selected_statuses_after(rule_option, n, m, statuses, events).contains_key(k),
        progressed(
            status_or_fresh(statuses, k),
            selected_statuses_after(rule_option, n, m, statuses, events)[k],
        ),
        !events.contains_key(k) ==> selected_statuses_after(rule_option, n, m, statuses, events)[k]
            == statuses[k],
{
    if events.contains_key(k) {
        let s = status_or_fresh(statuses, k);
        let evs = events[k]@;
        match rule_option {
            RuleOption::FreeBatting => {
                assert(FreeBatting.in_range(s, evs));
            },
            RuleOption::NCorrectMWrong => {
                assert((NCorrectMWrong { n, m }).in_range(s, evs));
            },
            RuleOption::UpDown => {
                assert((UpDown { n, m }).in_range(s, evs));
            },
            RuleOption::Freeze => {
                assert((Freeze { n }).in_range(s, evs));
            },
            RuleOption::NByM => {
                assert((NByM { n, m }).in_range(s, evs));
            },
        }
    }
}

/// The win and elimination lines of each rule: after a question, a player
/// with events whose score reached `n` (`n` times `m` under N-by-M) has won,
/// and one whose wrong answers reached `m` is eliminated (except under
/// Freeze, which eliminates nobody).
pub proof fn law_rule_thresholds(
    rule_option: RuleOption,
    n: u32,
    m: u32,
    statuses: Map<PlayerId, PlayerStatus>,
    events: Map<PlayerId, Vec<Event>>,
    k: PlayerId,
)
    requires
        selected_round_in_range(rule_option, n, m, statuses, events),
        events.contains_key(k),
    ensures
        ({
            let after = selected_statuses_after(rule_option, n, m, statuses, events)[k];
            &&& (rule_option is NByM) ==> (after.score >= (n as i32) * (m as i32) ==> after.is_winner)
            &&& !(rule_option is NByM) && !(rule_option is FreeBatting) ==> (after.score >= n as i32
                ==> after.is_winner)
            &&& (rule_option is NCorrectMWrong || rule_option is UpDown || rule_option is NByM)
                ==> (after.wrong_count >= m ==> after.is_eliminated)
        }),
{
}

/// How each rule turns a question into a score: under Free Batting,
/// N Correct M Wrong and Freeze the score rises by the correct answers;
/// under UpDown it rises by the correct answers since the last wrong one, or
/// drops to zero when there was a wrong answer; under N by M it is the
/// correct answers times the wrong answers still allowed (where those two
/// numbers fit the score's type; beyond that the product is taken of their
/// wrapped values).
pub proof fn law_rule_scores(
    rule_option: RuleOption,
    n: u32,
    m: u32,
    statuses: Map<PlayerId, PlayerStatus>,
    events: Map<PlayerId, Vec<Event>>,
    k: PlayerId,
)
    requires
        selected_round_in_range(rule_option, n, m, statuses, events),
        events.contains_key(k),
    ensures
        ({
            let before = status_or_fresh(statuses, k);
            let evs = events[k]@;
            let after = selected_statuses_after(rule_option, n, m, statuses, events)[k];
            match rule_option {
                RuleOption::FreeBatting | RuleOption::NCorrectMWrong | RuleOption::Freeze => {
                    &&& after.score == before.score + count_correct(evs)
                    &&& after.correct_count == before.correct_count + count_correct(evs)
                },
                RuleOption::UpDown => {
                    &&& count_wrong(evs) > 0 ==> after.score == 0
                    &&& count_wrong(evs) == 0 ==> after.score == before.score + correct_streak(evs)
                },
                RuleOption::NByM => after.correct_count <= i32::MAX && m - after.wrong_count
                    <= i32::MAX ==> after.score == after.correct_count * (m - after.wrong_count),
            }
        }),
{
    let s = status_or_fresh(statuses, k);
    let evs = events[k]@;
    match rule_option {
        RuleOption::FreeBatting => {
            assert(FreeBatting.in_range(s, evs));
        },
        RuleOption::NCorrectMWrong => {
            assert((NCorrectMWrong { n, m }).in_range(s, evs));
        },
        RuleOption::UpDown => {
            assert((UpDown { n, m }).in_range(s, evs));
        },
        RuleOption::Freeze => {
            assert((Freeze { n }).in_range(s, evs));
        },
        RuleOption::NByM => {
            assert((NByM { n, m }).in_range(s, evs));
        },
    }
}

/// A player locked out of the question (after a wrong answer) is refused
/// any further answer to it.
pub proof fn law_locked_player_refused(
    parts: Seq<&str>,
    players: Seq<Player>,
    statuses: Map<PlayerId, PlayerStatus>,
    locked: Set<PlayerId>,
)
    requires
        parts.len() == 2,
        parsed_usize(parts[1]@) matches Some(id) && locked.contains(id) && first_index(players, id) is Some,
    ensures
        answer_outcome(parts, players, statuses, locked) matches Err(msg) && msg == players[first_index(
            players,
            parsed_usize(parts[1]@)->0,
        )->0].name@ + " already locked out"@,
{
}

/// Buzzes are numbered in order: a buzz numbered one past the buzzes so far
/// makes its number the new count of buzzes.
pub proof fn law_buzz_numbers_count_up(
    before: Map<PlayerId, Vec<Event>>,
    after: Map<PlayerId, Vec<Event>>,
    id: PlayerId,
)
    requires
        before.dom().finite(),
        event_recorded(before, after, id, Event::Buzz((buzz_total(before) + 1) as u32)),
    ensures
        buzz_total(after) == buzz_total(before) + 1,
{
    let ev = Event::Buzz((buzz_total(before) + 1) as u32);
    assert(after.dom().finite()) by {
        assert(after.dom() == before.dom().insert(id));
    }
    crate::round::lemma_buzz_total_remove(after, id);
    assert(after[id]@.drop_last() == events_of(before, id));
    assert(count_buzz(after[id]@) == count_buzz(events_of(before, id)) + 1);
    assert(after.remove(id) =~= before.remove(id));
    if before.contains_key(id) {
        crate::round::lemma_buzz_total_remove(before, id);
    } else {
        assert(before.remove(id) =~= before);
        assert(count_buzz(events_of(before, id)) == 0);
    }
}

/// The status of a player after `t` more questions.
pub open spec fn thawed_after(s: PlayerStatus, t: nat) -> PlayerStatus
    decreases t,
{
    if t == 0 {
        s
    } else {
        thawed(thawed_after(s, (t - 1) as nat))
    }
}

/// A frozen player sits out exactly as many questions as the freeze count
/// says: after that many questions the player is no longer frozen, and
/// nothing else about the status changes.
pub proof fn law_freeze_runs_out(s: PlayerStatus, t: nat)
    ensures
        t >= s.freeze_count ==> thawed_after(s, t).freeze_count == 0,
        t < s.freeze_count ==> thawed_after(s, t).freeze_count == s.freeze_count - t,
        thawed_after(s, t) == (PlayerStatus { freeze_count: thawed_after(s, t).freeze_count, ..s }),
    decreases t,
{
    if t > 0 {
        law_freeze_runs_out(s, (t - 1) as nat);
    }
}

proof fn lemma_count_correct_contains(evs: Seq<Event>)
    ensures
        count_correct(evs) > 0 <==> evs.contains(Event::Correct),
    decreases evs.len(),
{
    if evs.len() > 0 {
        let t = evs.drop_last();
        lemma_count_correct_contains(t);
        if t.contains(Event::Correct) {
            let j = choose|j: int| 0 <= j < t.len() && t[j] == Event::Correct;
            assert(evs[j] == Event::Correct);
        }
        if evs.contains(Event::Correct) && evs.last() != Event::Correct {
            let j = choose|j: int| 0 <= j < evs.len() && evs[j] == Event::Correct;
            assert(t[j] == Event::Correct);
        }
    }
}

/// Under Free Batting only the numbers of correct and wrong answers count:
/// two questions whose events give every player the same numbers (in any
/// order, with any buzzes and score settings in between) leave the same
/// statuses, finish the question alike, and fit the same ranges.
pub proof fn law_free_batting_counts_only(
    statuses: Map<PlayerId, PlayerStatus>,
    e1: Map<PlayerId, Vec<Event>>,
    e2: Map<PlayerId, Vec<Event>>,
)
    requires
        e1.dom() == e2.dom(),
        forall|k: PlayerId|
            #[trigger] e1.contains_key(k) ==> count_correct(e1[k]@) == count_correct(e2[k]@)
                && count_wrong(e1[k]@) == count_wrong(e2[k]@),
    ensures
        statuses_after(FreeBatting, statuses, e1) == statuses_after(FreeBatting, statuses, e2),
        round_in_range(FreeBatting, statuses, e1) == round_in_range(FreeBatting, statuses, e2),
        some_correct(e1) == some_correct(e2),
{
    assert(statuses_after(FreeBatting, statuses, e1) =~= statuses_after(FreeBatting, statuses, e2));
    if round_in_range(FreeBatting, statuses, e1) {
        assert forall|k: PlayerId| #[trigger] e2.contains_key(k) implies FreeBatting.in_range(
            status_or_fresh(statuses, k),
            e2[k]@,
        ) by {
            assert(e1.contains_key(k));
        }
    }
    if round_in_range(FreeBatting, statuses, e2) {
        assert forall|k: PlayerId| #[trigger] e1.contains_key(k) implies FreeBatting.in_range(
            status_or_fresh(statuses, k),
            e1[k]@,
        ) by {
            assert(e2.contains_key(k));
        }
    }
    if some_correct(e1) {
        let k = choose|k: PlayerId| #[trigger] e1.contains_key(k) && e1[k]@.contains(Event::Correct);
        lemma_count_correct_contains(e1[k]@);
        lemma_count_correct_contains(e2[k]@);
        assert(e2.contains_key(k) && e2[k]@.contains(Event::Correct));
    }
    if some_correct(e2) {
        let k = choose|k: PlayerId| #[trigger] e2.contains_key(k) && e2[k]@.contains(Event::Correct);
        lemma_count_correct_contains(e1[k]@);
        lemma_count_correct_contains(e2[k]@);
        assert(e1.contains_key(k) && e1[k]@.contains(Event::Correct));
    }
}

/// Applying the chosen rule is applying that rule's own type: the statuses,
/// the range conditions and the ending of the question are those of
/// `FreeBatting`, `NCorrectMWrong::new(n, m)`, `UpDown::new(n, m)`,
/// `Freeze::new(n)` or `NByM::new(n, m)`.
pub proof fn law_selected_rule_is_its_rule(
    rule_option: RuleOption,
    n: u32,
    m: u32,
    statuses: Map<PlayerId, PlayerStatus>,
    events: Map<PlayerId, Vec<Event>>,
)
    ensures
        ({
            let after = selected_statuses_after(rule_option, n, m, statuses, events);
            let fits = selected_round_in_range(rule_option, n, m, statuses, events);
            let ends = selected_finishes_on_correct(rule_option);
            match rule_option {
                RuleOption::FreeBatting => after == statuses_after(FreeBatting, statuses, events)
                    && fits == round_in_range(FreeBatting, statuses, events)
                    && ends == FreeBatting.finishes_on_correct(),
                RuleOption::NCorrectMWrong => after == statuses_after(
                    NCorrectMWrong { n, m },
                    statuses,
                    events,
                ) && fits == round_in_range(NCorrectMWrong { n, m }, statuses, events) && ends == (
                NCorrectMWrong { n, m }).finishes_on_correct(),
                RuleOption::UpDown => after == statuses_after(UpDown { n, m }, statuses, events)
                    && fits == round_in_range(UpDown { n, m }, statuses, events) && ends == (UpDown {
                    n,
                    m,
                }).finishes_on_correct(),
                RuleOption::Freeze => after == statuses_after(Freeze { n }, statuses, events) && fits
                    == round_in_range(Freeze { n }, statuses, events) && ends == (Freeze {
                    n,
                }).finishes_on_correct(),
                RuleOption::NByM => after == statuses_after(NByM { n, m }, statuses, events) && fits
                    == round_in_range(NByM { n, m }, statuses, events) && ends == (NByM {
                    n,
                    m,
                }).finishes_on_correct(),
            }
        }),
{
}

/// Free Batting takes no parameter and Freeze only `n`: what they give does
/// not depend on the others.
pub proof fn law_unused_parameters(
    statuses: Map<PlayerId, PlayerStatus>,
    events: Map<PlayerId, Vec<Event>>,
    n1: u32,
    m1: u32,
    n2: u32,
    m2: u32,
)
    ensures
        selected_statuses_after(RuleOption::FreeBatting, n1, m1, statuses, events)
            == selected_statuses_after(RuleOption::FreeBatting, n2, m2, statuses, events),
        selected_round_in_range(RuleOption::FreeBatting, n1, m1, statuses, events)
            == selected_round_in_range(RuleOption::FreeBatting, n2, m2, statuses, events),
        selected_statuses_after(RuleOption::Freeze, n1, m1, statuses, events)
            == selected_statuses_after(RuleOption::Freeze, n1, m2, statuses, events),
        selected_round_in_range(RuleOption::Freeze, n1, m1, statuses, events)
            == selected_round_in_range(RuleOption::Freeze, n1, m2, statuses, events),
{
}

/// Where the `i`-th character of a text lands once the text is wrapped
/// every `width` characters.
pub open spec fn wrap_position(i: int, width: int) -> int {
    i + 6 * (i / width)
}

proof fn lemma_div_step(a: int, w: int)
    requires
        a >= 0,
        w > 0,
    ensures
        (a + 1) % w == 0 ==> (a + 1) / w == a / w + 1,
        (a + 1) % w != 0 ==> (a + 1) / w == a / w,
{
    let q = a / w;
    let r = a % w;
    vstd::arithmetic::div_mod::lemma_fundamental_div_mod(a, w);
    vstd::arithmetic::div_mod::lemma_mod_bound(a, w);
    assert(w * q == q * w) by (nonlinear_arith);
    if r + 1 == w {
        assert(a + 1 == (q + 1) * w + 0) by (nonlinear_arith)
            requires
                a == w * q + r,
                r + 1 == w,
        ;
        vstd::arithmetic::div_mod::lemma_fundamental_div_mod_converse(a + 1, w, q + 1, 0);
    } else {
        vstd::arithmetic::div_mod::lemma_fundamental_div_mod_converse(a + 1, w, q, r + 1);
    }
}

/// Wrapping only inserts line breaks: with a positive width, the wrapped
/// text is the text with a line break and five spaces put before each
/// character whose position is a positive multiple of the width. Each
/// character of the text keeps its order and lands at `wrap_position`, each
/// inserted break stands right before its character, and nothing else is
/// added, so removing the breaks gives the text back.
pub proof fn law_wrap_text_inserts_breaks_only(s: Seq<char>, width: int)
    requires
        width > 0,
    ensures
        wrapped_text(s, width).len() == if s.len() == 0 {
            0
        } else {
            s.len() + 6 * ((s.len() - 1) / width)
        },
        forall|i: int|
            0 <= i < s.len() ==> #[trigger] wrapped_text(s, width)[wrap_position(i, width)] == s[i],
        forall|i: int|
            0 < i < s.len() && i % width == 0 ==> #[trigger] wrapped_text(s, width).subrange(
                wrap_position(i, width) - 6,
                wrap_position(i, width),
            ) == "\n     "@,
    decreases s.len(),
{
    reveal_strlit("\n     ");
    if s.len() > 0 {
        let t = s.drop_last();
        let k = t.len() as int;
        let c = s.last();
        law_wrap_text_inserts_breaks_only(t, width);
        let wt = wrapped_text(t, width);
        let w = wrapped_text(s, width);
        assert(w == wt + wrapped_char(k, c, width));
        if k == 0 {
            assert(w =~= seq![c]);
        } else {
            lemma_div_step(k - 1, width);
            let lt = wt.len() as int;
            assert(lt == k + 6 * ((k - 1) / width));
            assert forall|i: int| 0 <= i < k implies wrap_position(i, width) < lt by {
                vstd::arithmetic::div_mod::lemma_div_is_ordered(i, k - 1, width);
                assert(6 * (i / width) <= 6 * ((k - 1) / width));
            }
            assert forall|i: int| 0 <= i < s.len() implies #[trigger] w[wrap_position(i, width)] == s[i] by {
                if i < k {
                    assert(t[i] == s[i]);
                    assert(wt[wrap_position(i, width)] == t[i]);
                } else {
                    if k % width == 0 {
                        assert(wrap_position(k, width) == lt + 6);
                    } else {
                        assert(wrap_position(k, width) == lt);
                    }
                }
            }
            assert forall|i: int| 0 < i < s.len() && i % width == 0 implies #[trigger] w.subrange(
                wrap_position(i, width) - 6,
                wrap_position(i, width),
            ) == "\n     "@ by {
                if i < k {
                    vstd::arithmetic::div_mod::lemma_div_is_ordered(i, k - 1, width);
                    vstd::arithmetic::div_mod::lemma_fundamental_div_mod(i, width);
                    assert(i / width > 0) by (nonlinear_arith)
                        requires
                            i == width * (i / width) + 0,
                            i > 0,
                            width > 0,
                    ;
                    assert(6 * (i / width) <= 6 * ((k - 1) / width));
                    assert(wrap_position(i, width) <= lt);
                    assert(wt.subrange(wrap_position(i, width) - 6, wrap_position(i, width))
                        == "\n     "@);
                    assert(w.subrange(wrap_position(i, width) - 6, wrap_position(i, width))
                        =~= wt.subrange(wrap_position(i, width) - 6, wrap_position(i, width)));
                } else {
                    assert(wrap_position(k, width) == lt + 6);
                    assert(w.subrange(lt, lt + 6) =~= "\n     "@);
                }
            }
        }
    }
}

/// A wrapped text with its wraps taken out again: reading from the end, each
/// line break followed by five spaces and one more character is dropped
/// together with the spaces, and every other character is kept.
pub open spec fn unwrapped_text(t: Seq<char>) -> Seq<char>
    decreases t.len(),
{
    if t.len() == 0 {
        t
    } else if t.len() >= 7 && t.subrange(t.len() - 7, t.len() - 1) == "\n     "@ {
        unwrapped_text(t.subrange(0, t.len() - 7)).push(t.last())
    } else {
        unwrapped_text(t.drop_last()).push(t.last())
    }
}

/// Wrapping can be undone: for a text without line breaks of its own and a
/// positive width, taking the wraps out of the wrapped text gives the text
/// back, and every line break in the wrapped text is followed by at least
/// six more characters (its indent and the character it wraps).
pub proof fn law_wrap_text_round_trip(s: Seq<char>, width: int)
    requires
        width > 0,
        !s.contains('\n'),
    ensures
        unwrapped_text(wrapped_text(s, width)) == s,
        forall|p: int|
            0 <= p < wrapped_text(s, width).len() && #[trigger] wrapped_text(s, width)[p] == '\n'
                ==> p + 7 <= wrapped_text(s, width).len(),
    decreases s.len(),
{
    reveal_strlit("\n     ");
    if s.len() > 0 {
        let t = s.drop_last();
        let k = t.len() as int;
        let c = s.last();
        assert(c != '\n') by {
            if c == '\n' {
                assert(s[k] == c);
            }
        }
        assert(!t.contains('\n')) by {
            if t.contains('\n') {
                let j = choose|j: int| 0 <= j < t.len() && t[j] == '\n';
                assert(s[j] == t[j]);
            }
        }
        law_wrap_text_round_trip(t, width);
        let wt = wrapped_text(t, width);
        let w = wrapped_text(s, width);
        let lt = wt.len() as int;
        assert(w == wt + wrapped_char(k, c, width));
        if k != 0 && k % width == 0 {
            assert(w.subrange(w.len() - 7, w.len() - 1) =~= "\n     "@);
            assert(w.subrange(0, w.len() - 7) =~= wt);
            assert(w.last() == c);
            assert(unwrapped_text(w) == unwrapped_text(wt).push(c));
            assert(s =~= t.push(c));
        } else {
            assert(w =~= wt.push(c));
            if w.len() >= 7 {
                assert(w.subrange(w.len() - 7, w.len() - 1)[0] == wt[lt - 6]);
                assert(w.subrange(w.len() - 7, w.len() - 1) != "\n     "@);
            }
            assert(w.drop_last() =~= wt);
            assert(unwrapped_text(w) == unwrapped_text(wt).push(c));
            assert(s =~= t.push(c));
        }
        assert forall|p: int| 0 <= p < w.len() && #[trigger] w[p] == '\n' implies p + 7 <= w.len() by {
            if p < lt {
                assert(w[p] == wt[p]);
            }
        }
    }
}

/// What a question adds to a player's counts: every rule adds the question's
/// wrong answers to the wrong count, so wrong answers accumulate from one
/// question to the next; the correct count grows by the correct answers
/// (under UpDown by those given after the last wrong one). Only a wrong
/// answer under Freeze sets the freeze count, to the new wrong count plus
/// one; otherwise it is left as it was.
pub proof fn law_rule_counts(
    rule_option: RuleOption,
    n: u32,
    m: u32,
    statuses: Map<PlayerId, PlayerStatus>,
    events: Map<PlayerId, Vec<Event>>,
    k: PlayerId,
)
    requires
        selected_round_in_range(rule_option, n, m, statuses, events),
        events.contains_key(k),
    ensures
        ({
            let before = status_or_fresh(statuses, k);
            let evs = events[k]@;
            let after = selected_statuses_after(rule_option, n, m, statuses, events)[k];
            &&& after.wrong_count == before.wrong_count + count_wrong(evs)
            &&& !(rule_option is UpDown) ==> after.correct_count == before.correct_count
                + count_correct(evs)
            &&& (rule_option is UpDown) ==> after.correct_count == before.correct_count
                + correct_streak(evs)
            &&& (rule_option is Freeze && count_wrong(evs) > 0) ==> after.freeze_count
                == after.wrong_count + 1
            &&& !(rule_option is Freeze && count_wrong(evs) > 0) ==> after.freeze_count
                == before.freeze_count
        }),
{
    let s = status_or_fresh(statuses, k);
    let evs = events[k]@;
    match rule_option {
        RuleOption::FreeBatting => {
            assert(FreeBatting.in_range(s, evs));
        },
        RuleOption::NCorrectMWrong => {
            assert((NCorrectMWrong { n, m }).in_range(s, evs));
        },
        RuleOption::UpDown => {
            assert((UpDown { n, m }).in_range(s, evs));
        },
        RuleOption::Freeze => {
            assert((Freeze { n }).in_range(s, evs));
        },
        RuleOption::NByM => {
            assert((NByM { n, m }).in_range(s, evs));
        },
    }
}

/// The win and elimination lines are exact: after a question a player with
/// events has won exactly when they had won before or their score reached
/// the winning line (`n`, or `n` times `m` under N by M; Free Batting has
/// none), and is eliminated exactly when they were before or their wrong
/// answers reached `m` (Free Batting and Freeze eliminate nobody).
pub proof fn law_rule_lines_exact(
    rule_option: RuleOption,
    n: u32,
    m: u32,
    statuses: Map<PlayerId, PlayerStatus>,
    events: Map<PlayerId, Vec<Event>>,
    k: PlayerId,
)
    requires
        selected_round_in_range(rule_option, n, m, statuses, events),
        events.contains_key(k),
    ensures
        ({
            let before = status_or_fresh(statuses, k);
            let after = selected_statuses_after(rule_option, n, m, statuses, events)[k];
            &&& (rule_option is FreeBatting) ==> after.is_winner == before.is_winner
            &&& (rule_option is NCorrectMWrong || rule_option is UpDown || rule_option is Freeze)
                ==> after.is_winner == (before.is_winner || after.score >= n as i32)
            &&& (rule_option is NByM) ==> after.is_winner == (before.is_winner || after.score >= (
            n as i32) * (m as i32))
            &&& (rule_option is FreeBatting || rule_option is Freeze) ==> after.is_eliminated
                == before.is_eliminated
            &&& (rule_option is NCorrectMWrong || rule_option is UpDown || rule_option is NByM)
                ==> after.is_eliminated == (before.is_eliminated || after.wrong_count >= m)
        }),
{
    let s = status_or_fresh(statuses, k);
    let evs = events[k]@;
    match rule_option {
        RuleOption::FreeBatting => {
            assert(FreeBatting.in_range(s, evs));
        },
        RuleOption::NCorrectMWrong => {
            assert((NCorrectMWrong { n, m }).in_range(s, evs));
        },
        RuleOption::UpDown => {
            assert((UpDown { n, m }).in_range(s, evs));
        },
        RuleOption::Freeze => {
            assert((Freeze { n }).in_range(s, evs));
        },
        RuleOption::NByM => {
            assert((NByM { n, m }).in_range(s, evs));
        },
    }
}

/// Whether a player may answer: listed, not locked out of the question, not
/// frozen, and neither a winner nor eliminated.
pub open spec fn may_answer(
    players: Seq<Player>,
    statuses: Map<PlayerId, PlayerStatus>,
    locked: Set<PlayerId>,
    id: PlayerId,
) -> bool {
    &&& first_index(players, id) is Some
    &&& !locked.contains(id)
    &&& statuses.contains_key(id) ==> {
        let s = statuses[id];
        &&& s.freeze_count == 0
        &&& !(s.frozen_until matches Some(f) && f > 0)
        &&& !s.is_winner
        &&& !s.is_eliminated
    }
}

/// The action a command word names, if any.
pub open spec fn action_named(word: Seq<char>) -> Option<AnswerAction> {
    if word == "buzz"@ {
        Some(AnswerAction::Buzz)
    } else if word == "correct"@ {
        Some(AnswerAction::Correct)
    } else if word == "wrong"@ {
        Some(AnswerAction::Wrong)
    } else {
        None
    }
}

/// An answer command is accepted exactly when it has two words, the second
/// is the id of a player who may answer, and the first names an action; it
/// is then accepted for that player and that action. So a winner or an
/// eliminated player is refused whatever the action, a buzz as much as a
/// correct or wrong answer.
pub proof fn law_answer_accepted_exactly(
    parts: Seq<&str>,
    players: Seq<Player>,
    statuses: Map<PlayerId, PlayerStatus>,
    locked: Set<PlayerId>,
)
    ensures
        answer_outcome(parts, players, statuses, locked) is Ok <==> {
            &&& parts.len() == 2
            &&& parsed_usize(parts[1]@) matches Some(id) && may_answer(players, statuses, locked, id)
            &&& action_named(parts[0]@) is Some
        },
        answer_outcome(parts, players, statuses, locked) matches Ok((id, action)) ==> {
            &&& parsed_usize(parts[1]@) == Some(id)
            &&& action_named(parts[0]@) == Some(action)
        },
{
    reveal_strlit("buzz");
    reveal_strlit("correct");
    reveal_strlit("wrong");
}

/// An eliminated player who is listed, not locked out, not frozen and not a
/// winner is refused with "<name> already eliminated", whatever the first
/// word of the command.
pub proof fn law_eliminated_player_refused(
    parts: Seq<&str>,
    players: Seq<Player>,
    statuses: Map<PlayerId, PlayerStatus>,
    locked: Set<PlayerId>,
)
    requires
        parts.len() == 2,
        parsed_usize(parts[1]@) matches Some(id) && first_index(players, id) is Some
            && !locked.contains(id) && statuses.contains_key(id) && statuses[id].is_eliminated
            && !statuses[id].is_winner && statuses[id].freeze_count == 0 && !(
        statuses[id].frozen_until matches Some(f) && f > 0),
    ensures
        answer_outcome(parts, players, statuses, locked) matches Err(msg) && msg == players[first_index(
            players,
            parsed_usize(parts[1]@)->0,
        )->0].name@ + " already eliminated"@,
{
}

/// Whether an event is an answer: correct or wrong.
pub open spec fn is_answer(e: Event) -> bool {
    e == Event::Correct || e == Event::Wrong
}

/// The log mark of an answer: `o` when correct, `x` when wrong.
pub open spec fn answer_mark(e: Event) -> char {
    if e == Event::Correct {
        'o'
    } else {
        'x'
    }
}

/// The answer log keeps every answer: a player's marks are the player's
/// answers, in the order given, each written as `o` (correct) or `x`
/// (wrong); buzzes and score settings leave no mark. So there are as many
/// marks as correct and wrong answers together.
pub proof fn law_answer_marks_every_answer(evs: Seq<Event>)
    ensures
        answer_marks(evs) == evs.filter(|e: Event| is_answer(e)).map_values(|e: Event| answer_mark(e)),
        answer_marks(evs).len() == count_correct(evs) + count_wrong(evs),
    decreases evs.len(),
{
    reveal(Seq::filter);
    reveal_strlit("o");
    reveal_strlit("x");
    if evs.len() > 0 {
        let t = evs.drop_last();
        let e = evs.last();
        law_answer_marks_every_answer(t);
        let ft = t.filter(|e: Event| is_answer(e));
        assert(evs.filter(|e: Event| is_answer(e)) == if is_answer(e) {
            ft.push(e)
        } else {
            ft
        });
        if is_answer(e) {
            assert(ft.push(e).map_values(|e: Event| answer_mark(e)) =~= ft.map_values(
                |e: Event| answer_mark(e),
            ).push(answer_mark(e)));
            if e == Event::Correct {
                assert("o"@ =~= seq!['o']);
            } else {
                assert("x"@ =~= seq!['x']);
            }
            assert(answer_marks(evs) =~= answer_marks(t).push(answer_mark(e)));
        } else {
            assert(answer_marks(evs) =~= answer_marks(t));
        }
    }
}

} // verus!
