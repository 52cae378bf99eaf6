use std::collections::HashMap;
use vstd::prelude::*;
use vstd::string::StringExecFns;

use crate::data::{rule_options, Event, Player, PlayerId, PlayerStatus, QuestionStatus, RuleOption};
use crate::rules::status_or_fresh;
use crate::text::{i32_text, parse_i32, parse_usize, parsed_i32, parsed_usize, same_text, signed_decimal_text, usize_text, decimal_text};

verus! {

broadcast use vstd::std_specs::hash::group_hash_axioms;

/// The position of the first player with the given id.
pub open spec fn first_index(players: Seq<Player>, id: PlayerId) -> Option<int>
    decreases players.len(),
{
    if players.len() == 0 {
        None
    } else {
        match first_index(players.drop_last(), id) {
            Some(i) => Some(i),
            None => if players.last().id == id {
                Some(players.len() - 1)
            } else {
                None
            },
        }
    }
}

pub proof fn lemma_first_index(players: Seq<Player>, id: PlayerId)
    ensures
        match first_index(players, id) {
            Some(i) => 0 <= i < players.len() && players[i].id == id && forall|j: int|
                0 <= j < i ==> #[trigger] players[j].id != id,
            None => forall|j: int| 0 <= j < players.len() ==> #[trigger] players[j].id != id,
        },
    decreases players.len(),
{
    if players.len() > 0 {
        lemma_first_index(players.drop_last(), id);
        assert forall|j: int| 0 <= j < players.len() - 1 implies #[trigger] players[j].id
            == players.drop_last()[j].id by {}
    }
}

/// Finds the first player with the given id.
pub fn find_player(players: &[Player], id: PlayerId) -> (r: Option<usize>)
    ensures
        match first_index(players@, id) {
            Some(i) => r == Some(i as usize),
            None => r is None,
        },
{
    proof {
        lemma_first_index(players@, id);
    }
    let mut i: usize = 0;
    while i < players.len()
        invariant
            i <= players.len(),
            forall|j: int| 0 <= j < i ==> #[trigger] players@[j].id != id,
        decreases players.len() - i,
    {
        if players[i].id == id {
            proof {
                lemma_first_index(players@, id);
            }
            return Some(i);
        }
        i += 1;
    }
    proof {
        lemma_first_index(players@, id);
    }
    None
}

/// The events of a player so far in the question.
pub open spec fn events_of(events: Map<PlayerId, Vec<Event>>, id: PlayerId) -> Seq<Event> {
    if events.contains_key(id) {
        events[id]@
    } else {
        Seq::empty()
    }
}

/// Whether `after` is `before` with `ev` recorded for the player `id`.
pub open spec fn event_recorded(
    before: Map<PlayerId, Vec<Event>>,
    after: Map<PlayerId, Vec<Event>>,
    id: PlayerId,
    ev: Event,
) -> bool {
    &&& after.dom() == before.dom().insert(id)
    &&& after[id]@ == events_of(before, id).push(ev)
    &&& forall|k: PlayerId| k != id && #[trigger] before.contains_key(k) ==> after[k] == before[k]
}

/// Records an event for a player.
pub(crate) fn record_event(events: &mut HashMap<PlayerId, Vec<Event>>, id: PlayerId, ev: Event)
    ensures
        event_recorded(old(events)@, final(events)@, id, ev),
{
    let mut list = match events.remove(&id) {
        Some(v) => v,
        None => Vec::new(),
    };
    list.push(ev);
    events.insert(id, list);
    assert(events@.dom() =~= old(events)@.dom().insert(id));
}

/// What an answer command asks for.
pub enum AnswerAction {
    Buzz,
    Correct,
    Wrong,
}

/// What an answer command amounts to: the player and the action, or the
/// message it is refused with.
pub open spec fn answer_outcome(
    parts: Seq<&str>,
    players: Seq<Player>,
    statuses: Map<PlayerId, PlayerStatus>,
    locked: Set<PlayerId>,
) -> Result<(PlayerId, AnswerAction), Seq<char>> {
    if parts.len() != 2 {
        Err("format: buzz <player_id> / correct <player_id> / wrong <player_id>"@)
    } else {
        match parsed_usize(parts[1]@) {
            None => Err("invalid player id"@),
            Some(id) => match first_index(players, id) {
                None => Err("unknown player"@),
                Some(i) => {
                    let name = players[i].name@;
                    let known = statuses.contains_key(id);
                    let s = statuses[id];
                    if locked.contains(id) {
                        Err(name + " already locked out"@)
                    } else if known && s.freeze_count > 0 {
                        Err(name + " is temporarily frozen (freeze_count > 0)"@)
                    } else if known && s.frozen_until is Some && s.frozen_until->0 > 0 {
                        Err(name + " is frozen until question "@ + decimal_text(
                            s.frozen_until->0 as nat,
                        ))
                    } else if known && s.is_winner {
                        Err(name + " already winner"@)
                    } else if known && s.is_eliminated {
                        Err(name + " already eliminated"@)
                    } else if parts[0]@ == "buzz"@ {
                        Ok((id, AnswerAction::Buzz))
                    } else if parts[0]@ == "correct"@ {
                        Ok((id, AnswerAction::Correct))
                    } else if parts[0]@ == "wrong"@ {
                        Ok((id, AnswerAction::Wrong))
                    } else {
                        Err("unknown action"@)
                    }
                },
            },
        }
    }
}

/// Handles `buzz <id>`, `correct <id>` and `wrong <id>`: makes sure the
/// player may answer, then records the event. A buzz is numbered after the
/// players locked out so far, a correct answer finishes the question and a
/// wrong one locks the player out of it. A refused command changes nothing.
pub fn handle_answer_command(
    parts: &[&str],
    players: &[Player],
    player_statuses: &mut HashMap<PlayerId, PlayerStatus>,
    player_events: &mut HashMap<PlayerId, Vec<Event>>,
    question_status: &mut QuestionStatus,
) -> (r: Result<(), String>)
    requires
        answer_outcome(
            parts@,
            players@,
            old(player_statuses)@,
            old(question_status).locked@,
        ) matches Ok((_, AnswerAction::Buzz)) ==> (old(question_status).locked@.len() as u32)
            < u32::MAX,
    ensures
        final(player_statuses)@ == old(player_statuses)@,
        match answer_outcome(
            parts@,
            players@,
            old(player_statuses)@,
            old(question_status).locked@,
        ) {
            Err(msg) => {
                &&& r matches Err(e) && e@ == msg
                &&& final(player_events)@ == old(player_events)@
                &&& final(question_status).finished == old(question_status).finished
                &&& final(question_status).locked@ == old(question_status).locked@
            },
            Ok((id, action)) => {
                &&& r is Ok
                &&& event_recorded(
                    old(player_events)@,
                    final(player_events)@,
                    id,
                    match action {
                        AnswerAction::Buzz => Event::Buzz(
                            (old(question_status).locked@.len() as u32 + 1) as u32,
                        ),
                        AnswerAction::Correct => Event::Correct,
                        AnswerAction::Wrong => Event::Wrong,
                    },
                )
                &&& final(question_status).finished == (old(question_status).finished || action
                    is Correct)
                &&& final(question_status).locked@ == if action is Wrong {
                    old(question_status).locked@.insert(id)
                } else {
                    old(question_status).locked@
                }
            },
        },
{
    if parts.len() != 2 {
        return Err(String::from_str("format: buzz <player_id> / correct <player_id> / wrong <player_id>"));
    }
    let action = parts[0];
    let id = match parse_usize(parts[1]) {
        Some(id) => id,
        None => return Err(String::from_str("invalid player id")),
    };
    let idx = match find_player(players, id) {
        Some(i) => i,
        None => return Err(String::from_str("unknown player")),
    };
    proof {
        lemma_first_index(players@, id);
    }
    let player = &players[idx];
    let status = player_statuses.get(&player.id);
    if question_status.locked.contains(&player.id) {
        return Err(player.name.clone().concat(" already locked out"));
    }
    let freeze_count = match status {
        Some(s) => s.freeze_count,
        None => 0,
    };
    if freeze_count > 0 {
        return Err(player.name.clone().concat(" is temporarily frozen (freeze_count > 0)"));
    }
    if let Some(s) = status {
        if let Some(f) = s.frozen_until {
            if f > 0 {
                let msg = player.name.clone().concat(" is frozen until question ");
                let number = usize_text(f as usize);
                return Err(msg.concat(number.as_str()));
            }
        }
    }
    if let Some(s) = status {
        if s.is_winner {
            return Err(player.name.clone().concat(" already winner"));
        }
        if s.is_eliminated {
            return Err(player.name.clone().concat(" already eliminated"));
        }
    }
    let event = if same_text(action, "buzz") {
        Event::Buzz(#[verifier::truncate] (question_status.locked.len() as u32) + 1)
    } else if same_text(action, "correct") {
        question_status.finished = true;
        Event::Correct
    } else if same_text(action, "wrong") {
        question_status.locked.insert(player.id);
        Event::Wrong
    } else {
        return Err(String::from_str("unknown action"));
    };
    record_event(player_events, player.id, event);
    Ok(())
}

/// What a `set` command amounts to: the player, their position in the list
/// and the new score, or the message it is refused with.
pub open spec fn set_outcome(parts: Seq<&str>, players: Seq<Player>) -> Result<(PlayerId, int, i32), Seq<char>> {
    if parts.len() != 3 {
        Err("format: set <player_id> <score>"@)
    } else {
        match parsed_usize(parts[1]@) {
            None => Err("invalid player id"@),
            Some(id) => match parsed_i32(parts[2]@) {
                None => Err("invalid score value"@),
                Some(score) => match first_index(players, id) {
                    None => Err("unknown player"@),
                    Some(i) => Ok((id, i, score)),
                },
            },
        }
    }
}

/// Handles `set <id> <score>`: sets the player's score by hand and records
/// it as an event. Answers with the confirmation to show the operator; a
/// refused command changes nothing.
pub fn handle_set_command(
    parts: &[&str],
    players: &[Player],
    player_statuses: &mut HashMap<PlayerId, PlayerStatus>,
    player_events: &mut HashMap<PlayerId, Vec<Event>>,
) -> (r: Result<String, String>)
    ensures
        match set_outcome(parts@, players@) {
            Err(msg) => {
                &&& r matches Err(e) && e@ == msg
                &&& final(player_statuses)@ == old(player_statuses)@
                &&& final(player_events)@ == old(player_events)@
            },
            Ok((id, i, score)) => {
                &&& r matches Ok(confirmation) && confirmation@ == "Player "@ + players[i].name@
                    + " score set to "@ + signed_decimal_text(score as int)
                &&& final(player_statuses)@ == old(player_statuses)@.insert(
                    id,
                    PlayerStatus { score, ..status_or_fresh(old(player_statuses)@, id) },
                )
                &&& event_recorded(
                    old(player_events)@,
                    final(player_events)@,
                    id,
                    Event::SetScore(score as u32),
                )
            },
        },
{
    if parts.len() != 3 {
        return Err(String::from_str("format: set <player_id> <score>"));
    }
    let id = match parse_usize(parts[1]) {
        Some(id) => id,
        None => return Err(String::from_str("invalid player id")),
    };
    let new_score = match parse_i32(parts[2]) {
        Some(v) => v,
        None => return Err(String::from_str("invalid score value")),
    };
    let idx = match find_player(players, id) {
        Some(i) => i,
        None => return Err(String::from_str("unknown player")),
    };
    proof {
        lemma_first_index(players@, id);
    }
    let player = &players[idx];
    let mut status = match player_statuses.get(&player.id) {
        Some(s) => *s,
        None => PlayerStatus::new(),
    };
    status.score = new_score;
    player_statuses.insert(player.id, status);
    record_event(player_events, player.id, Event::SetScore(new_score as u32));
    let confirmation = String::from_str("Player ").concat(player.name.as_str()).concat(
        " score set to ",
    ).concat(i32_text(new_score).as_str());
    Ok(confirmation)
}

/// What a line typed at the operator's prompt asks for.
#[derive(Clone, Copy, Debug, PartialEq, Eq, Structural)]
pub enum Command {
    /// `next`: close the question and score it.
    Next,
    /// `pass`: nobody answers; the question is finished.
    Pass,
    /// `set <id> <score>`.
    SetScore,
    /// `buzz <id>`, `correct <id>` or `wrong <id>`.
    Answer,
    /// Anything else.
    Invalid,
}

/// What a typed line asks for, given the line and its words.
pub open spec fn command_of(input: Seq<char>, parts: Seq<&str>) -> Command {
    if input == "next"@ {
        Command::Next
    } else if input == "pass"@ {
        Command::Pass
    } else if parts.len() == 3 && parts[0]@ == "set"@ {
        Command::SetScore
    } else if parts.len() == 2 && (parts[0]@ == "buzz"@ || parts[0]@ == "correct"@ || parts[0]@
        == "wrong"@) {
        Command::Answer
    } else {
        Command::Invalid
    }
}

/// Tells what a line typed at the operator's prompt asks for.
pub fn classify_command(input: &str, parts: &[&str]) -> (c: Command)
    ensures
        c == command_of(input@, parts@),
{
    if same_text(input, "next") {
        Command::Next
    } else if same_text(input, "pass") {
        Command::Pass
    } else if parts.len() == 3 && same_text(parts[0], "set") {
        Command::SetScore
    } else if parts.len() == 2 && (same_text(parts[0], "buzz") || same_text(parts[0], "correct")
        || same_text(parts[0], "wrong")) {
        Command::Answer
    } else {
        Command::Invalid
    }
}

/// A rule parameter typed by the operator: the default for an empty line,
/// else the number typed; refused when it is not a number.
pub fn parameter_or_default(input: &str, default: i32) -> (r: Result<i32, String>)
    ensures
        input@.len() == 0 ==> r == Ok::<i32, String>(default),
        input@.len() > 0 ==> match parsed_i32(input@) {
            Some(v) => r == Ok::<i32, String>(v),
            None => r matches Err(e) && e@ == "Invalid number"@,
        },
{
    if input.is_empty() {
        return Ok(default);
    }
    match parse_i32(input) {
        Some(v) => Ok(v),
        None => Err(String::from_str("Invalid number")),
    }
}

/// Whether the operator is asked for the parameters N and M after choosing
/// a rule at the prompt.
pub fn rule_needs_parameters(rule: RuleOption) -> (r: bool)
    ensures
        r == (rule is NCorrectMWrong || rule is Freeze || rule is NByM),
{
    match rule {
        RuleOption::NCorrectMWrong | RuleOption::Freeze | RuleOption::NByM => true,
        RuleOption::FreeBatting | RuleOption::UpDown => false,
    }
}

/// The rule at a position of the menu, if the position is on it.
pub fn rule_at(idx: usize) -> (r: Option<RuleOption>)
    ensures
        idx < rule_options().len() ==> r == Some(rule_options()[idx as int]),
        idx >= rule_options().len() ==> r is None,
{
    let options = RuleOption::all_options();
    if idx < options.len() {
        Some(options[idx])
    } else {
        None
    }
}

/// What the console does with a typed line, given the question's state.
#[derive(Clone, Copy, Debug, PartialEq, Eq, Structural)]
pub enum PromptStep {
    /// Close the question and score it.
    EndQuestion,
    /// The question is finished: the line is turned away.
    QuestionFinished,
    /// Handle a `set` command.
    SetScore,
    /// Handle an answer command.
    Answer,
    /// Show the command formats.
    ShowFormat,
}

/// Decides what the console does with a typed line: `next` ends the
/// question; `pass` finishes it; once the question is finished every other
/// line is turned away; otherwise `set` and answer commands are handled and
/// anything else shows the formats.
pub fn prompt_step(command: Command, question_status: &mut QuestionStatus) -> (step: PromptStep)
    ensures
        final(question_status).locked@ == old(question_status).locked@,
        final(question_status).finished == (old(question_status).finished || command is Pass),
        step == if command is Next {
            PromptStep::EndQuestion
        } else if final(question_status).finished {
            PromptStep::QuestionFinished
        } else {
            match command {
                Command::SetScore => PromptStep::SetScore,
                Command::Answer => PromptStep::Answer,
                _ => PromptStep::ShowFormat,
            }
        },
{
    if let Command::Next = command {
        return PromptStep::EndQuestion;
    }
    if let Command::Pass = command {
        question_status.finished = true;
    }
    if question_status.finished {
        return PromptStep::QuestionFinished;
    }
    match command {
        Command::SetScore => PromptStep::SetScore,
        Command::Answer => PromptStep::Answer,
        _ => PromptStep::ShowFormat,
    }
}

} // verus!
