use std::collections::HashMap;
use vstd::prelude::*;
use vstd::string::StringExecFns;

use crate::data::{opt_text, Event, Player, PlayerId, PlayerRow, PlayerStatus, Question, QuestionRow};
use crate::terminal::{find_player, first_index};
use crate::text::{decimal_text, usize_text};

verus! {

broadcast use vstd::std_specs::hash::group_hash_axioms;

/// The players of a player list file; refused when the file lists none.
pub fn players_from_rows(rows: Vec<PlayerRow>) -> (r: Result<Vec<Player>, String>)
    ensures
        rows@.len() == 0 ==> (r matches Err(e) && e@ == "No players loaded from CSV"@),
        rows@.len() > 0 ==> (r matches Ok(players) && players@.len() == rows@.len() && forall|i: int|
            0 <= i < rows@.len() ==> #[trigger] players@[i] == (Player {
                id: rows@[i].id,
                name: rows@[i].name,
                affiliation: rows@[i].affiliation,
                grade: rows@[i].grade,
            })),
{
    let ghost input = rows@;
    let mut players: Vec<Player> = Vec::new();
    for row in it: rows.into_iter()
        invariant
            it.seq() == input,
            players@.len() == it.index(),
            forall|i: int|
                0 <= i < it.index() ==> #[trigger] players@[i] == (Player {
                    id: input[i].id,
                    name: input[i].name,
                    affiliation: input[i].affiliation,
                    grade: input[i].grade,
                }),
    {
        players.push(Player::from(row));
    }
    if players.len() == 0 {
        return Err(String::from_str("No players loaded from CSV"));
    }
    Ok(players)
}

/// The questions of a question list file; refused when the file lists none.
pub fn questions_from_rows(rows: Vec<QuestionRow>) -> (r: Result<Vec<Question>, String>)
    ensures
        rows@.len() == 0 ==> (r matches Err(e) && e@ == "No questions loaded from CSV"@),
        rows@.len() > 0 ==> (r matches Ok(questions) && questions@.len() == rows@.len() && forall|
            i: int,
        |
            0 <= i < rows@.len() ==> #[trigger] questions@[i] == (Question {
                id: rows@[i].id,
                text: rows@[i].text,
                answer: rows@[i].answer,
            })),
{
    let ghost input = rows@;
    let mut questions: Vec<Question> = Vec::new();
    for row in it: rows.into_iter()
        invariant
            it.seq() == input,
            questions@.len() == it.index(),
            forall|i: int|
                0 <= i < it.index() ==> #[trigger] questions@[i] == (Question {
                    id: input[i].id,
                    text: input[i].text,
                    answer: input[i].answer,
                }),
    {
        questions.push(Question::from(row));
    }
    if questions.len() == 0 {
        return Err(String::from_str("No questions loaded from CSV"));
    }
    Ok(questions)
}

/// An optional text, or the empty text.
pub open spec fn text_or_empty(t: Option<Seq<char>>) -> Seq<char> {
    match t {
        Some(t) => t,
        None => Seq::empty(),
    }
}

/// Copies an optional text, giving the empty text for none.
fn text_or_default(t: &Option<String>) -> (r: String)
    ensures
        r@ == text_or_empty(opt_text(*t)),
{
    match t {
        Some(s) => s.clone(),
        None => String::new(),
    }
}

/// The four header rows of the answer log: a label, then one column per
/// player with the player's id, name, affiliation and grade.
pub fn log_head_rows(players: &[Player]) -> (rows: Vec<Vec<String>>)
    ensures
        rows@.len() == 4,
        forall|r: int| 0 <= r < 4 ==> #[trigger] rows@[r]@.len() == players@.len() + 1,
        rows@[0]@[0]@ == "id"@,
        rows@[1]@[0]@ == "name"@,
        rows@[2]@[0]@ == "affiliation"@,
        rows@[3]@[0]@ == "grade"@,
        forall|i: int|
            0 <= i < players@.len() ==> {
                &&& #[trigger] rows@[0]@[i + 1]@ == decimal_text(players@[i].id as nat)
                &&& rows@[1]@[i + 1]@ == players@[i].name@
                &&& rows@[2]@[i + 1]@ == text_or_empty(opt_text(players@[i].affiliation))
                &&& rows@[3]@[i + 1]@ == text_or_empty(opt_text(players@[i].grade))
            },
{
    let mut ids: Vec<String> = Vec::new();
    let mut names: Vec<String> = Vec::new();
    let mut affiliations: Vec<String> = Vec::new();
    let mut grades: Vec<String> = Vec::new();
    ids.push(String::from_str("id"));
    names.push(String::from_str("name"));
    affiliations.push(String::from_str("affiliation"));
    grades.push(String::from_str("grade"));
    let mut i: usize = 0;
    while i < players.len()
        invariant
            i <= players@.len(),
            ids@.len() == i + 1,
            names@.len() == i + 1,
            affiliations@.len() == i + 1,
            grades@.len() == i + 1,
            ids@[0]@ == "id"@,
            names@[0]@ == "name"@,
            affiliations@[0]@ == "affiliation"@,
            grades@[0]@ == "grade"@,
            forall|j: int|
                0 <= j < i ==> {
                    &&& #[trigger] ids@[j + 1]@ == decimal_text(players@[j].id as nat)
                    &&& names@[j + 1]@ == players@[j].name@
                    &&& affiliations@[j + 1]@ == text_or_empty(opt_text(players@[j].affiliation))
                    &&& grades@[j + 1]@ == text_or_empty(opt_text(players@[j].grade))
                },
        decreases players@.len() - i,
    {
        let p = &players[i];
        ids.push(usize_text(p.id));
        names.push(p.name.clone());
        affiliations.push(text_or_default(&p.affiliation));
        grades.push(text_or_default(&p.grade));
        i += 1;
    }
    let mut rows: Vec<Vec<String>> = Vec::new();
    rows.push(ids);
    rows.push(names);
    rows.push(affiliations);
    rows.push(grades);
    rows
}

/// The answer marks of a player's events: `o` for each correct answer and
/// `x` for each wrong one, in order.
pub open spec fn answer_marks(evs: Seq<Event>) -> Seq<char>
    decreases evs.len(),
{
    if evs.len() == 0 {
        Seq::empty()
    } else {
        answer_marks(evs.drop_last()) + if evs.last() == Event::Correct {
            "o"@
        } else if evs.last() == Event::Wrong {
            "x"@
        } else {
            Seq::empty()
        }
    }
}

/// Writes the answer marks of a player's events.
fn marks_of(events: &Vec<Event>) -> (s: String)
    ensures
        s@ == answer_marks(events@),
{
    let mut s = String::new();
    let mut j: usize = 0;
    while j < events.len()
        invariant
            j <= events@.len(),
            s@ == answer_marks(events@.take(j as int)),
        decreases events@.len() - j,
    {
        assert(events@.take(j as int + 1).drop_last() == events@.take(j as int));
        match events[j] {
            Event::Correct => {
                s.append("o");
            },
            Event::Wrong => {
                s.append("x");
            },
            _ => {},
        }
        j += 1;
    }
    assert(events@.take(events@.len() as int) == events@);
    s
}

/// The ids with events that no listed player has.
pub open spec fn unknown_ids(players: Seq<Player>, events: Map<PlayerId, Vec<Event>>) -> Set<PlayerId> {
    events.dom().filter(|k: PlayerId| first_index(players, k) is None)
}

/// The answer log line of a question: the question number, then one column
/// per player with the marks of that player's answers. A player listed twice
/// gets the marks in the first of their columns.
pub open spec fn log_line_text(
    problem_id: usize,
    players: Seq<Player>,
    events: Map<PlayerId, Vec<Event>>,
    i: int,
) -> Seq<char> {
    if i == 0 {
        decimal_text(problem_id as nat)
    } else {
        let id = players[i - 1].id;
        if first_index(players, id) == Some(i - 1) && events.contains_key(id) {
            answer_marks(events[id]@)
        } else {
            Seq::empty()
        }
    }
}

/// The answer log line of a question; refused when some events belong to an
/// id that no listed player has (which such id the message names depends on
/// the order in which the map is walked).
#[verifier::spinoff_prover]
pub fn log_line_row(
    problem_id: usize,
    players: &[Player],
    player_events: &HashMap<PlayerId, Vec<Event>>,
) -> (r: Result<Vec<String>, String>)
    ensures
        unknown_ids(players@, player_events@).is_empty() ==> (r matches Ok(row) && row@.len()
            == players@.len() + 1 && forall|i: int|
            0 <= i <= players@.len() ==> #[trigger] row@[i]@ == log_line_text(
                problem_id,
                players@,
                player_events@,
                i,
            )),
        !unknown_ids(players@, player_events@).is_empty() ==> (r matches Err(e) && exists|k: PlayerId|
            #[trigger] unknown_ids(players@, player_events@).contains(k) && e@ == "Player with id "@
                + decimal_text(k as nat) + " not found"@),
{
    let mut row: Vec<String> = Vec::new();
    row.push(usize_text(problem_id));
    let mut i: usize = 0;
    while i < players.len()
        invariant
            i <= players@.len(),
            row@.len() == i + 1,
            row@[0]@ == decimal_text(problem_id as nat),
            forall|j: int| 1 <= j <= i ==> #[trigger] row@[j]@ == Seq::<char>::empty(),
        decreases players@.len() - i,
    {
        row.push(String::new());
        i += 1;
    }
    let keys = crate::keys::map_keys(player_events);
    let mut n: usize = 0;
    while n < keys.len()
        invariant
            n <= keys@.len(),
            keys@.no_duplicates(),
            keys@.to_set() == player_events@.dom(),
            row@.len() == players@.len() + 1,
            row@[0]@ == decimal_text(problem_id as nat),
            forall|j: int|
                0 <= j < n ==> #[trigger] first_index(players@, keys@[j]) is Some,
            forall|i: int|
                1 <= i <= players@.len() ==> #[trigger] row@[i]@ == {
                    let id = players@[i - 1].id;
                    if first_index(players@, id) == Some(i - 1) && keys@.take(n as int).contains(id) {
                        answer_marks(player_events@[id]@)
                    } else {
                        Seq::<char>::empty()
                    }
                },
        decreases keys@.len() - n,
    {
        let pid = keys[n];
        assert(keys@.to_set().contains(pid)) by {
            assert(keys@.contains(pid));
        }
        assert(keys@.take(n as int + 1) == keys@.take(n as int).push(pid));
        let idx = match find_player(players, pid) {
            Some(idx) => idx,
            None => {
                proof {
                    assert(unknown_ids(players@, player_events@).contains(pid));
                }
                let msg = String::from_str("Player with id ").concat(usize_text(pid).as_str());
                return Err(msg.concat(" not found"));
            },
        };
        proof {
            crate::terminal::lemma_first_index(players@, pid);
        }
        assert(idx < players@.len());
        let row_len = row.len();
        assert(idx + 1 < row_len);
        let marks = marks_of(player_events.get(&pid).unwrap());
        let ghost before = row@;
        row.set(idx + 1, marks);
        assert(row@ == before.update(idx + 1, marks));
        proof {
            assert forall|i: int|
                1 <= i <= players@.len() implies #[trigger] row@[i]@ == {
                    let id = players@[i - 1].id;
                    if first_index(players@, id) == Some(i - 1) && keys@.take(n as int + 1).contains(id) {
                        answer_marks(player_events@[id]@)
                    } else {
                        Seq::<char>::empty()
                    }
                } by {
                let id = players@[i - 1].id;
                if id != pid && keys@.take(n as int + 1).contains(id) {
                    let t1 = keys@.take(n as int + 1);
                    let j = choose|j: int| 0 <= j < t1.len() && t1[j] == id;
                    assert(keys@.take(n as int)[j] == id);
                }
                if id != pid && keys@.take(n as int).contains(id) {
                    let t0 = keys@.take(n as int);
                    let j = choose|j: int| 0 <= j < t0.len() && t0[j] == id;
                    assert(keys@.take(n as int + 1)[j] == id);
                }
                if id == pid {
                    assert(keys@.take(n as int + 1)[n as int] == pid);
                }
            }
        }
        n += 1;
    }
    proof {
        assert(keys@.take(keys@.len() as int) == keys@);
        assert(unknown_ids(players@, player_events@).is_empty()) by {
            assert forall|k: PlayerId| !unknown_ids(players@, player_events@).contains(k) by {
                if player_events@.contains_key(k) {
                    assert(keys@.to_set().contains(k));
                    let j = choose|j: int| 0 <= j < keys@.len() && keys@[j] == k;
                    assert(first_index(players@, keys@[j]) is Some);
                }
            }
        }
    }
    Ok(row)
}

/// Whether `ranked` lists every player with a finishing rank, once, with that
/// rank, from the best rank down. Players with equal ranks may come in any
/// order.
pub open spec fn is_ranking(statuses: Map<PlayerId, PlayerStatus>, ranked: Seq<(PlayerId, u32)>) -> bool {
    &&& forall|i: int|
        0 <= i < ranked.len() ==> statuses.contains_key(#[trigger] ranked[i].0)
            && statuses[ranked[i].0].finish_rank == Some(ranked[i].1)
    &&& forall|k: PlayerId|
        #[trigger] statuses.contains_key(k) && statuses[k].finish_rank is Some ==> exists|i: int|
            0 <= i < ranked.len() && #[trigger] ranked[i].0 == k
    &&& forall|i: int, j: int| 0 <= i < j < ranked.len() ==> ranked[i].0 != ranked[j].0
    &&& forall|i: int, j: int| 0 <= i < j < ranked.len() ==> ranked[i].1 <= ranked[j].1
}

/// The players with a finishing rank, ordered by rank.
pub fn ranking(statuses: &HashMap<PlayerId, PlayerStatus>) -> (ranked: Vec<(PlayerId, u32)>)
    ensures
        is_ranking(statuses@, ranked@),
{
    let keys = crate::keys::map_keys(statuses);
    let mut ranked: Vec<(PlayerId, u32)> = Vec::new();
    let mut n: usize = 0;
    while n < keys.len()
        invariant
            n <= keys@.len(),
            keys@.no_duplicates(),
            keys@.to_set() == statuses@.dom(),
            forall|i: int|
                0 <= i < ranked@.len() ==> statuses@.contains_key(#[trigger] ranked@[i].0)
                    && statuses@[ranked@[i].0].finish_rank == Some(ranked@[i].1)
                    && keys@.take(n as int).contains(ranked@[i].0),
            forall|k: PlayerId|
                #[trigger] keys@.take(n as int).contains(k) && statuses@[k].finish_rank is Some
                    ==> exists|i: int| 0 <= i < ranked@.len() && #[trigger] ranked@[i].0 == k,
            forall|i: int, j: int| 0 <= i < j < ranked@.len() ==> ranked@[i].0 != ranked@[j].0,
            forall|i: int, j: int| 0 <= i < j < ranked@.len() ==> ranked@[i].1 <= ranked@[j].1,
        decreases keys@.len() - n,
    {
        let pid = keys[n];
        assert(keys@.to_set().contains(pid)) by {
            assert(keys@.contains(pid));
        }
        assert(!keys@.take(n as int).contains(pid)) by {
            if keys@.take(n as int).contains(pid) {
                let t0 = keys@.take(n as int);
                let j = choose|j: int| 0 <= j < t0.len() && t0[j] == pid;
                assert(keys@[j] == pid);
            }
        }
        assert(keys@.take(n as int + 1) == keys@.take(n as int).push(pid));
        let status = statuses.get(&pid).unwrap();
        if let Some(rank) = status.finish_rank {
            // the place after every entry ranked no worse
            let mut p: usize = 0;
            while p < ranked.len() && ranked[p].1 <= rank
                invariant
                    p <= ranked@.len(),
                    forall|i: int| 0 <= i < p ==> #[trigger] ranked@[i].1 <= rank,
                decreases ranked@.len() - p,
            {
                p += 1;
            }
            proof {
                if p < ranked@.len() {
                    assert forall|i: int| p <= i < ranked@.len() implies rank < #[trigger] ranked@[i].1 by {
                        if i > p {
                            assert(ranked@[p as int].1 <= ranked@[i].1);
                        }
                    }
                }
            }
            let ghost before = ranked@;
            ranked.insert(p, (pid, rank));
            proof {
                assert forall|i: int| 0 <= i < ranked@.len() implies #[trigger] ranked@[i] == if i < p {
                    before[i]
                } else if i == p {
                    (pid, rank)
                } else {
                    before[i - 1]
                } by {}
                assert forall|i: int|
                    0 <= i < ranked@.len() implies statuses@.contains_key(#[trigger] ranked@[i].0)
                        && statuses@[ranked@[i].0].finish_rank == Some(ranked@[i].1)
                        && keys@.take(n as int + 1).contains(ranked@[i].0) by {
                    if i == p {
                        assert(keys@.take(n as int + 1)[n as int] == pid);
                    } else {
                        let e = if i < p { before[i] } else { before[i - 1] };
                        assert(keys@.take(n as int).contains(e.0));
                        let t0 = keys@.take(n as int);
                        let j = choose|j: int| 0 <= j < t0.len() && t0[j] == e.0;
                        assert(keys@.take(n as int + 1)[j] == e.0);
                    }
                }
                assert forall|k: PlayerId|
                    #[trigger] keys@.take(n as int + 1).contains(k) && statuses@[k].finish_rank is Some
                        implies exists|i: int| 0 <= i < ranked@.len() && #[trigger] ranked@[i].0 == k by {
                    if k == pid {
                        assert(ranked@[p as int].0 == k);
                    } else {
                        let t1 = keys@.take(n as int + 1);
                        let j = choose|j: int| 0 <= j < t1.len() && t1[j] == k;
                        assert(keys@.take(n as int)[j] == k);
                        assert(keys@.take(n as int).contains(k));
                        let i0 = choose|i0: int| 0 <= i0 < before.len() && #[trigger] before[i0].0 == k;
                        if i0 < p {
                            assert(ranked@[i0].0 == k);
                        } else {
                            assert(ranked@[i0 + 1].0 == k);
                        }
                    }
                }
                assert forall|i: int, j: int| 0 <= i < j < ranked@.len() implies ranked@[i].0 != ranked@[j].0 by {
                    if i == p {
                        assert(keys@.take(n as int).contains(before[j - 1].0));
                    } else if j == p {
                        assert(keys@.take(n as int).contains(before[i].0));
                    }
                }
            }
        } else {
            proof {
                assert forall|i: int|
                    0 <= i < ranked@.len() implies statuses@.contains_key(#[trigger] ranked@[i].0)
                        && statuses@[ranked@[i].0].finish_rank == Some(ranked@[i].1)
                        && keys@.take(n as int + 1).contains(ranked@[i].0) by {
                    let t0 = keys@.take(n as int);
                    let j = choose|j: int| 0 <= j < t0.len() && t0[j] == ranked@[i].0;
                    assert(keys@.take(n as int + 1)[j] == ranked@[i].0);
                }
                assert forall|k: PlayerId|
                    #[trigger] keys@.take(n as int + 1).contains(k) && statuses@[k].finish_rank is Some
                        implies exists|i: int| 0 <= i < ranked@.len() && #[trigger] ranked@[i].0 == k by {
                    let t1 = keys@.take(n as int + 1);
                    let j = choose|j: int| 0 <= j < t1.len() && t1[j] == k;
                    if j == n {
                        assert(k == pid);
                    } else {
                        assert(keys@.take(n as int)[j] == k);
                        assert(keys@.take(n as int).contains(k));
                    }
                }
            }
        }
        n += 1;
    }
    proof {
        assert(keys@.take(keys@.len() as int) == keys@);
        assert forall|k: PlayerId|
            #[trigger] statuses@.contains_key(k) && statuses@[k].finish_rank is Some implies exists|i: int|
                0 <= i < ranked@.len() && #[trigger] ranked@[i].0 == k by {
            assert(keys@.to_set().contains(k));
        }
    }
    ranked
}

/// The record of the next round's player list for one player: id, name,
/// affiliation and grade, with the empty text for what is missing.
pub fn next_round_record(p: &Player) -> (record: Vec<String>)
    ensures
        record@.len() == 4,
        record@[0]@ == decimal_text(p.id as nat),
        record@[1]@ == p.name@,
        record@[2]@ == text_or_empty(opt_text(p.affiliation)),
        record@[3]@ == text_or_empty(opt_text(p.grade)),
{
    let mut record: Vec<String> = Vec::new();
    record.push(usize_text(p.id));
    record.push(p.name.clone());
    record.push(text_or_default(&p.affiliation));
    record.push(text_or_default(&p.grade));
    record
}

/// The header of the next round's player list.
pub fn next_round_header() -> (header: Vec<String>)
    ensures
        header@.len() == 4,
        header@[0]@ == "id"@,
        header@[1]@ == "name"@,
        header@[2]@ == "affiliation"@,
        header@[3]@ == "grade"@,
{
    let mut header: Vec<String> = Vec::new();
    header.push(String::from_str("id"));
    header.push(String::from_str("name"));
    header.push(String::from_str("affiliation"));
    header.push(String::from_str("grade"));
    header
}

} // verus!
