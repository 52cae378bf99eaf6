use std::collections::HashMap;
use vstd::prelude::*;

use crate::data::{Player, PlayerId, PlayerStatus};
use crate::loader::{is_ranking, ranking};
use crate::terminal::{find_player, first_index};

verus! {

/// The positions in the player list of the ranked players who advance, best
/// rank first, until `count` are picked; ranked ids that no listed player has
/// are passed over.
pub open spec fn ranked_picks(ranked: Seq<(PlayerId, u32)>, players: Seq<Player>, count: nat) -> Seq<int>
    decreases ranked.len(),
{
    if ranked.len() == 0 {
        Seq::empty()
    } else {
        let prev = ranked_picks(ranked.drop_last(), players, count);
        if prev.len() >= count {
            prev
        } else {
            match first_index(players, ranked.last().0) {
                Some(i) => prev.push(i),
                None => prev,
            }
        }
    }
}

/// Whether one of the picked players has the given id.
pub open spec fn picked_id(players: Seq<Player>, picks: Seq<int>, id: PlayerId) -> bool {
    exists|t: int| 0 <= t < picks.len() && #[trigger] players[picks[t]].id == id
}

/// The picks topped up, in list order, with the first `upto` listed players
/// whose id is not picked yet, until `count` are picked.
pub open spec fn filled_picks(players: Seq<Player>, count: nat, picks: Seq<int>, upto: nat) -> Seq<int>
    decreases upto,
{
    if upto == 0 {
        picks
    } else {
        let prev = filled_picks(players, count, picks, (upto - 1) as nat);
        if prev.len() >= count || picked_id(players, prev, players[upto - 1].id) {
            prev
        } else {
            prev.push(upto - 1)
        }
    }
}

/// The positions in the player list of the players who advance to the next
/// round: the best ranked first, then the others in list order.
pub open spec fn advancing_picks(ranked: Seq<(PlayerId, u32)>, players: Seq<Player>, count: nat) -> Seq<int> {
    filled_picks(players, count, ranked_picks(ranked, players, count), players.len())
}

proof fn lemma_ranked_picks_settle(ranked: Seq<(PlayerId, u32)>, players: Seq<Player>, count: nat, j: int)
    requires
        0 <= j <= ranked.len(),
        ranked_picks(ranked.take(j), players, count).len() >= count,
    ensures
        ranked_picks(ranked, players, count) == ranked_picks(ranked.take(j), players, count),
    decreases ranked.len(),
{
    if j < ranked.len() {
        assert(ranked.drop_last().take(j) == ranked.take(j));
        lemma_ranked_picks_settle(ranked.drop_last(), players, count, j);
    } else {
        assert(ranked.take(j) == ranked);
    }
}

proof fn lemma_filled_picks_settle(players: Seq<Player>, count: nat, picks: Seq<int>, j: nat, upto: nat)
    requires
        j <= upto,
        filled_picks(players, count, picks, j).len() >= count,
    ensures
        filled_picks(players, count, picks, upto) == filled_picks(players, count, picks, j),
    decreases upto,
{
    if j < upto {
        lemma_filled_picks_settle(players, count, picks, j, (upto - 1) as nat);
    }
}

/// Whether any of the selected players has the given id.
fn has_player_id(selected: &Vec<Player>, id: PlayerId) -> (r: bool)
    ensures
        r == exists|t: int| 0 <= t < selected@.len() && #[trigger] selected@[t].id == id,
{
    let mut t: usize = 0;
    while t < selected.len()
        invariant
            t <= selected@.len(),
            forall|u: int| 0 <= u < t ==> #[trigger] selected@[u].id != id,
        decreases selected@.len() - t,
    {
        if selected[t].id == id {
            return true;
        }
        t += 1;
    }
    false
}

/// The players who advance to the next round, given the ranking: the best
/// ranked first (ranked ids that no listed player has are passed over), then
/// the other listed players in list order, until `advance_count` are picked
/// or the list runs out.
pub fn select_advancing(ranked: &[(PlayerId, u32)], players: &[Player], advance_count: usize) -> (selected: Vec<Player>)
    ensures
        selected@.len() == advancing_picks(ranked@, players@, advance_count as nat).len(),
        forall|t: int|
            0 <= t < selected@.len() ==> #[trigger] selected@[t]@ == players@[advancing_picks(
                ranked@,
                players@,
                advance_count as nat,
            )[t]]@,
{
    let ghost count = advance_count as nat;
    let mut selected: Vec<Player> = Vec::new();
    let mut i: usize = 0;
    while i < ranked.len() && selected.len() < advance_count
        invariant
            count == advance_count as nat,
            i <= ranked@.len(),
            selected@.len() == ranked_picks(ranked@.take(i as int), players@, count).len(),
            forall|t: int|
                0 <= t < selected@.len() ==> #[trigger] selected@[t]@ == players@[ranked_picks(
                    ranked@.take(i as int),
                    players@,
                    count,
                )[t]]@,
        decreases ranked@.len() - i,
    {
        let pid = ranked[i].0;
        let ghost prev = ranked_picks(ranked@.take(i as int), players@, count);
        assert(ranked@.take(i as int + 1).drop_last() == ranked@.take(i as int));
        assert(ranked@.take(i as int + 1).last() == ranked@[i as int]);
        proof {
            crate::terminal::lemma_first_index(players@, pid);
        }
        if let Some(idx) = find_player(players, pid) {
            let p = players[idx].clone();
            let ghost old_sel = selected@;
            let ghost pv = p@;
            selected.push(p);
            assert(ranked_picks(ranked@.take(i as int + 1), players@, count) == prev.push(idx as int));
            assert forall|t: int| 0 <= t < selected@.len() implies #[trigger] selected@[t]@ == players@[prev.push(idx as int)[t]]@ by {
                if t < prev.len() {
                    assert(prev.push(idx as int)[t] == prev[t]);
                    assert(selected@[t] == old_sel[t]);
                    assert(old_sel[t]@ == players@[prev[t]]@);
                } else {
                    assert(selected@[t] == selected@[old_sel.len() as int]);
                    assert(selected@[t]@ == pv);
                }
            }
        } else {
            assert(ranked_picks(ranked@.take(i as int + 1), players@, count) == prev);
            assert forall|t: int| 0 <= t < selected@.len() implies #[trigger] selected@[t]@ == players@[prev[t]]@ by {}
        }
        i += 1;
    }
    proof {
        if i < ranked@.len() {
            lemma_ranked_picks_settle(ranked@, players@, count, i as int);
        } else {
            assert(ranked@.take(i as int) == ranked@);
        }
    }
    let ghost base = ranked_picks(ranked@, players@, count);
    let mut j: usize = 0;
    while j < players.len() && selected.len() < advance_count
        invariant
            count == advance_count as nat,
            j <= players@.len(),
            base == ranked_picks(ranked@, players@, count),
            selected@.len() == filled_picks(players@, count, base, j as nat).len(),
            forall|t: int|
                0 <= t < selected@.len() ==> #[trigger] selected@[t]@ == players@[filled_picks(
                    players@,
                    count,
                    base,
                    j as nat,
                )[t]]@,
        decreases players@.len() - j,
    {
        let ghost prev = filled_picks(players@, count, base, j as nat);
        let id = players[j].id;
        let taken = has_player_id(&selected, id);
        proof {
            if taken {
                let t = choose|t: int| 0 <= t < selected@.len() && #[trigger] selected@[t].id == id;
                assert(selected@[t]@.id == players@[prev[t]]@.id);
                assert(players@[prev[t]].id == id);
            }
            if picked_id(players@, prev, id) {
                let t = choose|t: int| 0 <= t < prev.len() && #[trigger] players@[prev[t]].id == id;
                assert(selected@[t]@.id == players@[prev[t]]@.id);
                assert(selected@[t].id == id);
            }
        }
        assert(taken == picked_id(players@, prev, id));
        if !taken {
            let p = players[j].clone();
            let ghost old_sel = selected@;
            let ghost pv = p@;
            selected.push(p);
            assert(filled_picks(players@, count, base, (j + 1) as nat) == prev.push(j as int));
            assert forall|t: int| 0 <= t < selected@.len() implies #[trigger] selected@[t]@ == players@[prev.push(j as int)[t]]@ by {
                if t < prev.len() {
                    assert(prev.push(j as int)[t] == prev[t]);
                    assert(selected@[t] == old_sel[t]);
                    assert(old_sel[t]@ == players@[prev[t]]@);
                } else {
                    assert(selected@[t] == selected@[old_sel.len() as int]);
                    assert(selected@[t]@ == pv);
                }
            }
        } else {
            assert(filled_picks(players@, count, base, (j + 1) as nat) == prev);
            assert forall|t: int| 0 <= t < selected@.len() implies #[trigger] selected@[t]@ == players@[prev[t]]@ by {}
        }
        j += 1;
    }
    proof {
        if j < players@.len() {
            lemma_filled_picks_settle(players@, count, base, j as nat, players@.len());
        }
    }
    selected
}

/// The players who advance to the next round: the ranking of the statuses
/// decides the first of them, the list order the rest.
pub fn next_round_players(
    players: &[Player],
    statuses: &HashMap<PlayerId, PlayerStatus>,
    advance_count: usize,
) -> (selected: Vec<Player>)
    ensures
        exists|ranked: Seq<(PlayerId, u32)>|
            {
                &&& is_ranking(statuses@, ranked)
                &&& selected@.len() == advancing_picks(ranked, players@, advance_count as nat).len()
                &&& forall|t: int|
                    0 <= t < selected@.len() ==> #[trigger] selected@[t]@ == players@[advancing_picks(
                        ranked,
                        players@,
                        advance_count as nat,
                    )[t]]@
            },
{
    let ranked = ranking(statuses);
    let selected = select_advancing(ranked.as_slice(), players, advance_count);
    assert(is_ranking(statuses@, ranked@));
    selected
}

/// Whether picked positions are in the list, hold different ids, and are
/// no more than `count`.
pub open spec fn sound_picks(players: Seq<Player>, picks: Seq<int>, count: nat) -> bool {
    &&& picks.len() <= count
    &&& forall|t: int| 0 <= t < picks.len() ==> 0 <= #[trigger] picks[t] < players.len()
    &&& forall|t1: int, t2: int|
        0 <= t1 < t2 < picks.len() ==> players[#[trigger] picks[t1]].id != players[#[trigger] picks[t2]].id
}

/// Whether the ids of a ranking are all different.
pub open spec fn distinct_ranked_ids(ranked: Seq<(PlayerId, u32)>) -> bool {
    forall|i: int, j: int| 0 <= i < j < ranked.len() ==> #[trigger] ranked[i].0 != #[trigger] ranked[j].0
}

proof fn lemma_ranked_picks_sound(ranked: Seq<(PlayerId, u32)>, players: Seq<Player>, count: nat)
    requires
        distinct_ranked_ids(ranked),
    ensures
        sound_picks(players, ranked_picks(ranked, players, count), count),
        forall|t: int|
            0 <= t < ranked_picks(ranked, players, count).len() ==> exists|i: int|
                0 <= i < ranked.len() && #[trigger] players[ranked_picks(ranked, players, count)[t]].id
                    == ranked[i].0,
    decreases ranked.len(),
{
    if ranked.len() > 0 {
        let r = ranked.drop_last();
        assert(distinct_ranked_ids(r)) by {
            assert forall|i: int, j: int| 0 <= i < j < r.len() implies #[trigger] r[i].0 != #[trigger] r[j].0 by {
                assert(r[i] == ranked[i] && r[j] == ranked[j]);
            }
        }
        lemma_ranked_picks_sound(r, players, count);
        crate::terminal::lemma_first_index(players, ranked.last().0);
        let prev = ranked_picks(r, players, count);
        let picks = ranked_picks(ranked, players, count);
        if prev.len() < count {
            if let Some(i) = first_index(players, ranked.last().0) {
                assert(picks == prev.push(i));
                assert forall|t: int| 0 <= t < prev.len() implies players[#[trigger] prev[t]].id != ranked.last().0 by {
                    let i0 = choose|i0: int| 0 <= i0 < r.len() && #[trigger] players[prev[t]].id == r[i0].0;
                    assert(r[i0] == ranked[i0]);
                    assert(ranked[i0].0 != ranked[ranked.len() - 1].0);
                }
                assert forall|t1: int, t2: int|
                    0 <= t1 < t2 < picks.len() implies players[#[trigger] picks[t1]].id != players[#[trigger] picks[t2]].id by {
                    if t2 == prev.len() {
                        assert(picks[t1] == prev[t1]);
                    } else {
                        assert(picks[t1] == prev[t1] && picks[t2] == prev[t2]);
                    }
                }
                assert forall|t: int| 0 <= t < picks.len() implies exists|i: int|
                    0 <= i < ranked.len() && #[trigger] players[picks[t]].id == ranked[i].0 by {
                    if t < prev.len() {
                        assert(picks[t] == prev[t]);
                        let i0 = choose|i0: int| 0 <= i0 < r.len() && #[trigger] players[prev[t]].id == r[i0].0;
                        assert(r[i0] == ranked[i0]);
                    } else {
                        assert(players[picks[t]].id == ranked[ranked.len() - 1].0);
                    }
                }
            }
        }
        if picks == prev {
            assert forall|t: int| 0 <= t < picks.len() implies exists|i: int|
                0 <= i < ranked.len() && #[trigger] players[picks[t]].id == ranked[i].0 by {
                let i0 = choose|i0: int| 0 <= i0 < r.len() && #[trigger] players[prev[t]].id == r[i0].0;
                assert(r[i0] == ranked[i0]);
            }
        }
    }
}

proof fn lemma_filled_picks_sound(players: Seq<Player>, count: nat, base: Seq<int>, upto: nat)
    requires
        sound_picks(players, base, count),
        upto <= players.len(),
    ensures
        sound_picks(players, filled_picks(players, count, base, upto), count),
        base.len() <= filled_picks(players, count, base, upto).len(),
        forall|t: int| 0 <= t < base.len() ==> #[trigger] filled_picks(players, count, base, upto)[t] == base[t],
        forall|j: int|
            0 <= j < upto ==> filled_picks(players, count, base, upto).len() >= count || picked_id(
                players,
                filled_picks(players, count, base, upto),
                #[trigger] players[j].id,
            ),
    decreases upto,
{
    if upto > 0 {
        let u = (upto - 1) as nat;
        lemma_filled_picks_sound(players, count, base, u);
        let prev = filled_picks(players, count, base, u);
        let picks = filled_picks(players, count, base, upto);
        let id = players[u as int].id;
        if !(prev.len() >= count || picked_id(players, prev, id)) {
            assert(picks == prev.push(u as int));
            assert forall|t1: int, t2: int|
                0 <= t1 < t2 < picks.len() implies players[#[trigger] picks[t1]].id != players[#[trigger] picks[t2]].id by {
                assert(picks[t1] == prev[t1]);
                if t2 < prev.len() {
                    assert(picks[t2] == prev[t2]);
                } else {
                    assert(players[prev[t1]].id != id);
                }
            }
            assert forall|t: int| 0 <= t < base.len() implies #[trigger] picks[t] == base[t] by {
                assert(picks[t] == prev[t]);
            }
            assert forall|j: int| 0 <= j < upto implies picks.len() >= count || picked_id(
                players,
                picks,
                #[trigger] players[j].id,
            ) by {
                if j < u {
                    if prev.len() < count {
                        let t = choose|t: int| 0 <= t < prev.len() && #[trigger] players[prev[t]].id == players[j].id;
                        assert(picks[t] == prev[t]);
                    }
                } else {
                    assert(picks[prev.len() as int] == u);
                }
            }
        } else {
            assert(picks == prev);
            assert forall|j: int| 0 <= j < upto implies picks.len() >= count || picked_id(
                players,
                picks,
                #[trigger] players[j].id,
            ) by {
                if j == u {
                } 
            }
        }
    }
}

/// The players chosen for the next round, given a ranking with different
/// ids: no more than `count` of them, all from the list, no id twice; the
/// ranked players come first, in rank order; and when fewer than `count` are
/// chosen, every listed id is among them.
pub proof fn law_advancing_players(ranked: Seq<(PlayerId, u32)>, players: Seq<Player>, count: nat)
    requires
        distinct_ranked_ids(ranked),
    ensures
        sound_picks(players, advancing_picks(ranked, players, count), count),
        forall|t: int|
            0 <= t < ranked_picks(ranked, players, count).len() ==> #[trigger] advancing_picks(
                ranked,
                players,
                count,
            )[t] == ranked_picks(ranked, players, count)[t],
        advancing_picks(ranked, players, count).len() < count ==> forall|j: int|
            0 <= j < players.len() ==> picked_id(
                players,
                advancing_picks(ranked, players, count),
                #[trigger] players[j].id,
            ),
{
    lemma_ranked_picks_sound(ranked, players, count);
    lemma_filled_picks_sound(players, count, ranked_picks(ranked, players, count), players.len());
}

/// Whether some listed player has the given id.
pub open spec fn listed(players: Seq<Player>, id: PlayerId) -> bool {
    exists|j: int| 0 <= j < players.len() && #[trigger] players[j].id == id
}

/// Whether the id is one of the first `i` ids of the ranking.
pub open spec fn ranked_above(ranked: Seq<(PlayerId, u32)>, id: PlayerId, i: int) -> bool {
    exists|i2: int| 0 <= i2 < i && #[trigger] ranked[i2] == (id, ranked[i2].1)
}

proof fn lemma_ranked_picks_complete(ranked: Seq<(PlayerId, u32)>, players: Seq<Player>, count: nat, i: int)
    requires
        distinct_ranked_ids(ranked),
        0 <= i < ranked.len(),
        listed(players, ranked[i].0),
        !picked_id(players, ranked_picks(ranked, players, count), ranked[i].0),
    ensures
        ranked_picks(ranked, players, count).len() >= count,
        forall|t: int|
            0 <= t < ranked_picks(ranked, players, count).len() ==> ranked_above(
                ranked,
                players[#[trigger] ranked_picks(ranked, players, count)[t]].id,
                i,
            ),
    decreases ranked.len(),
{
    let r = ranked.drop_last();
    let prev = ranked_picks(r, players, count);
    let picks = ranked_picks(ranked, players, count);
    let id = ranked[i].0;
    assert(distinct_ranked_ids(r)) by {
        assert forall|a: int, b: int| 0 <= a < b < r.len() implies #[trigger] r[a].0 != #[trigger] r[b].0 by {
            assert(r[a] == ranked[a] && r[b] == ranked[b]);
        }
    }
    crate::terminal::lemma_first_index(players, ranked.last().0);
    assert forall|t: int| 0 <= t < prev.len() implies #[trigger] picks[t] == prev[t] by {
        if prev.len() < count {
            if let Some(x) = first_index(players, ranked.last().0) {
                assert(picks == prev.push(x));
            }
        }
    }
    if i < r.len() {
        assert(r[i] == ranked[i]);
        if picked_id(players, prev, id) {
            let t = choose|t: int| 0 <= t < prev.len() && #[trigger] players[prev[t]].id == id;
            assert(picks[t] == prev[t]);
            assert(players[picks[t]].id == id);
        }
        lemma_ranked_picks_complete(r, players, count, i);
        assert(picks == prev);
        assert forall|t: int| 0 <= t < picks.len() implies ranked_above(
            ranked,
            players[#[trigger] picks[t]].id,
            i,
        ) by {
            assert(ranked_above(r, players[prev[t]].id, i));
            let i2 = choose|i2: int| 0 <= i2 < i && #[trigger] r[i2] == (players[prev[t]].id, r[i2].1);
            assert(r[i2] == ranked[i2]);
        }
    } else {
        let j = choose|j: int| 0 <= j < players.len() && #[trigger] players[j].id == id;
        assert(first_index(players, id) is Some);
        if prev.len() < count {
            let x = first_index(players, id)->0;
            assert(picks == prev.push(x));
            assert(players[picks[prev.len() as int]].id == id);
        }
        assert(picks == prev);
        lemma_ranked_picks_sound(r, players, count);
        assert forall|t: int| 0 <= t < picks.len() implies ranked_above(
            ranked,
            players[#[trigger] picks[t]].id,
            i,
        ) by {
            let i0 = choose|i0: int| 0 <= i0 < r.len() && #[trigger] players[prev[t]].id == r[i0].0;
            assert(r[i0] == ranked[i0]);
            assert(ranked[i0] == (players[picks[t]].id, ranked[i0].1));
        }
    }
}

/// Ranked players take the spots first, in rank order: a ranked player who
/// is on the list is left out of the next round only when all `count` spots
/// went to players ranked better than them.
pub proof fn law_ranked_players_first(ranked: Seq<(PlayerId, u32)>, players: Seq<Player>, count: nat)
    requires
        distinct_ranked_ids(ranked),
    ensures
        forall|i: int|
            0 <= i < ranked.len() && listed(players, ranked[i].0) && !picked_id(
                players,
                advancing_picks(ranked, players, count),
                #[trigger] ranked[i].0,
            ) ==> {
                &&& advancing_picks(ranked, players, count).len() == count
                &&& forall|t: int|
                    0 <= t < count ==> ranked_above(
                        ranked,
                        players[#[trigger] advancing_picks(ranked, players, count)[t]].id,
                        i,
                    )
            },
{
    let base = ranked_picks(ranked, players, count);
    let adv = advancing_picks(ranked, players, count);
    lemma_ranked_picks_sound(ranked, players, count);
    lemma_filled_picks_sound(players, count, base, players.len());
    assert forall|i: int|
        0 <= i < ranked.len() && listed(players, ranked[i].0) && !picked_id(
            players,
            adv,
            #[trigger] ranked[i].0,
        ) implies {
        &&& adv.len() == count
        &&& forall|t: int| 0 <= t < count ==> ranked_above(ranked, players[#[trigger] adv[t]].id, i)
    } by {
        let id = ranked[i].0;
        if picked_id(players, base, id) {
            let t = choose|t: int| 0 <= t < base.len() && #[trigger] players[base[t]].id == id;
            assert(adv[t] == base[t]);
            assert(players[adv[t]].id == id);
        }
        lemma_ranked_picks_complete(ranked, players, count, i);
        lemma_filled_picks_settle(players, count, base, 0, players.len());
        assert(adv == base);
    }
}

} // verus!
