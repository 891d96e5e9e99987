//! Choosing an action from the scores a decision function gave.
//!
//! An agent looks in eight directions, numbered row by row from the top left
//! with its own cell left out. Toward an empty cell it may move, reproduce or
//! heal; toward a cell with an agent on it, attack or heal. Each such pair of
//! a direction and an action is a candidate, scored by the decision function.
//! The candidates are ranked by direction and, within a direction, by the
//! output that scores them. The agent takes the first candidate among those
//! with the highest score, provided that score is above zero; otherwise it
//! heals.

use vstd::prelude::*;
use crate::bot::Action;
use crate::field::Sighting;

verus! {

/// Nothing stands on the observed cell.
pub open spec fn vacant(cell: Sighting) -> bool {
    cell.0 == 0
}

/// An agent stands on the observed cell.
pub open spec fn inhabited(cell: Sighting) -> bool {
    cell.0 == 1 && cell.1 is Some
}

/// The decision function is asked about the observed cell: it is on the
/// board.
pub open spec fn consulted(cell: Sighting) -> bool {
    vacant(cell) || inhabited(cell)
}

/// The action that output `k` of a decision function scores.
pub open spec fn action_of(k: int) -> Action {
    if k == 0 {
        Action::Move
    } else if k == 1 {
        Action::Reproduction
    } else if k == 2 {
        Action::Attack
    } else {
        Action::Heal
    }
}

/// Whether the action scored by output `k` can be taken toward `cell`.
pub open spec fn open_to(cell: Sighting, k: int) -> bool {
    ||| vacant(cell) && (k == 0 || k == 1 || k == 3)
    ||| inhabited(cell) && (k == 2 || k == 3)
}

/// Whether direction `d` with the action of output `k` is a candidate.
pub open spec fn candidate(around: Seq<Sighting>, d: int, k: int) -> bool {
    0 <= d < 8 && 0 <= k < 4 && open_to(around[d], k)
}

/// Whether the candidate `(d, k)` wins: its score is above zero, no candidate
/// scores higher, and every candidate ranked before it scores lower.
pub open spec fn wins(around: Seq<Sighting>, scores: Seq<[i64; 4]>, d: int, k: int) -> bool {
    &&& candidate(around, d, k)
    &&& scores[d][k] > 0
    &&& forall|e: int, m: int| #[trigger] candidate(around, e, m) ==> scores[e][m] <= scores[d][k]
    &&& forall|e: int, m: int|
        #[trigger] candidate(around, e, m) && 4 * e + m < 4 * d + k ==> scores[e][m] < scores[d][k]
}

/// The direction and action an agent takes: those of the winning candidate,
/// or healing, with direction `0`, where no candidate wins.
pub open spec fn select(around: Seq<Sighting>, scores: Seq<[i64; 4]>) -> (u8, Action) {
    if exists|d: int, k: int| wins(around, scores, d, k) {
        let (d, k) = choose|d: int, k: int| wins(around, scores, d, k);
        (d as u8, action_of(k))
    } else {
        (0u8, Action::Heal)
    }
}

/// At most one candidate wins.
pub proof fn lemma_winner_is_unique(
    around: Seq<Sighting>,
    scores: Seq<[i64; 4]>,
    d: int,
    k: int,
    e: int,
    m: int,
)
    requires
        wins(around, scores, d, k),
        wins(around, scores, e, m),
    ensures
        d == e,
        k == m,
{
    if 4 * e + m < 4 * d + k {
    } else if 4 * d + k < 4 * e + m {
    }
}

/// Where a candidate wins, `select` returns it.
pub proof fn lemma_select_winner(around: Seq<Sighting>, scores: Seq<[i64; 4]>, d: int, k: int)
    requires
        wins(around, scores, d, k),
    ensures
        select(around, scores) == (d as u8, action_of(k)),
{
    let (e, m) = choose|e: int, m: int| wins(around, scores, e, m);
    lemma_winner_is_unique(around, scores, d, k, e, m);
}

/// What `select` returns means what the module says: either a candidate wins
/// and is returned, or no candidate scores above zero and the agent heals.
pub proof fn lemma_select_meaning(around: Seq<Sighting>, scores: Seq<[i64; 4]>)
    requires
        around.len() == 8,
        scores.len() == 8,
    ensures
        ({
            let choice = select(around, scores);
            ||| exists|k: int| wins(around, scores, choice.0 as int, k) && choice.1 == action_of(k)
            ||| choice == (0u8, Action::Heal) && forall|d: int, k: int|
                #[trigger] candidate(around, d, k) ==> scores[d][k] <= 0
        }),
{
    if exists|d: int, k: int| wins(around, scores, d, k) {
        let (d, k) = choose|d: int, k: int| wins(around, scores, d, k);
    } else {
        lemma_no_winner(around, scores);
    }
}

/// Where no candidate wins, none scores above zero.
proof fn lemma_no_winner(around: Seq<Sighting>, scores: Seq<[i64; 4]>)
    requires
        !exists|d: int, k: int| wins(around, scores, d, k),
    ensures
        forall|d: int, k: int| #[trigger] candidate(around, d, k) ==> scores[d][k] <= 0,
{
    let lead = lemma_running_best(around, scores, 32);
    if lead.0 > 0 {
        assert(wins(around, scores, lead.1, lead.2));
    }
}

/// The best score among the candidates ranked below `p`, and the first
/// candidate that reaches it; `0` where none of them scores above zero.
proof fn lemma_running_best(around: Seq<Sighting>, scores: Seq<[i64; 4]>, p: int) -> (lead: (
    int,
    int,
    int,
))
    requires
        0 <= p <= 32,
    ensures
        forall|e: int, m: int|
            #[trigger] candidate(around, e, m) && 4 * e + m < p ==> scores[e][m] <= lead.0,
        lead.0 == 0 || {
            &&& lead.0 > 0
            &&& candidate(around, lead.1, lead.2)
            &&& scores[lead.1][lead.2] == lead.0
            &&& 4 * lead.1 + lead.2 < p
            &&& forall|e: int, m: int|
                #[trigger] candidate(around, e, m) && 4 * e + m < 4 * lead.1 + lead.2
                    ==> scores[e][m] < lead.0
        },
    decreases p,
{
    if p == 0 {
        (0, 0, 0)
    } else {
        let prev = lemma_running_best(around, scores, p - 1);
        let d = (p - 1) / 4;
        let k = (p - 1) % 4;
        if candidate(around, d, k) && scores[d][k] > prev.0 {
            (scores[d][k] as int, d, k)
        } else {
            prev
        }
    }
}

/// An agent whose decision function scores no candidate above zero heals,
/// with direction `0`.
pub proof fn lemma_default_action(around: Seq<Sighting>, scores: Seq<[i64; 4]>)
    requires
        around.len() == 8,
        scores.len() == 8,
        forall|d: int, k: int| #[trigger] candidate(around, d, k) ==> scores[d][k] <= 0,
    ensures
        select(around, scores) == (0u8, Action::Heal),
{
}

/// Of two directions that the decision function scores alike, the later one
/// is never taken, provided that every action open toward it is open toward
/// the earlier one as well.
pub proof fn lemma_tie_break(around: Seq<Sighting>, scores: Seq<[i64; 4]>, i: int, j: int)
    requires
        around.len() == 8,
        scores.len() == 8,
        0 <= i < j < 8,
        forall|k: int| 0 <= k < 4 ==> scores[i][k] == scores[j][k],
        forall|k: int| 0 <= k < 4 && open_to(around[j], k) ==> open_to(around[i], k),
    ensures
        select(around, scores).0 != j,
{
    if exists|d: int, k: int| wins(around, scores, d, k) {
        let (d, k) = choose|d: int, k: int| wins(around, scores, d, k);
        if d == j {
            assert(candidate(around, i, k));
        }
    }
}

/// An agent only moves or reproduces toward an empty cell, and only attacks
/// a cell with an agent on it; the direction it takes is one of the eight.
pub proof fn lemma_action_fits_sight(around: Seq<Sighting>, scores: Seq<[i64; 4]>)
    requires
        around.len() == 8,
        scores.len() == 8,
    ensures
        ({
            let choice = select(around, scores);
            &&& choice.0 < 8
            &&& choice.1 == Action::Move || choice.1 == Action::Reproduction ==> vacant(
                around[choice.0 as int],
            )
            &&& choice.1 == Action::Attack ==> inhabited(around[choice.0 as int])
        }),
{
}

/// Chooses the direction and the action of an agent from what it sees in
/// each of the eight directions and the scores its decision function gave
/// for each.
pub fn select_action(around: &Vec<Sighting>, scores: &Vec<[i64; 4]>) -> (choice: (u8, Action))
    requires
        around.len() == 8,
        scores.len() == 8,
    ensures
        choice == select(around@, scores@),
{
    let mut best: i64 = 0;
    let mut direction: u8 = 0;
    let mut action = Action::Heal;
    let ghost mut lead: int = 3;
    let mut d: u8 = 0;
    while d < 8
        invariant
            around.len() == 8,
            scores.len() == 8,
            d <= 8,
            ahead(around@, scores@, 4 * d, best as int, direction as int, lead, action),
        decreases 8 - d,
    {
        let cell = &around[d as usize];
        let row = &scores[d as usize];
        if cell.0 == 0 {
            if row[0] > best {
                best = row[0];
                direction = d;
                action = Action::Move;
                proof {
                    lead = 0;
                }
            }
            if row[1] > best {
                best = row[1];
                direction = d;
                action = Action::Reproduction;
                proof {
                    lead = 1;
                }
            }
            if row[3] > best {
                best = row[3];
                direction = d;
                action = Action::Heal;
                proof {
                    lead = 3;
                }
            }
        } else if cell.0 == 1 && cell.1.is_some() {
            if row[2] > best {
                best = row[2];
                direction = d;
                action = Action::Attack;
                proof {
                    lead = 2;
                }
            }
            if row[3] > best {
                best = row[3];
                direction = d;
                action = Action::Heal;
                proof {
                    lead = 3;
                }
            }
        }
        d = d + 1;
    }
    proof {
        if best > 0 {
            lemma_select_winner(around@, scores@, direction as int, lead);
        } else {
            assert(forall|e: int, m: int| !wins(around@, scores@, e, m));
        }
    }
    (direction, action)
}

/// The state of the scan in `select_action` once every candidate ranked
/// below `limit` has been looked at: `best` is the highest score seen, or
/// `0` if none was above zero, and `(direction, lead)` is the first candidate
/// that reached it.
spec fn ahead(
    around: Seq<Sighting>,
    scores: Seq<[i64; 4]>,
    limit: int,
    best: int,
    direction: int,
    lead: int,
    action: Action,
) -> bool {
    &&& forall|e: int, m: int|
        #[trigger] candidate(around, e, m) && 4 * e + m < limit ==> scores[e][m] <= best
    &&& action == action_of(lead)
    &&& if best > 0 {
        &&& candidate(around, direction, lead)
        &&& scores[direction][lead] == best
        &&& 4 * direction + lead < limit
        &&& forall|e: int, m: int|
            #[trigger] candidate(around, e, m) && 4 * e + m < 4 * direction + lead ==> scores[e][m]
                < best
    } else {
        best == 0 && direction == 0 && lead == 3
    }
}

} // verus!
