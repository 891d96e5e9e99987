//! Rosters: the agents of a field, each with its cell, in the order in which
//! they take their turn.
//!
//! A tick first gathers what every agent proposes, a list of tentative
//! positions, and then commits the list: positions whose agent has run out of
//! energy are dropped, and of several positions on one cell the last one
//! written stays.

use vstd::prelude::*;
use crate::field::BotPosition;

verus! {

/// The position is on cell `(x, y)`.
pub open spec fn sits_at<B>(p: BotPosition<B>, x: int, y: int) -> bool {
    p.x == x && p.y == y
}

/// The agent of the position has energy left.
pub open spec fn alive<B>(p: BotPosition<B>) -> bool {
    p.bot.energy >= 0
}

/// The position is one a field of the given size can hold: on the board,
/// with energy left and an identity below ten thousand.
pub open spec fn fit<B>(p: BotPosition<B>, width: int, height: int) -> bool {
    &&& alive(p)
    &&& p.x < width
    &&& p.y < height
    &&& p.bot.id < 10000
}

/// The two positions are on the same cell.
pub open spec fn same_cell<B>(p: BotPosition<B>, q: BotPosition<B>) -> bool {
    p.x == q.x && p.y == q.y
}

/// No two positions of the roster share a cell.
pub open spec fn distinct<B>(roster: Seq<BotPosition<B>>) -> bool {
    forall|i: int, j: int|
        0 <= i < j < roster.len() ==> !same_cell(#[trigger] roster[i], #[trigger] roster[j])
}

/// The roster is one a field of the given size can hold: every position is
/// fit, and no two share a cell.
pub open spec fn well_placed<B>(roster: Seq<BotPosition<B>>, width: int, height: int) -> bool {
    &&& distinct(roster)
    &&& forall|i: int| 0 <= i < roster.len() ==> fit(#[trigger] roster[i], width, height)
}

/// The index of the first position of the roster on cell `(x, y)`.
pub open spec fn index_at<B>(roster: Seq<BotPosition<B>>, x: int, y: int) -> Option<int>
    decreases roster.len(),
{
    if roster.len() == 0 {
        None
    } else {
        match index_at(roster.drop_last(), x, y) {
            Some(i) => Some(i),
            None => if sits_at(roster.last(), x, y) {
                Some(roster.len() - 1)
            } else {
                None
            },
        }
    }
}

/// The roster with `p` written to its cell: in place of the position that
/// was on that cell, or at the end where the cell was free.
pub open spec fn place<B>(roster: Seq<BotPosition<B>>, p: BotPosition<B>) -> Seq<BotPosition<B>> {
    match index_at(roster, p.x as int, p.y as int) {
        Some(i) => roster.update(i, p),
        None => roster.push(p),
    }
}

/// The roster that a list of tentative positions leaves: each position with
/// energy left is written to its cell, in the order of the list.
pub open spec fn committed<B>(tentative: Seq<BotPosition<B>>) -> Seq<BotPosition<B>>
    decreases tentative.len(),
{
    if tentative.len() == 0 {
        Seq::empty()
    } else if alive(tentative.last()) {
        place(committed(tentative.drop_last()), tentative.last())
    } else {
        committed(tentative.drop_last())
    }
}

/// `index_at` finds the first position on the cell, and finds none only if
/// there is none.
pub proof fn lemma_index_at<B>(roster: Seq<BotPosition<B>>, x: int, y: int)
    ensures
        match index_at(roster, x, y) {
            Some(i) => {
                &&& 0 <= i < roster.len()
                &&& sits_at(roster[i], x, y)
                &&& forall|j: int| 0 <= j < i ==> !sits_at(#[trigger] roster[j], x, y)
            },
            None => forall|j: int| 0 <= j < roster.len() ==> !sits_at(#[trigger] roster[j], x, y),
        },
    decreases roster.len(),
{
    if roster.len() > 0 {
        let front = roster.drop_last();
        lemma_index_at(front, x, y);
        assert(forall|j: int| 0 <= j < front.len() ==> front[j] == roster[j]);
    }
}

/// Writing a position to a roster without shared cells leaves a roster
/// without shared cells, which holds the new position on its cell and every
/// other position where it was.
pub proof fn lemma_place<B>(roster: Seq<BotPosition<B>>, p: BotPosition<B>)
    requires
        distinct(roster),
    ensures
        distinct(place(roster, p)),
        roster.len() <= place(roster, p).len() <= roster.len() + 1,
        match index_at(place(roster, p), p.x as int, p.y as int) {
            Some(i) => place(roster, p)[i] == p,
            None => false,
        },
        forall|i: int|
            0 <= i < roster.len() && !sits_at(roster[i], p.x as int, p.y as int) ==> #[trigger] place(
                roster,
                p,
            )[i] == roster[i],
        forall|i: int|
            0 <= i < place(roster, p).len() ==> #[trigger] place(roster, p)[i] == p || (i
                < roster.len() && place(roster, p)[i] == roster[i]),
{
    let after = place(roster, p);
    lemma_index_at(roster, p.x as int, p.y as int);
    lemma_index_at(after, p.x as int, p.y as int);
    if let Some(k) = index_at(roster, p.x as int, p.y as int) {
        assert(sits_at(after[k], p.x as int, p.y as int));
    }
}

/// A committed roster has no shared cells, and each of its positions is a
/// tentative position with energy left.
pub proof fn lemma_committed<B>(tentative: Seq<BotPosition<B>>)
    ensures
        distinct(committed(tentative)),
        committed(tentative).len() <= tentative.len(),
        forall|i: int|
            0 <= i < committed(tentative).len() ==> exists|k: int|
                0 <= k < tentative.len() && alive(tentative[k]) && #[trigger] committed(
                    tentative,
                )[i] == tentative[k],
    decreases tentative.len(),
{
    if tentative.len() > 0 {
        let front = tentative.drop_last();
        let last = tentative.last();
        lemma_committed(front);
        let before = committed(front);
        if alive(last) {
            lemma_place(before, last);
        }
        let after = committed(tentative);
        assert forall|i: int| 0 <= i < after.len() implies exists|k: int|
            0 <= k < tentative.len() && alive(tentative[k]) && #[trigger] after[i] == tentative[k] by {
            if !(alive(last) && after[i] == last) {
                let k = choose|k: int| 0 <= k < front.len() && alive(front[k]) && before[i] == front[k];
                assert(tentative[k] == front[k]);
            }
        }
    }
}

/// What every tentative position with energy left has in common, every
/// position of the committed roster has too; so a list of fit positions
/// commits to a well placed roster.
pub proof fn lemma_committed_well_placed<B>(
    tentative: Seq<BotPosition<B>>,
    width: int,
    height: int,
)
    requires
        forall|k: int|
            0 <= k < tentative.len() && alive(tentative[k]) ==> fit(
                #[trigger] tentative[k],
                width,
                height,
            ),
    ensures
        well_placed(committed(tentative), width, height),
{
    lemma_committed(tentative);
    let roster = committed(tentative);
    assert forall|i: int| 0 <= i < roster.len() implies fit(#[trigger] roster[i], width, height) by {
        let k = choose|k: int| 0 <= k < tentative.len() && alive(tentative[k]) && roster[i] == tentative[k];
        assert(fit(tentative[k], width, height));
    }
}

/// The last writer wins: a tentative position with energy left, after which
/// no other such position is written to the same cell, is the one the
/// committed roster holds on that cell.
pub proof fn lemma_last_writer_wins<B>(tentative: Seq<BotPosition<B>>, k: int)
    requires
        0 <= k < tentative.len(),
        alive(tentative[k]),
        forall|j: int|
            k < j < tentative.len() && alive(tentative[j]) ==> !sits_at(
                #[trigger] tentative[j],
                tentative[k].x as int,
                tentative[k].y as int,
            ),
    ensures
        match index_at(committed(tentative), tentative[k].x as int, tentative[k].y as int) {
            Some(i) => committed(tentative)[i] == tentative[k],
            None => false,
        },
    decreases tentative.len(),
{
    let front = tentative.drop_last();
    let last = tentative.last();
    let x = tentative[k].x as int;
    let y = tentative[k].y as int;
    lemma_committed(front);
    let before = committed(front);
    if k == tentative.len() - 1 {
        lemma_place(before, last);
    } else {
        assert forall|j: int| k < j < front.len() && alive(front[j]) implies !sits_at(
            #[trigger] front[j],
            x,
            y,
        ) by {
            assert(front[j] == tentative[j]);
        }
        lemma_last_writer_wins(front, k);
        if alive(last) {
            lemma_place(before, last);
            lemma_index_elsewhere(before, last, x, y);
        }
    }
}

/// A cell is taken in the committed roster just when some tentative
/// position with energy left is on it.
pub proof fn lemma_committed_cells<B>(tentative: Seq<BotPosition<B>>, x: int, y: int)
    ensures
        index_at(committed(tentative), x, y) is Some <==> exists|k: int|
            0 <= k < tentative.len() && alive(tentative[k]) && sits_at(#[trigger] tentative[k], x, y),
    decreases tentative.len(),
{
    let roster = committed(tentative);
    lemma_index_at(roster, x, y);
    lemma_committed(tentative);
    if exists|k: int| 0 <= k < tentative.len() && alive(tentative[k]) && sits_at(#[trigger] tentative[k], x, y) {
        let k = lemma_last_on_cell(tentative, x, y, tentative.len() as int);
        lemma_last_writer_wins(tentative, k);
    }
}

/// The last position with energy left on cell `(x, y)` among the first
/// `n` tentative positions, where there is one.
proof fn lemma_last_on_cell<B>(tentative: Seq<BotPosition<B>>, x: int, y: int, n: int) -> (k: int)
    requires
        0 <= n <= tentative.len(),
        exists|k: int| 0 <= k < n && alive(tentative[k]) && sits_at(#[trigger] tentative[k], x, y),
    ensures
        0 <= k < n,
        alive(tentative[k]),
        sits_at(tentative[k], x, y),
        forall|j: int| k < j < n && alive(tentative[j]) ==> !sits_at(#[trigger] tentative[j], x, y),
    decreases n,
{
    if alive(tentative[n - 1]) && sits_at(tentative[n - 1], x, y) {
        n - 1
    } else {
        lemma_last_on_cell(tentative, x, y, n - 1)
    }
}

/// Writing a position to one cell leaves what stands on any other cell.
proof fn lemma_index_elsewhere<B>(roster: Seq<BotPosition<B>>, p: BotPosition<B>, x: int, y: int)
    requires
        distinct(roster),
        !sits_at(p, x, y),
    ensures
        match index_at(roster, x, y) {
            Some(i) => index_at(place(roster, p), x, y) == Some(i) && place(roster, p)[i] == roster[i],
            None => index_at(place(roster, p), x, y) is None,
        },
{
    let after = place(roster, p);
    lemma_place(roster, p);
    lemma_index_at(roster, x, y);
    lemma_index_at(after, x, y);
    lemma_index_at(roster, p.x as int, p.y as int);
    if let Some(i) = index_at(roster, x, y) {
        assert(after[i] == roster[i]);
    }
}

/// Looks for the position on cell `(x, y)`.
pub fn find<B>(roster: &Vec<BotPosition<B>>, x: usize, y: usize) -> (found: Option<usize>)
    ensures
        match found {
            Some(i) => i < roster.len() && index_at(roster@, x as int, y as int) == Some(i as int),
            None => index_at(roster@, x as int, y as int) is None,
        },
{
    let mut i: usize = 0;
    while i < roster.len()
        invariant
            i <= roster.len(),
            forall|j: int| 0 <= j < i ==> !sits_at(#[trigger] roster@[j], x as int, y as int),
        decreases roster.len() - i,
    {
        if roster[i].x == x && roster[i].y == y {
            proof {
                lemma_index_at(roster@, x as int, y as int);
            }
            return Some(i);
        }
        i = i + 1;
    }
    proof {
        lemma_index_at(roster@, x as int, y as int);
    }
    None
}

/// Commits a list of tentative positions: drops those whose agent has no
/// energy left and writes the others to their cells in order, a later one
/// taking the place of an earlier one on the same cell.
pub fn commit<B>(tentative: Vec<BotPosition<B>>) -> (roster: Vec<BotPosition<B>>)
    ensures
        roster@ == committed(tentative@),
{
    let ghost all = tentative@;
    let mut roster: Vec<BotPosition<B>> = Vec::new();
    for p in it: tentative
        invariant
            it.seq() == all,
            roster@ == committed(all.take(it.index() as int)),
    {
        proof {
            let n = it.index() as int;
            assert(all.take(n + 1).drop_last() =~= all.take(n));
        }
        if p.bot.energy >= 0 {
            match find(&roster, p.x, p.y) {
                Some(i) => {
                    roster[i] = p;
                },
                None => {
                    roster.push(p);
                },
            }
        }
    }
    assert(all.take(all.len() as int) =~= all);
    roster
}

} // verus!
