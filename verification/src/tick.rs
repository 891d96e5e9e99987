//! What a tick does with one agent: what the agent sees, where its direction
//! leads, and what its action leaves behind.

use vstd::prelude::*;
use crate::bot::{Action, Bot};
use crate::brain::Brain;
use crate::choice::lemma_action_fits_sight;
use crate::field::{BotPosition, Color, OtherBot, Sighting};
use crate::roster::{alive, fit, index_at, lemma_index_at, sits_at, well_placed};

verus! {

/// The step on the grid that a direction stands for: the eight neighbours
/// row by row from the top left, and no step at all for any other number.
pub open spec fn offset(angle: int) -> (int, int) {
    if angle == 0 {
        (-1, -1)
    } else if angle == 1 {
        (0, -1)
    } else if angle == 2 {
        (1, -1)
    } else if angle == 3 {
        (-1, 0)
    } else if angle == 4 {
        (1, 0)
    } else if angle == 5 {
        (-1, 1)
    } else if angle == 6 {
        (0, 1)
    } else if angle == 7 {
        (1, 1)
    } else {
        (0, 0)
    }
}

/// The cell `(x, y)` is on a board of the given size.
pub open spec fn on_board(width: int, height: int, x: int, y: int) -> bool {
    0 <= x < width && 0 <= y < height
}

/// The cell that an agent on `(x, y)` reaches in direction `angle`: the
/// neighbouring cell where that is on the board, and its own cell where it
/// is not.
pub open spec fn destination(width: int, height: int, x: int, y: int, angle: int) -> (int, int) {
    let to = (x + offset(angle).0, y + offset(angle).1);
    if on_board(width, height, to.0, to.1) {
        to
    } else {
        (x, y)
    }
}

/// What is seen of cell `(x, y)`: that it is off the board, that it is
/// empty, or the identity and energy of the agent on it.
pub open spec fn sighting<B>(
    roster: Seq<BotPosition<B>>,
    width: int,
    height: int,
    x: int,
    y: int,
) -> Sighting {
    if on_board(width, height, x, y) {
        match index_at(roster, x, y) {
            Some(i) => (
                1i8,
                Some(OtherBot { id: roster[i].bot.id as usize, energy: roster[i].bot.energy }),
            ),
            None => (0i8, None),
        }
    } else {
        (-1i8, None)
    }
}

/// What an agent on `(x, y)` sees in each of the eight directions.
pub open spec fn perception<B>(
    roster: Seq<BotPosition<B>>,
    width: int,
    height: int,
    x: int,
    y: int,
) -> Seq<Sighting> {
    Seq::new(8, |d: int| sighting(roster, width, height, x + offset(d).0, y + offset(d).1))
}

/// The agent after its action, and where it then stands.
///
/// A move takes it to `to` and costs two units of energy. Reproducing costs
/// three, attacking and healing each bring three, and all three leave it in
/// place. The agent is marked yellow, green, red or white accordingly.
pub open spec fn acted<B>(p: BotPosition<B>, to: (usize, usize), action: Action) -> BotPosition<B> {
    match action {
        Action::Move => BotPosition {
            bot: Bot { energy: (p.bot.energy - 2) as isize, action_color: Color::Yellow, ..p.bot },
            x: to.0,
            y: to.1,
        },
        Action::Reproduction => BotPosition {
            bot: Bot { energy: (p.bot.energy - 3) as isize, action_color: Color::Green, ..p.bot },
            x: p.x,
            y: p.y,
        },
        Action::Attack => BotPosition {
            bot: Bot { energy: (p.bot.energy + 3) as isize, action_color: Color::Red, ..p.bot },
            x: p.x,
            y: p.y,
        },
        Action::Heal => BotPosition {
            bot: Bot { energy: (p.bot.energy + 3) as isize, action_color: Color::White, ..p.bot },
            x: p.x,
            y: p.y,
        },
    }
}

/// The tentative positions that an agent's action leaves: the agent after
/// the action and, where it reproduced, its child on the cell `to`.
pub open spec fn outcome<B>(
    p: BotPosition<B>,
    to: (usize, usize),
    action: Action,
    child: Bot<B>,
) -> Seq<BotPosition<B>> {
    if action == Action::Reproduction {
        seq![acted(p, to, action), BotPosition { bot: child, x: to.0, y: to.1 }]
    } else {
        seq![acted(p, to, action)]
    }
}

/// The cell that the `i`-th agent of the roster reaches with its decision.
pub open spec fn goal<B>(
    roster: Seq<BotPosition<B>>,
    width: int,
    height: int,
    decisions: Seq<(u8, Action)>,
    i: int,
) -> (usize, usize) {
    let to = destination(width, height, roster[i].x as int, roster[i].y as int, decisions[i].0 as int);
    (to.0 as usize, to.1 as usize)
}

/// The tentative positions that the first `n` agents of the roster leave,
/// in the order of the roster, when the `i`-th agent acts on `decisions[i]`
/// and, where it reproduces, begets `children[i]`.
pub open spec fn proposals<B>(
    roster: Seq<BotPosition<B>>,
    width: int,
    height: int,
    decisions: Seq<(u8, Action)>,
    children: Seq<Bot<B>>,
    n: int,
) -> Seq<BotPosition<B>>
    decreases n,
{
    if n <= 0 {
        Seq::empty()
    } else {
        proposals(roster, width, height, decisions, children, n - 1) + outcome(
            roster[n - 1],
            goal(roster, width, height, decisions, n - 1),
            decisions[n - 1].1,
            children[n - 1],
        )
    }
}

/// No direction leads off the board: an agent on the board reaches a cell
/// of the board, and that is either the neighbour in that direction or its
/// own cell.
pub proof fn lemma_destination_on_board(width: int, height: int, x: int, y: int, angle: int)
    requires
        on_board(width, height, x, y),
    ensures
        on_board(
            width,
            height,
            destination(width, height, x, y, angle).0,
            destination(width, height, x, y, angle).1,
        ),
        destination(width, height, x, y, angle) == (x, y) || destination(width, height, x, y, angle)
            == (x + offset(angle).0, y + offset(angle).1),
{
}

/// A child starts with the energy its parent had before the tick, whatever
/// the parent pays for it: of the two positions that a reproduction leaves,
/// the parent's holds three units less than the parent had, and the child's
/// holds what the parent had.
pub proof fn lemma_child_inherits_energy<B: Brain>(
    p: BotPosition<B>,
    to: (usize, usize),
    child: Bot<B>,
)
    requires
        p.bot.may_beget(child),
        isize::MIN + 3 <= p.bot.energy,
    ensures
        outcome(p, to, Action::Reproduction, child).len() == 2,
        outcome(p, to, Action::Reproduction, child)[0].bot.energy == p.bot.energy - 3,
        outcome(p, to, Action::Reproduction, child)[1].bot.energy == p.bot.energy,
        outcome(p, to, Action::Reproduction, child)[1].bot.action_color == Color::White,
        sits_at(outcome(p, to, Action::Reproduction, child)[0], p.x as int, p.y as int),
        sits_at(outcome(p, to, Action::Reproduction, child)[1], to.0 as int, to.1 as int),
{
}

/// An agent only attacks a cell on which an agent stood when the tick
/// began, and only moves or reproduces toward a cell of the board that was
/// empty then.
pub proof fn lemma_choice_has_target<B: Brain>(
    roster: Seq<BotPosition<B>>,
    width: int,
    height: int,
    i: int,
    choice: (u8, Action),
)
    requires
        0 <= i < roster.len(),
        on_board(width, height, roster[i].x as int, roster[i].y as int),
        roster[i].bot.may_choose(
            perception(roster, width, height, roster[i].x as int, roster[i].y as int),
            choice,
        ),
    ensures
        ({
            let to = destination(
                width,
                height,
                roster[i].x as int,
                roster[i].y as int,
                choice.0 as int,
            );
            &&& choice.1 == Action::Attack ==> index_at(roster, to.0, to.1) is Some
            &&& choice.1 == Action::Move || choice.1 == Action::Reproduction ==> {
                &&& index_at(roster, to.0, to.1) is None
                &&& to == (
                    roster[i].x + offset(choice.0 as int).0,
                    roster[i].y + offset(choice.0 as int).1,
                )
            }
        }),
{
    let x = roster[i].x as int;
    let y = roster[i].y as int;
    let around = perception(roster, width, height, x, y);
    let scores = choose|scores: Seq<[i64; 4]>| roster[i].bot.chooses(around, scores, choice);
    lemma_action_fits_sight(around, scores);
    let d = choice.0 as int;
    assert(around[d] == sighting(roster, width, height, x + offset(d).0, y + offset(d).1));
    lemma_index_at(roster, x + offset(d).0, y + offset(d).1);
}

/// Every tentative position that a tick gathers from a well placed roster
/// is on the board and shows an identity below ten thousand, whatever the
/// decisions; so those with energy left are fit.
pub proof fn lemma_proposals_fit<B: Brain>(
    roster: Seq<BotPosition<B>>,
    width: int,
    height: int,
    decisions: Seq<(u8, Action)>,
    children: Seq<Bot<B>>,
    n: int,
)
    requires
        well_placed(roster, width, height),
        0 <= n <= roster.len(),
        decisions.len() == roster.len(),
        children.len() == roster.len(),
        forall|i: int|
            0 <= i < roster.len() && decisions[i].1 == Action::Reproduction
                ==> roster[i].bot.may_beget(#[trigger] children[i]),
    ensures
        forall|k: int|
            0 <= k < proposals(roster, width, height, decisions, children, n).len() ==> {
                let p = #[trigger] proposals(roster, width, height, decisions, children, n)[k];
                &&& p.x < width
                &&& p.y < height
                &&& p.bot.id < 10000
                &&& alive(p) ==> fit(p, width, height)
            },
    decreases n,
{
    if n > 0 {
        lemma_proposals_fit(roster, width, height, decisions, children, n - 1);
        let p = roster[n - 1];
        lemma_destination_on_board(width, height, p.x as int, p.y as int, decisions[n - 1].0 as int);
        assert(fit(p, width, height));
        assert(decisions[n - 1].1 == Action::Reproduction ==> p.bot.may_beget(children[n - 1]));
    }
}

/// The tentative positions of the first `n` agents do not depend on what
/// later agents decide or beget.
pub proof fn lemma_proposals_of_prefix<B>(
    roster: Seq<BotPosition<B>>,
    width: int,
    height: int,
    decisions: Seq<(u8, Action)>,
    children: Seq<Bot<B>>,
    others: Seq<(u8, Action)>,
    orphans: Seq<Bot<B>>,
    n: int,
)
    requires
        0 <= n <= decisions.len(),
        n <= children.len(),
        n <= others.len(),
        n <= orphans.len(),
        forall|i: int| 0 <= i < n ==> decisions[i] == others[i],
        forall|i: int| 0 <= i < n ==> children[i] == orphans[i],
    ensures
        proposals(roster, width, height, decisions, children, n) == proposals(
            roster,
            width,
            height,
            others,
            orphans,
            n,
        ),
    decreases n,
{
    if n > 0 {
        lemma_proposals_of_prefix(roster, width, height, decisions, children, others, orphans, n - 1);
    }
}

/// The step on the grid that a direction stands for.
pub fn offsets(angle: usize) -> (step: (i8, i8))
    ensures
        (step.0 as int, step.1 as int) == offset(angle as int),
{
    match angle {
        0 => (-1, -1),
        1 => (0, -1),
        2 => (1, -1),
        3 => (-1, 0),
        4 => (1, 0),
        5 => (-1, 1),
        6 => (0, 1),
        7 => (1, 1),
        _ => (0, 0),
    }
}

/// One coordinate moved by one step, if that stays below `limit`.
fn shifted(v: usize, step: i8, limit: usize) -> (moved: Option<usize>)
    requires
        -1 <= step <= 1,
    ensures
        match moved {
            Some(u) => u == v + step && u < limit,
            None => !(0 <= v + step < limit),
        },
{
    if step < 0 {
        if v > 0 && v - 1 < limit {
            Some(v - 1)
        } else {
            None
        }
    } else if step > 0 {
        if v < limit && v + 1 < limit {
            Some(v + 1)
        } else {
            None
        }
    } else if v < limit {
        Some(v)
    } else {
        None
    }
}

/// The cell that an agent on `(x, y)` reaches in direction `angle` on a
/// board of the given size. A step that would leave the board is not taken.
pub fn reach(width: usize, height: usize, x: usize, y: usize, angle: usize) -> (to: (usize, usize))
    ensures
        (to.0 as int, to.1 as int) == destination(
            width as int,
            height as int,
            x as int,
            y as int,
            angle as int,
        ),
{
    let step = offsets(angle);
    match (shifted(x, step.0, width), shifted(y, step.1, height)) {
        (Some(tx), Some(ty)) => (tx, ty),
        _ => (x, y),
    }
}

/// Carries out the action of the agent in position `p`, with `to` the cell
/// its direction leads to.
pub fn enact<B>(p: BotPosition<B>, to: (usize, usize), action: Action) -> (after: BotPosition<B>)
    requires
        isize::MIN + 3 <= p.bot.energy <= isize::MAX - 3,
    ensures
        after == acted(p, to, action),
{
    let mut after = p;
    match action {
        Action::Move => {
            after.bot.energy = after.bot.energy - 2;
            after.bot.action_color = Color::Yellow;
            after.x = to.0;
            after.y = to.1;
        },
        Action::Reproduction => {
            after.bot.energy = after.bot.energy - 3;
            after.bot.action_color = Color::Green;
        },
        Action::Attack => {
            after.bot.energy = after.bot.energy + 3;
            after.bot.action_color = Color::Red;
        },
        Action::Heal => {
            after.bot.energy = after.bot.energy + 3;
            after.bot.action_color = Color::White;
        },
    }
    after
}

} // verus!
