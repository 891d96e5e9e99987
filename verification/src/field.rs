//! The grid and the agents standing on it.

use vstd::prelude::*;
use crate::bot::{Action, Bot};
use crate::brain::Brain;
use crate::chance;
use crate::roster::{
    commit, committed, find, fit, index_at, lemma_committed_well_placed, well_placed,
};
use crate::tick::{
    destination, enact, lemma_proposals_fit, lemma_proposals_of_prefix, perception, proposals,
    reach, sighting,
};

verus! {

/// The mark an agent carries for its last action.
///
/// `White` marks an agent that did nothing to show: it healed, or it has not
/// acted yet. `Yellow` marks a move, `Green` a reproduction, `Red` an attack.
#[derive(Clone, Copy, Debug, PartialEq, Eq, Structural)]
pub enum Color {
    White,
    Green,
    Yellow,
    Red,
}

/// What an agent learns of a neighbour: its identity and its energy.
#[derive(Clone, Copy, Debug, PartialEq, Eq)]
pub struct OtherBot {
    pub id: usize,
    pub energy: isize,
}

/// What an agent sees in one direction.
///
/// The first component is `-1` for a cell off the board, `0` for an empty
/// cell and `1` for a cell with an agent on it; the second describes that
/// agent.
pub type Sighting = (i8, Option<OtherBot>);

/// A zone that is to turn deadly at a given tick. Zones are kept, and nothing
/// in the simulation consults them.
#[derive(Clone, Copy, Debug, PartialEq, Eq)]
pub struct KillZone {
    pub time_appear: usize,
    pub shape: (usize, usize, usize, usize),
}

/// An agent and the cell it stands on.
#[derive(Debug)]
pub struct BotPosition<B> {
    pub bot: Bot<B>,
    pub x: usize,
    pub y: usize,
}

/// A square to paint for one agent: where it lies on the canvas, how large
/// it is, the colour it is filled with and the colour of its outline.
#[derive(Clone, Copy, Debug, PartialEq, Eq)]
pub struct Tile {
    pub x: i32,
    pub y: i32,
    pub width: u32,
    pub height: u32,
    pub fill: (u8, u8, u8),
    pub outline: (u8, u8, u8),
}

/// The side of a cell on the canvas.
pub const BASE_SIZE: i32 = 10;

/// The number of agents a new field is seeded with.
pub const FOUNDERS: usize = 20;

/// The outline that shows a mark: white, green, yellow or red.
pub open spec fn outline_of(mark: Color) -> (u8, u8, u8) {
    match mark {
        Color::White => (255, 255, 255),
        Color::Green => (0, 255, 0),
        Color::Yellow => (255, 255, 0),
        Color::Red => (255, 0, 0),
    }
}

/// The square to paint for an agent: its cell scaled to the canvas, filled
/// with the agent's colour and outlined in the colour of its mark.
pub open spec fn tile_of<B>(p: BotPosition<B>) -> Tile {
    Tile {
        x: (p.x * BASE_SIZE) as i32,
        y: (p.y * BASE_SIZE) as i32,
        width: BASE_SIZE as u32,
        height: BASE_SIZE as u32,
        fill: p.bot.color,
        outline: outline_of(p.bot.action_color),
    }
}

/// A field can have this size: neither side is zero, and both fit a signed
/// coordinate.
pub open spec fn valid_size(width: usize, height: usize) -> bool {
    0 < width <= isize::MAX && 0 < height <= isize::MAX
}

/// The agents a new field is seeded with: twenty of them, each on the board
/// with ten units of energy, an identity below ten thousand and no mark.
pub open spec fn founding<B>(founders: Seq<BotPosition<B>>, width: usize, height: usize) -> bool {
    &&& founders.len() == FOUNDERS
    &&& forall|k: int|
        0 <= k < founders.len() ==> {
            let p = #[trigger] founders[k];
            &&& p.x < width
            &&& p.y < height
            &&& p.bot.energy == 10
            &&& p.bot.id < 10000
            &&& p.bot.action_color == Color::White
        }
}

/// The outline that shows a mark.
pub fn outline(mark: Color) -> (rgb: (u8, u8, u8))
    ensures
        rgb == outline_of(mark),
{
    match mark {
        Color::White => (255, 255, 255),
        Color::Green => (0, 255, 0),
        Color::Yellow => (255, 255, 0),
        Color::Red => (255, 0, 0),
    }
}

/// A bounded grid with at most one agent on each cell.
pub struct Field<B> {
    cells: Vec<BotPosition<B>>,
    age: usize,
    killzones: Vec<KillZone>,
    width: usize,
    height: usize,
}

impl<B: Brain> Field<B> {
    /// The agents on the field, each with its cell, in the order in which
    /// they take their turn.
    pub closed spec fn roster(&self) -> Seq<BotPosition<B>> {
        self.cells@
    }

    /// The number of columns.
    pub closed spec fn spec_width(&self) -> usize {
        self.width
    }

    /// The number of rows.
    pub closed spec fn spec_height(&self) -> usize {
        self.height
    }

    /// The number of ticks the field has gone through.
    pub closed spec fn spec_age(&self) -> usize {
        self.age
    }

    /// The zones kept with the field.
    pub closed spec fn zones(&self) -> Seq<KillZone> {
        self.killzones@
    }

    /// The field is well formed: its size is valid, every agent is on the
    /// board with energy left and an identity below ten thousand, and no two
    /// agents share a cell.
    pub open spec fn wf(&self) -> bool {
        &&& valid_size(self.width(), self.height())
        &&& well_placed(self.roster(), self.width() as int, self.height() as int)
    }

    /// The field can go through a tick without a counter or an agent's
    /// energy running over.
    pub open spec fn spec_ready(&self) -> bool {
        &&& self.age() < usize::MAX
        &&& forall|i: int|
            0 <= i < self.roster().len() ==> (#[trigger] self.roster()[i]).bot.energy <= isize::MAX
                - 3
    }

    /// What the agent on the `i`-th position of the roster sees around it.
    pub open spec fn view_of(&self, i: int) -> Seq<Sighting> {
        perception(
            self.roster(),
            self.width() as int,
            self.height() as int,
            self.roster()[i].x as int,
            self.roster()[i].y as int,
        )
    }

    /// The tick can go this way: every agent can come to its decision from
    /// what it sees on the field as it stands, and every agent that decides
    /// to reproduce can beget its child.
    pub open spec fn admits(&self, decisions: Seq<(u8, Action)>, children: Seq<Bot<B>>) -> bool {
        &&& decisions.len() == self.roster().len()
        &&& children.len() == self.roster().len()
        &&& forall|i: int|
            0 <= i < self.roster().len() ==> self.roster()[i].bot.may_choose(
                self.view_of(i),
                #[trigger] decisions[i],
            )
        &&& forall|i: int|
            0 <= i < self.roster().len() && decisions[i].1 == Action::Reproduction
                ==> self.roster()[i].bot.may_beget(#[trigger] children[i])
    }

    /// The roster after a tick in which the agents decide and beget as
    /// given: what they leave, committed.
    pub open spec fn after(
        &self,
        decisions: Seq<(u8, Action)>,
        children: Seq<Bot<B>>,
    ) -> Seq<BotPosition<B>> {
        committed(
            proposals(
                self.roster(),
                self.width() as int,
                self.height() as int,
                decisions,
                children,
                self.roster().len() as int,
            ),
        )
    }

    /// However the agents of a well formed field decide and beget, the
    /// roster after the tick is well placed: no two agents share a cell, and
    /// every agent is on the board with energy left.
    pub proof fn lemma_tick_keeps_order(&self, decisions: Seq<(u8, Action)>, children: Seq<Bot<B>>)
        requires
            self.wf(),
            self.admits(decisions, children),
        ensures
            well_placed(
                self.after(decisions, children),
                self.width() as int,
                self.height() as int,
            ),
    {
        lemma_proposals_fit(
            self.roster(),
            self.width() as int,
            self.height() as int,
            decisions,
            children,
            self.roster().len() as int,
        );
        lemma_committed_well_placed(
            proposals(
                self.roster(),
                self.width() as int,
                self.height() as int,
                decisions,
                children,
                self.roster().len() as int,
            ),
            self.width() as int,
            self.height() as int,
        );
    }

    /// A field of the given size, seeded with twenty fresh agents on random
    /// cells. Where several of them land on one cell the last one stays.
    pub fn new(width: usize, height: usize) -> (field: Self)
        requires
            valid_size(width, height),
        ensures
            field.wf(),
            field.width() == width,
            field.height() == height,
            field.age() == 0,
            field.zones() == seq![KillZone { time_appear: 200, shape: (0, 0, 0, 0) }],
            exists|founders: Seq<BotPosition<B>>| #[trigger]
                founding(founders, width, height) && field.roster() == committed(founders),
    {
        let mut founders: Vec<BotPosition<B>> = Vec::new();
        let mut n: usize = 0;
        while n < FOUNDERS
            invariant
                n <= FOUNDERS,
                founders.len() == n,
                valid_size(width, height),
                forall|k: int|
                    0 <= k < founders.len() ==> {
                        let p = #[trigger] founders@[k];
                        &&& p.x < width
                        &&& p.y < height
                        &&& p.bot.energy == 10
                        &&& p.bot.id < 10000
                        &&& p.bot.action_color == Color::White
                    },
            decreases FOUNDERS - n,
        {
            let x = chance::below(width);
            let y = chance::below(height);
            founders.push(BotPosition { bot: Bot::new(), x, y });
            n = n + 1;
        }
        proof {
            assert(founding(founders@, width, height));
            lemma_committed_well_placed(founders@, width as int, height as int);
        }
        Field {
            killzones: vec![KillZone { time_appear: 200, shape: (0, 0, 0, 0) }],
            age: 0,
            cells: commit(founders),
            width,
            height,
        }
    }

    /// A field of the given size with the given agents on it, where the
    /// size is valid and every agent is on the board and shows an identity
    /// below ten thousand. Agents without energy are left out, and where
    /// several stand on one cell the last one stays.
    pub fn with_positions(width: usize, height: usize, positions: Vec<BotPosition<B>>) -> (made:
        Option<Self>)
        ensures
            made is Some <==> {
                &&& valid_size(width, height)
                &&& forall|k: int|
                    0 <= k < positions.len() ==> {
                        let p = #[trigger] positions@[k];
                        p.x < width && p.y < height && p.bot.id < 10000
                    }
            },
            match made {
                Some(field) => {
                    &&& field.wf()
                    &&& field.width() == width
                    &&& field.height() == height
                    &&& field.age() == 0
                    &&& field.zones() == seq![KillZone { time_appear: 200, shape: (0, 0, 0, 0) }]
                    &&& field.roster() == committed(positions@)
                },
                None => true,
            },
    {
        if width == 0 || height == 0 || width > isize::MAX as usize || height > isize::MAX as usize {
            return None;
        }
        let mut k: usize = 0;
        while k < positions.len()
            invariant
                k <= positions.len(),
                forall|j: int|
                    0 <= j < k ==> {
                        let p = #[trigger] positions@[j];
                        p.x < width && p.y < height && p.bot.id < 10000
                    },
            decreases positions.len() - k,
        {
            let p = &positions[k];
            if p.x >= width || p.y >= height || p.bot.id >= 10000 {
                return None;
            }
            k = k + 1;
        }
        proof {
            lemma_committed_well_placed(positions@, width as int, height as int);
        }
        Some(
            Field {
                killzones: vec![KillZone { time_appear: 200, shape: (0, 0, 0, 0) }],
                age: 0,
                cells: commit(positions),
                width,
                height,
            },
        )
    }

    /// The number of columns.
    #[verifier::when_used_as_spec(spec_width)]
    pub fn width(&self) -> (width: usize)
        ensures
            width == self.spec_width(),
    {
        self.width
    }

    /// The number of rows.
    #[verifier::when_used_as_spec(spec_height)]
    pub fn height(&self) -> (height: usize)
        ensures
            height == self.spec_height(),
    {
        self.height
    }

    /// The number of ticks the field has gone through.
    #[verifier::when_used_as_spec(spec_age)]
    pub fn age(&self) -> (age: usize)
        ensures
            age == self.spec_age(),
    {
        self.age
    }

    /// The agents on the field, each with its cell, in the order in which
    /// they take their turn.
    pub fn positions(&self) -> (positions: &Vec<BotPosition<B>>)
        ensures
            positions@ == self.roster(),
    {
        &self.cells
    }

    /// The zones kept with the field.
    pub fn killzones(&self) -> (zones: &Vec<KillZone>)
        ensures
            zones@ == self.zones(),
    {
        &self.killzones
    }

    /// Whether the field can go through a tick without a counter or an
    /// agent's energy running over.
    #[verifier::when_used_as_spec(spec_ready)]
    pub fn ready(&self) -> (ready: bool)
        ensures
            ready == self.spec_ready(),
    {
        if self.age == usize::MAX {
            return false;
        }
        let mut i: usize = 0;
        while i < self.cells.len()
            invariant
                i <= self.cells.len(),
                self.age < usize::MAX,
                forall|j: int| 0 <= j < i ==> (#[trigger] self.cells@[j]).bot.energy <= isize::MAX - 3,
            decreases self.cells.len() - i,
        {
            if self.cells[i].bot.energy > isize::MAX - 3 {
                return false;
            }
            i = i + 1;
        }
        true
    }

    /// The agent on cell `(x, y)`, if there is one.
    pub fn occupant(&self, x: usize, y: usize) -> (at: Option<&BotPosition<B>>)
        ensures
            match at {
                Some(p) => index_at(self.roster(), x as int, y as int) matches Some(i)
                    && *p == self.roster()[i],
                None => index_at(self.roster(), x as int, y as int) is None,
            },
    {
        match find(&self.cells, x, y) {
            Some(i) => Some(&self.cells[i]),
            None => None,
        }
    }

    /// What is seen of cell `(x, y)`: `(-1, None)` off the board, `(0, None)`
    /// on an empty cell, and `1` with the identity and energy of the agent
    /// on the cell otherwise.
    pub fn get_cell(&self, x: isize, y: isize) -> (cell: Sighting)
        ensures
            cell == sighting(
                self.roster(),
                self.width() as int,
                self.height() as int,
                x as int,
                y as int,
            ),
    {
        if x >= 0 && y >= 0 && (x as usize) < self.width && (y as usize) < self.height {
            match find(&self.cells, x as usize, y as usize) {
                Some(i) => {
                    let p = &self.cells[i];
                    (1, Some(OtherBot { energy: p.bot.energy, id: p.bot.id as usize }))
                },
                None => (0, None),
            }
        } else {
            (-1, None)
        }
    }

    /// What an agent on cell `(x, y)` sees in each of the eight directions.
    pub fn look_around(&self, x: isize, y: isize) -> (around: Vec<Sighting>)
        requires
            isize::MIN < x < isize::MAX,
            isize::MIN < y < isize::MAX,
        ensures
            around@ == perception(
                self.roster(),
                self.width() as int,
                self.height() as int,
                x as int,
                y as int,
            ),
    {
        let around = vec![
            self.get_cell(x - 1, y - 1),
            self.get_cell(x, y - 1),
            self.get_cell(x + 1, y - 1),
            self.get_cell(x - 1, y),
            self.get_cell(x + 1, y),
            self.get_cell(x - 1, y + 1),
            self.get_cell(x, y + 1),
            self.get_cell(x + 1, y + 1),
        ];
        assert(around@ =~= perception(
            self.roster(),
            self.width() as int,
            self.height() as int,
            x as int,
            y as int,
        ));
        around
    }

    /// The cell that an agent on `(x, y)` reaches in direction `angle`: the
    /// neighbouring cell, or its own cell where the neighbouring one would
    /// be off the board. An agent on the board stays on the board.
    pub fn get_new_coordinates(&self, x: usize, y: usize, angle: usize) -> (to: (usize, usize))
        ensures
            (to.0 as int, to.1 as int) == destination(
                self.width() as int,
                self.height() as int,
                x as int,
                y as int,
                angle as int,
            ),
            x < self.width() && y < self.height() ==> to.0 < self.width() && to.1 < self.height(),
    {
        reach(self.width, self.height, x, y, angle)
    }

    /// What each agent decides to do, in the order of the roster, from what
    /// it sees on the field as it stands.
    pub fn decide(&self) -> (decisions: Vec<(u8, Action)>)
        requires
            self.wf(),
        ensures
            decisions.len() == self.roster().len(),
            forall|i: int|
                0 <= i < self.roster().len() ==> self.roster()[i].bot.may_choose(
                    self.view_of(i),
                    #[trigger] decisions@[i],
                ),
    {
        let mut decisions: Vec<(u8, Action)> = Vec::new();
        let mut i: usize = 0;
        while i < self.cells.len()
            invariant
                i <= self.cells.len(),
                decisions.len() == i,
                self.wf(),
                forall|j: int|
                    0 <= j < i ==> self.roster()[j].bot.may_choose(
                        self.view_of(j),
                        #[trigger] decisions@[j],
                    ),
            decreases self.cells.len() - i,
        {
            let p = &self.cells[i];
            let around = self.look_around(p.x as isize, p.y as isize);
            let choice = p.bot.step(around);
            decisions.push(choice);
            i = i + 1;
        }
        decisions
    }

    /// Takes the field through one tick.
    ///
    /// Every agent decides from what it sees on the field as it stands.
    /// Then every agent acts, in the order of the roster, and what the
    /// agents leave is committed: an agent that has run out of energy is
    /// gone, and of several agents on one cell the last one stays.
    pub fn step(&mut self)
        requires
            old(self).wf(),
            old(self).ready(),
        ensures
            final(self).wf(),
            final(self).width() == old(self).width(),
            final(self).height() == old(self).height(),
            final(self).zones() == old(self).zones(),
            final(self).age() == old(self).age() + 1,
            exists|decisions: Seq<(u8, Action)>, children: Seq<Bot<B>>| #[trigger]
                old(self).admits(decisions, children) && final(self).roster() == old(self).after(
                    decisions,
                    children,
                ),
    {
        let decisions = self.decide();
        let width = self.width;
        let height = self.height;
        let ghost before = self.cells@;
        let mut cells: Vec<BotPosition<B>> = Vec::new();
        core::mem::swap(&mut cells, &mut self.cells);
        let mut tentative: Vec<BotPosition<B>> = Vec::new();
        let ghost mut children: Seq<Bot<B>> = Seq::empty();
        let mut i: usize = 0;
        for p in it: cells
            invariant
                it.seq() == before,
                i == it.index(),
                decisions.len() == before.len(),
                children.len() == i,
                well_placed(before, width as int, height as int),
                forall|k: int| 0 <= k < before.len() ==> (#[trigger] before[k]).bot.energy <= isize::MAX - 3,
                forall|k: int|
                    0 <= k < i && decisions@[k].1 == Action::Reproduction ==> before[k].bot.may_beget(
                        #[trigger] children[k],
                    ),
                tentative@ == proposals(
                    before,
                    width as int,
                    height as int,
                    decisions@,
                    children,
                    i as int,
                ),
        {
            let ghost earlier = children;
            let (angle, action) = decisions[i];
            let to = reach(width, height, p.x, p.y, angle as usize);
            match action {
                Action::Reproduction => {
                    let child = p.bot.mutate();
                    proof {
                        children = children.push(child);
                    }
                    tentative.push(enact(p, to, action));
                    tentative.push(BotPosition { bot: child, x: to.0, y: to.1 });
                },
                _ => {
                    proof {
                        children = children.push(p.bot);
                    }
                    tentative.push(enact(p, to, action));
                },
            }
            proof {
                lemma_proposals_of_prefix(
                    before,
                    width as int,
                    height as int,
                    decisions@,
                    earlier,
                    decisions@,
                    children,
                    i as int,
                );
                assert(tentative@ =~= proposals(
                    before,
                    width as int,
                    height as int,
                    decisions@,
                    children,
                    i + 1,
                ));
            }
            i = i + 1;
        }
        proof {
            assert(old(self).admits(decisions@, children));
            old(self).lemma_tick_keeps_order(decisions@, children);
        }
        self.cells = commit(tentative);
        self.age = self.age + 1;
    }

    /// The squares to paint for the agents on the field, in the order of
    /// the roster.
    pub fn draw(&self) -> (tiles: Vec<Tile>)
        requires
            self.wf(),
            self.width() * BASE_SIZE <= i32::MAX,
            self.height() * BASE_SIZE <= i32::MAX,
        ensures
            tiles.len() == self.roster().len(),
            forall|i: int| 0 <= i < tiles.len() ==> #[trigger] tiles@[i] == tile_of(self.roster()[i]),
    {
        let mut tiles: Vec<Tile> = Vec::new();
        let mut i: usize = 0;
        while i < self.cells.len()
            invariant
                i <= self.cells.len(),
                tiles.len() == i,
                self.wf(),
                self.width() * BASE_SIZE <= i32::MAX,
                self.height() * BASE_SIZE <= i32::MAX,
                forall|j: int| 0 <= j < i ==> #[trigger] tiles@[j] == tile_of(self.roster()[j]),
            decreases self.cells.len() - i,
        {
            let p = &self.cells[i];
            tiles.push(
                Tile {
                    x: p.x as i32 * BASE_SIZE,
                    y: p.y as i32 * BASE_SIZE,
                    width: BASE_SIZE as u32,
                    height: BASE_SIZE as u32,
                    fill: p.bot.color,
                    outline: outline(p.bot.action_color),
                },
            );
            i = i + 1;
        }
        tiles
    }
}

} // verus!
