//! Agents.

use vstd::prelude::*;
use crate::brain::{Brain, Signal};
use crate::chance;
use crate::choice::{
    candidate, consulted, inhabited, lemma_default_action, lemma_select_winner, open_to, select,
    select_action, wins,
};
use crate::field::{Color, Sighting};

verus! {

/// What an agent can do in a tick.
#[derive(Clone, Copy, Debug, PartialEq, Eq, Structural)]
pub enum Action {
    Move,
    Reproduction,
    Attack,
    Heal,
}

/// A living agent: its decision function, its energy, the identity it shows
/// to its decision function, its colour on screen and the mark of its last
/// action.
#[derive(Debug)]
pub struct Bot<B> {
    pub brain: B,
    pub energy: isize,
    pub id: u32,
    pub color: (u8, u8, u8),
    pub action_color: Color,
}

impl<B: Clone> Clone for Bot<B> {
    /// A copy with a copy of the decision function.
    fn clone(&self) -> (copy: Self)
        ensures
            cloned(self.brain, copy.brain),
            copy.energy == self.energy,
            copy.id == self.id,
            copy.color == self.color,
            copy.action_color == self.action_color,
    {
        Bot {
            brain: self.brain.clone(),
            energy: self.energy,
            id: self.id,
            color: self.color,
            action_color: self.action_color,
        }
    }
}

impl<B: Brain> Bot<B> {
    /// The features the agent hands to its decision function when it looks
    /// in `direction` and sees `cell`.
    ///
    /// Toward an agent these are its own identity, its own energy, the
    /// neighbour's identity and the neighbour's energy, each over ten, and
    /// the direction over eight. Toward an empty cell its identity is taken
    /// over ten thousand, and the two features of the neighbour are zero.
    pub open spec fn feed(&self, direction: int, cell: Sighting) -> Seq<Signal> {
        if inhabited(cell) {
            seq![
                Signal { num: self.id as i128, den: 10 },
                Signal { num: self.energy as i128, den: 10 },
                Signal { num: direction as i128, den: 8 },
                Signal { num: cell.1->0.id as i128, den: 10 },
                Signal { num: cell.1->0.energy as i128, den: 10 },
            ]
        } else {
            seq![
                Signal { num: self.id as i128, den: 10000 },
                Signal { num: self.energy as i128, den: 10 },
                Signal { num: direction as i128, den: 8 },
                Signal { num: 0, den: 1 },
                Signal { num: 0, den: 1 },
            ]
        }
    }

    /// `row` is an answer that the agent's decision function can give when
    /// the agent looks in `direction` and sees `cell`.
    pub open spec fn may_answer(&self, direction: int, cell: Sighting, row: [i64; 4]) -> bool {
        exists|inputs: [Signal; 5]|
            inputs@ == self.feed(direction, cell) && #[trigger] call_ensures(
                B::execute,
                (&self.brain, inputs),
                row,
            )
    }

    /// `choice` is what the agent does for some answers that its decision
    /// function can give on the cells around it.
    pub open spec fn may_choose(&self, around: Seq<Sighting>, choice: (u8, Action)) -> bool {
        exists|scores: Seq<[i64; 4]>| #[trigger] self.chooses(around, scores, choice)
    }

    /// `scores` holds, for every direction in which the agent sees a cell of
    /// the board, an answer that its decision function can give there, and
    /// `choice` is what these scores select.
    pub open spec fn chooses(
        &self,
        around: Seq<Sighting>,
        scores: Seq<[i64; 4]>,
        choice: (u8, Action),
    ) -> bool {
        &&& scores.len() == 8
        &&& forall|d: int|
            0 <= d < 8 && consulted(around[d]) ==> self.may_answer(d, around[d], #[trigger] scores[d])
        &&& choice == select(around, scores)
    }

    /// `child` is an agent that this one can beget: with the parent's energy
    /// and colour, no mark yet, and either the parent's identity and a copy
    /// of its decision function, or a fresh identity below ten thousand and
    /// a decision function of its own.
    pub open spec fn may_beget(&self, child: Self) -> bool {
        &&& child.energy == self.energy
        &&& child.color == self.color
        &&& child.action_color == Color::White
        &&& child.id < 10000 || (child.id == self.id && cloned(self.brain, child.brain))
    }

    /// A fresh agent: ten units of energy, a random identity below ten
    /// thousand, a random colour, no mark, and a new decision function of
    /// five inputs, five hidden layers of five units and four outputs.
    pub fn new() -> (bot: Self)
        ensures
            call_ensures(B::new, (5usize, 5usize, 5usize, 4usize), bot.brain),
            bot.energy == 10,
            bot.id < 10000,
            bot.action_color == Color::White,
    {
        let brain = B::new(5, 5, 5, 4);
        let id = chance::below(10000) as u32;
        let color = (chance::byte(), chance::byte(), chance::byte());
        Bot { brain, energy: 10, id, color, action_color: Color::White }
    }

    /// The features for the decision function when the agent looks in
    /// `direction` and sees `cell`.
    pub fn stimulus(&self, direction: u8, cell: &Sighting) -> (inputs: [Signal; 5])
        ensures
            inputs@ == self.feed(direction as int, *cell),
    {
        let energy = Signal { num: self.energy as i128, den: 10 };
        let heading = Signal { num: direction as i128, den: 8 };
        let inputs = match cell.1 {
            Some(other) if cell.0 == 1 => [
                Signal { num: self.id as i128, den: 10 },
                energy,
                heading,
                Signal { num: other.id as i128, den: 10 },
                Signal { num: other.energy as i128, den: 10 },
            ],
            _ => [
                Signal { num: self.id as i128, den: 10000 },
                energy,
                heading,
                Signal { num: 0, den: 1 },
                Signal { num: 0, den: 1 },
            ],
        };
        inputs
    }

    /// Decides what the agent does, given what it sees in each of the eight
    /// directions: asks the decision function about every cell of the board
    /// around it, in the order of the directions, and takes what the scores
    /// select.
    pub fn step(&self, around: Vec<Sighting>) -> (choice: (u8, Action))
        requires
            around.len() == 8,
        ensures
            self.may_choose(around@, choice),
    {
        let mut scores: Vec<[i64; 4]> = Vec::new();
        let mut d: u8 = 0;
        while d < 8
            invariant
                d <= 8,
                around.len() == 8,
                scores.len() == d,
                forall|e: int|
                    0 <= e < d && consulted(around@[e]) ==> self.may_answer(
                        e,
                        around@[e],
                        #[trigger] scores@[e],
                    ),
            decreases 8 - d,
        {
            let cell = &around[d as usize];
            let row = if cell.0 == 0 || (cell.0 == 1 && cell.1.is_some()) {
                self.brain.execute(self.stimulus(d, cell))
            } else {
                [0i64, 0i64, 0i64, 0i64]
            };
            scores.push(row);
            d = d + 1;
        }
        let choice = select_action(&around, &scores);
        assert(self.chooses(around@, scores@, choice));
        choice
    }

    /// A child of the agent: a copy with the parent's energy and colour and
    /// no mark. With `identity` given the child is a mutant: its decision
    /// function is perturbed and it goes by that identity. Without, it keeps
    /// the parent's identity and an unchanged copy of its decision function.
    pub fn offspring(&self, identity: Option<u32>) -> (child: Self)
        ensures
            child.energy == self.energy,
            child.color == self.color,
            child.action_color == Color::White,
            match identity {
                Some(id) => child.id == id,
                None => child.id == self.id && cloned(self.brain, child.brain),
            },
    {
        let mut brain = self.brain.clone();
        let id = match identity {
            Some(id) => {
                brain.mutate();
                id
            },
            None => self.id,
        };
        Bot { brain, energy: self.energy, id, color: self.color, action_color: Color::White }
    }

    /// A child of the agent, a mutant one time in five: see `offspring`. A
    /// mutant gets a random identity below ten thousand.
    pub fn mutate(&self) -> (child: Self)
        ensures
            self.may_beget(child),
    {
        let identity = if chance::below(100) < 20 {
            Some(chance::below(10000) as u32)
        } else {
            None
        };
        self.offspring(identity)
    }

    /// An agent whose decision function never scores above zero heals, with
    /// direction `0`, whatever it sees.
    pub proof fn lemma_unmoved_agent_heals(&self, around: Seq<Sighting>, choice: (u8, Action))
        requires
            around.len() == 8,
            forall|inputs: [Signal; 5], row: [i64; 4], k: int|
                #[trigger] call_ensures(B::execute, (&self.brain, inputs), row) && 0 <= k < 4
                    ==> #[trigger] row[k] <= 0,
            self.may_choose(around, choice),
        ensures
            choice == (0u8, Action::Heal),
    {
        let scores = choose|scores: Seq<[i64; 4]>| self.chooses(around, scores, choice);
        assert forall|d: int, k: int| #[trigger] candidate(around, d, k) implies scores[d][k] <= 0 by {
            let inputs = choose|inputs: [Signal; 5]|
                inputs@ == self.feed(d, around[d]) && #[trigger] call_ensures(
                    B::execute,
                    (&self.brain, inputs),
                    scores[d],
                );
            assert(scores[d][k] <= 0);
        }
        lemma_default_action(around, scores);
    }

    /// An agent whose decision function can only give one and the same
    /// answer in two directions never takes the later of the two, provided
    /// that it sees the same kind of cell in both.
    pub proof fn lemma_agent_breaks_ties(
        &self,
        around: Seq<Sighting>,
        i: int,
        j: int,
        choice: (u8, Action),
    )
        requires
            around.len() == 8,
            0 <= i < j < 8,
            forall|k: int| 0 <= k < 4 && open_to(around[j], k) ==> open_to(around[i], k),
            forall|first: [i64; 4], second: [i64; 4]|
                #[trigger] self.may_answer(i, around[i], first) && #[trigger] self.may_answer(
                    j,
                    around[j],
                    second,
                ) ==> first == second,
            self.may_choose(around, choice),
        ensures
            choice.0 != j,
    {
        let scores = choose|scores: Seq<[i64; 4]>| self.chooses(around, scores, choice);
        if exists|d: int, k: int| wins(around, scores, d, k) {
            let (d, k) = choose|d: int, k: int| wins(around, scores, d, k);
            lemma_select_winner(around, scores, d, k);
            if d == j {
                assert(candidate(around, i, k));
            }
        }
    }
}

} // verus!
