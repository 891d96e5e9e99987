use std::cell::RefCell;
use std::rc::Rc;

use botfield::bot::{Action, Bot};
use botfield::brain::{Brain, Signal};
use botfield::choice::select_action;
use botfield::field::{Color, OtherBot, Sighting};

/// Answers by direction, from a fixed table, and counts its mutations.
#[derive(Clone, Debug, PartialEq)]
struct Table {
    rows: [[i64; 4]; 8],
    mutations: u32,
}

impl Table {
    fn of(rows: [[i64; 4]; 8]) -> Self {
        Table { rows, mutations: 0 }
    }
}

impl Brain for Table {
    fn new(_inputs: usize, _hidden_layers: usize, _layer_width: usize, _outputs: usize) -> Self {
        Table::of([[0; 4]; 8])
    }

    fn execute(&self, inputs: [Signal; 5]) -> [i64; 4] {
        self.rows[inputs[2].num as usize]
    }

    fn mutate(&mut self) {
        self.mutations += 1;
    }
}

/// Scores nothing above zero and keeps what it was asked.
#[derive(Clone)]
struct Recorder {
    asked: Rc<RefCell<Vec<[Signal; 5]>>>,
}

impl Brain for Recorder {
    fn new(_inputs: usize, _hidden_layers: usize, _layer_width: usize, _outputs: usize) -> Self {
        Recorder { asked: Rc::new(RefCell::new(Vec::new())) }
    }

    fn execute(&self, inputs: [Signal; 5]) -> [i64; 4] {
        self.asked.borrow_mut().push(inputs);
        [0, -1, -2, -3]
    }

    fn mutate(&mut self) {}
}

/// Remembers the topology it was made with.
#[derive(Clone)]
struct Shape {
    topology: (usize, usize, usize, usize),
}

impl Brain for Shape {
    fn new(inputs: usize, hidden_layers: usize, layer_width: usize, outputs: usize) -> Self {
        Shape { topology: (inputs, hidden_layers, layer_width, outputs) }
    }

    fn execute(&self, _inputs: [Signal; 5]) -> [i64; 4] {
        [0; 4]
    }

    fn mutate(&mut self) {}
}

const EMPTY: Sighting = (0, None);
const OFF: Sighting = (-1, None);

fn neighbour(id: usize, energy: isize) -> Sighting {
    (1, Some(OtherBot { id, energy }))
}

fn agent(rows: [[i64; 4]; 8]) -> Bot<Table> {
    Bot { brain: Table::of(rows), energy: 10, id: 1234, color: (9, 8, 7), action_color: Color::White }
}

fn ratio(num: i128, den: i128) -> Signal {
    Signal { num, den }
}

#[test]
fn select_takes_the_highest_score() {
    let mut scores = vec![[0i64; 4]; 8];
    scores[2] = [3, 9, 100, 4];
    scores[6] = [8, 2, 100, 1];
    assert_eq!(select_action(&vec![EMPTY; 8], &scores), (2, Action::Reproduction));
}

#[test]
fn select_heals_when_nothing_scores_above_zero() {
    let scores = vec![[0i64, -5, 0, -1]; 8];
    assert_eq!(select_action(&vec![EMPTY; 8], &scores), (0, Action::Heal));
}

#[test]
fn select_heals_when_everything_is_off_the_board() {
    let scores = vec![[50i64; 4]; 8];
    assert_eq!(select_action(&vec![OFF; 8], &scores), (0, Action::Heal));
}

#[test]
fn select_keeps_the_earlier_direction_on_a_tie() {
    let mut scores = vec![[0i64; 4]; 8];
    scores[3] = [7, 0, 0, 0];
    scores[5] = [7, 0, 0, 0];
    assert_eq!(select_action(&vec![EMPTY; 8], &scores), (3, Action::Move));
}

#[test]
fn select_keeps_the_earlier_action_on_a_tie() {
    let mut scores = vec![[0i64; 4]; 8];
    scores[1] = [6, 6, 6, 6];
    assert_eq!(select_action(&vec![EMPTY; 8], &scores), (1, Action::Move));
    let mut around = vec![EMPTY; 8];
    around[1] = neighbour(5, 5);
    assert_eq!(select_action(&around, &scores), (1, Action::Attack));
}

#[test]
fn select_needs_a_strictly_higher_score_to_switch() {
    let mut scores = vec![[0i64; 4]; 8];
    scores[0] = [0, 0, 0, 5];
    scores[7] = [5, 5, 0, 6];
    assert_eq!(select_action(&vec![EMPTY; 8], &scores), (7, Action::Heal));
}

#[test]
fn select_only_attacks_a_neighbour() {
    let mut scores = vec![[0i64; 4]; 8];
    scores[0] = [0, 0, 90, 0];
    scores[4] = [1, 2, 80, 3];
    let mut around = vec![EMPTY; 8];
    assert_eq!(select_action(&around, &scores), (4, Action::Heal));
    around[4] = neighbour(1, 1);
    assert_eq!(select_action(&around, &scores), (4, Action::Attack));
}

#[test]
fn select_never_moves_onto_a_neighbour() {
    let mut scores = vec![[0i64; 4]; 8];
    scores[6] = [40, 30, 0, 2];
    let mut around = vec![EMPTY; 8];
    around[6] = neighbour(1, 1);
    assert_eq!(select_action(&around, &scores), (6, Action::Heal));
}

#[test]
fn select_passes_over_a_sighting_it_cannot_read() {
    let mut scores = vec![[0i64; 4]; 8];
    scores[0] = [9, 9, 9, 9];
    scores[1] = [9, 9, 9, 9];
    scores[2] = [9, 9, 9, 9];
    scores[3] = [1, 0, 0, 0];
    let mut around = vec![EMPTY; 8];
    around[0] = (1, None);
    around[1] = (2, Some(OtherBot { id: 1, energy: 1 }));
    around[2] = (-1, Some(OtherBot { id: 1, energy: 1 }));
    assert_eq!(select_action(&around, &scores), (3, Action::Move));
}

#[test]
fn select_reads_an_empty_cell_by_its_code_alone() {
    let mut scores = vec![[0i64; 4]; 8];
    scores[0] = [4, 0, 9, 0];
    let mut around = vec![OFF; 8];
    around[0] = (0, Some(OtherBot { id: 1, energy: 1 }));
    assert_eq!(select_action(&around, &scores), (0, Action::Move));
}

#[test]
fn select_handles_extreme_scores() {
    let mut scores = vec![[i64::MIN; 4]; 8];
    scores[7] = [i64::MIN, i64::MAX, 0, i64::MAX];
    assert_eq!(select_action(&vec![EMPTY; 8], &scores), (7, Action::Reproduction));
}

#[test]
fn step_moves_east_when_only_east_scores() {
    let mut rows = [[0i64; 4]; 8];
    rows[4] = [1, 0, 0, 0];
    assert_eq!(agent(rows).step(vec![EMPTY; 8]), (4, Action::Move));
}

#[test]
fn step_heals_by_default() {
    let rows = [[0i64, -1, -2, 0]; 8];
    assert_eq!(agent(rows).step(vec![EMPTY; 8]), (0, Action::Heal));
}

#[test]
fn step_returns_the_lower_of_two_equal_directions() {
    let mut rows = [[0i64; 4]; 8];
    rows[2] = [0, 5, 0, 0];
    rows[6] = [0, 5, 0, 0];
    assert_eq!(agent(rows).step(vec![EMPTY; 8]), (2, Action::Reproduction));
}

#[test]
fn step_does_not_ask_about_cells_off_the_board() {
    let mut rows = [[0i64; 4]; 8];
    rows[0] = [100, 100, 100, 100];
    rows[7] = [0, 0, 0, 1];
    let mut around = vec![EMPTY; 8];
    around[0] = OFF;
    assert_eq!(agent(rows).step(around), (7, Action::Heal));
}

#[test]
fn step_feeds_its_decision_function_in_the_order_of_the_directions() {
    let brain = Recorder::new(5, 5, 5, 4);
    let asked = brain.asked.clone();
    let bot = Bot { brain, energy: -7, id: 4321, color: (0, 0, 0), action_color: Color::Red };
    let mut around = vec![OFF; 8];
    around[1] = EMPTY;
    around[3] = neighbour(77, 12);
    around[6] = EMPTY;
    assert_eq!(bot.step(around), (0, Action::Heal));
    let expected = vec![
        [ratio(4321, 10000), ratio(-7, 10), ratio(1, 8), ratio(0, 1), ratio(0, 1)],
        [ratio(4321, 10), ratio(-7, 10), ratio(3, 8), ratio(77, 10), ratio(12, 10)],
        [ratio(4321, 10000), ratio(-7, 10), ratio(6, 8), ratio(0, 1), ratio(0, 1)],
    ];
    assert_eq!(*asked.borrow(), expected);
}

#[test]
fn stimulus_toward_an_empty_cell() {
    let bot = agent([[0; 4]; 8]);
    assert_eq!(
        bot.stimulus(5, &EMPTY),
        [ratio(1234, 10000), ratio(10, 10), ratio(5, 8), ratio(0, 1), ratio(0, 1)]
    );
}

#[test]
fn stimulus_toward_a_neighbour() {
    let bot = agent([[0; 4]; 8]);
    assert_eq!(
        bot.stimulus(2, &neighbour(9999, -3)),
        [ratio(1234, 10), ratio(10, 10), ratio(2, 8), ratio(9999, 10), ratio(-3, 10)]
    );
}

#[test]
fn new_agent_is_fresh() {
    for _ in 0..200 {
        let bot: Bot<Shape> = Bot::new();
        assert_eq!(bot.energy, 10);
        assert!(bot.id < 10000);
        assert_eq!(bot.action_color, Color::White);
        assert_eq!(bot.brain.topology, (5, 5, 5, 4));
    }
}

#[test]
fn new_agents_differ() {
    let seen: Vec<(u32, (u8, u8, u8))> = (0..50)
        .map(|_| {
            let bot: Bot<Shape> = Bot::new();
            (bot.id, bot.color)
        })
        .collect();
    assert!(seen.iter().any(|s| *s != seen[0]));
}

#[test]
fn offspring_without_identity_is_a_faithful_copy() {
    let mut parent = agent([[3; 4]; 8]);
    parent.action_color = Color::Green;
    parent.energy = 41;
    let child = parent.offspring(None);
    assert_eq!(child.id, 1234);
    assert_eq!(child.energy, 41);
    assert_eq!(child.color, (9, 8, 7));
    assert_eq!(child.action_color, Color::White);
    assert_eq!(child.brain, parent.brain);
}

#[test]
fn offspring_with_identity_is_a_mutant() {
    let parent = agent([[3; 4]; 8]);
    let child = parent.offspring(Some(42));
    assert_eq!(child.id, 42);
    assert_eq!(child.energy, 10);
    assert_eq!(child.color, (9, 8, 7));
    assert_eq!(child.action_color, Color::White);
    assert_eq!(child.brain.mutations, 1);
    assert_eq!(parent.brain.mutations, 0);
}

#[test]
fn mutate_keeps_energy_and_colour() {
    let mut parent = agent([[0; 4]; 8]);
    parent.id = 20000;
    parent.energy = -4;
    parent.action_color = Color::Red;
    let mut mutants = 0;
    for _ in 0..400 {
        let child = parent.mutate();
        assert_eq!(child.energy, -4);
        assert_eq!(child.color, (9, 8, 7));
        assert_eq!(child.action_color, Color::White);
        if child.brain.mutations == 1 {
            assert!(child.id < 10000);
            mutants += 1;
        } else {
            assert_eq!(child.brain.mutations, 0);
            assert_eq!(child.id, 20000);
        }
    }
    assert!(mutants > 0);
    assert!(mutants < 400);
}

#[test]
fn clone_copies_every_field() {
    let mut bot = agent([[1, 2, 3, 4]; 8]);
    bot.action_color = Color::Yellow;
    let copy = bot.clone();
    assert_eq!(copy.brain, bot.brain);
    assert_eq!(copy.energy, 10);
    assert_eq!(copy.id, 1234);
    assert_eq!(copy.color, (9, 8, 7));
    assert_eq!(copy.action_color, Color::Yellow);
}
