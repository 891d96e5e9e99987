use botfield::bot::{Action, Bot};
use botfield::field::{BotPosition, Color};
use botfield::roster::{commit, find};
use botfield::tick::{enact, offsets, reach};

fn at(id: u32, energy: isize, x: usize, y: usize) -> BotPosition<u8> {
    BotPosition {
        bot: Bot { brain: 0, energy, id, color: (1, 2, 3), action_color: Color::White },
        x,
        y,
    }
}

fn ids(roster: &Vec<BotPosition<u8>>) -> Vec<u32> {
    roster.iter().map(|p| p.bot.id).collect()
}

#[test]
fn offsets_follow_the_table() {
    let table = [(-1, -1), (0, -1), (1, -1), (-1, 0), (1, 0), (-1, 1), (0, 1), (1, 1)];
    for (angle, step) in table.iter().enumerate() {
        assert_eq!(offsets(angle), *step);
    }
    assert_eq!(offsets(8), (0, 0));
    assert_eq!(offsets(usize::MAX), (0, 0));
}

#[test]
fn reach_from_the_middle() {
    let table = [(4, 4), (5, 4), (6, 4), (4, 5), (6, 5), (4, 6), (5, 6), (6, 6)];
    for (angle, to) in table.iter().enumerate() {
        assert_eq!(reach(10, 10, 5, 5, angle), *to);
    }
    assert_eq!(reach(10, 10, 5, 5, 8), (5, 5));
    assert_eq!(reach(10, 10, 5, 5, 255), (5, 5));
}

#[test]
fn reach_stays_put_at_the_origin() {
    for angle in [0, 1, 2, 3, 5] {
        assert_eq!(reach(10, 10, 0, 0, angle), (0, 0));
    }
    assert_eq!(reach(10, 10, 0, 0, 4), (1, 0));
    assert_eq!(reach(10, 10, 0, 0, 6), (0, 1));
    assert_eq!(reach(10, 10, 0, 0, 7), (1, 1));
}

#[test]
fn reach_stays_put_at_the_far_corner() {
    for angle in [2, 4, 5, 6, 7] {
        assert_eq!(reach(10, 8, 9, 7, angle), (9, 7));
    }
    assert_eq!(reach(10, 8, 9, 7, 0), (8, 6));
    assert_eq!(reach(10, 8, 9, 7, 1), (9, 6));
    assert_eq!(reach(10, 8, 9, 7, 3), (8, 7));
}

#[test]
fn reach_does_not_clamp_one_axis() {
    assert_eq!(reach(10, 10, 0, 5, 0), (0, 5));
    assert_eq!(reach(10, 10, 5, 9, 7), (5, 9));
}

#[test]
fn reach_does_not_wrap_at_the_largest_coordinate() {
    assert_eq!(reach(usize::MAX, usize::MAX, usize::MAX, usize::MAX, 7), (usize::MAX, usize::MAX));
    assert_eq!(reach(usize::MAX, usize::MAX, usize::MAX - 1, 0, 4), (usize::MAX - 1, 0));
    assert_eq!(reach(1, 1, 0, 0, 7), (0, 0));
}

#[test]
fn enact_move() {
    let after = enact(at(7, 10, 5, 5), (6, 5), Action::Move);
    assert_eq!((after.x, after.y), (6, 5));
    assert_eq!(after.bot.energy, 8);
    assert_eq!(after.bot.action_color, Color::Yellow);
    assert_eq!(after.bot.id, 7);
    assert_eq!(after.bot.color, (1, 2, 3));
}

#[test]
fn enact_reproduction() {
    let after = enact(at(7, 10, 5, 5), (6, 5), Action::Reproduction);
    assert_eq!((after.x, after.y), (5, 5));
    assert_eq!(after.bot.energy, 7);
    assert_eq!(after.bot.action_color, Color::Green);
}

#[test]
fn enact_attack() {
    let after = enact(at(7, 10, 5, 5), (6, 5), Action::Attack);
    assert_eq!((after.x, after.y), (5, 5));
    assert_eq!(after.bot.energy, 13);
    assert_eq!(after.bot.action_color, Color::Red);
}

#[test]
fn enact_heal() {
    let mut p = at(7, 10, 5, 5);
    p.bot.action_color = Color::Red;
    let after = enact(p, (6, 5), Action::Heal);
    assert_eq!((after.x, after.y), (5, 5));
    assert_eq!(after.bot.energy, 13);
    assert_eq!(after.bot.action_color, Color::White);
}

#[test]
fn enact_at_the_limits_of_energy() {
    assert_eq!(enact(at(1, isize::MAX - 3, 0, 0), (0, 0), Action::Heal).bot.energy, isize::MAX);
    assert_eq!(enact(at(1, isize::MIN + 3, 0, 0), (0, 0), Action::Reproduction).bot.energy, isize::MIN);
    assert_eq!(enact(at(1, 1, 0, 0), (0, 0), Action::Move).bot.energy, -1);
}

#[test]
fn find_returns_the_first_on_the_cell() {
    let roster = vec![at(1, 5, 0, 0), at(2, 5, 3, 4), at(3, 5, 4, 3), at(4, 5, 3, 4)];
    assert_eq!(find(&roster, 3, 4), Some(1));
    assert_eq!(find(&roster, 4, 3), Some(2));
    assert_eq!(find(&roster, 0, 0), Some(0));
    assert_eq!(find(&roster, 4, 4), None);
    assert_eq!(find(&Vec::<BotPosition<u8>>::new(), 0, 0), None);
}

#[test]
fn find_tells_columns_from_rows() {
    let roster = vec![at(1, 5, 1, 11), at(2, 5, 11, 1)];
    assert_eq!(find(&roster, 11, 1), Some(1));
    assert_eq!(find(&roster, 1, 11), Some(0));
    assert_eq!(find(&roster, 1, 1), None);
}

#[test]
fn commit_keeps_separate_cells_in_order() {
    let roster = commit(vec![at(1, 5, 0, 0), at(2, 0, 1, 0), at(3, 9, 0, 1)]);
    assert_eq!(ids(&roster), vec![1, 2, 3]);
}

#[test]
fn commit_drops_the_starved() {
    let roster = commit(vec![at(1, -1, 0, 0), at(2, 0, 1, 0), at(3, isize::MIN, 2, 0)]);
    assert_eq!(ids(&roster), vec![2]);
}

#[test]
fn commit_lets_the_last_writer_win() {
    let roster = commit(vec![at(1, 5, 2, 2), at(2, 5, 7, 7), at(3, 6, 2, 2), at(4, 7, 2, 2)]);
    assert_eq!(ids(&roster), vec![4, 2]);
    assert_eq!(roster[0].bot.energy, 7);
    assert_eq!((roster[0].x, roster[0].y), (2, 2));
}

#[test]
fn commit_ignores_a_starved_late_writer() {
    let roster = commit(vec![at(1, 5, 2, 2), at(2, -5, 2, 2)]);
    assert_eq!(ids(&roster), vec![1]);
}

#[test]
fn commit_of_nothing_is_empty() {
    assert!(commit(Vec::<BotPosition<u8>>::new()).is_empty());
}
