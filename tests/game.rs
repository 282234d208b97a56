use yacht_dice::category::Category;
use yacht_dice::dice::DiceSet;
use yacht_dice::game::{parse_dice_number, Game};
use yacht_dice::table_printer::TablePrinterBuilder;

fn pips(p: [u8; 5]) -> DiceSet {
    DiceSet::from_faces([p[0] - 1, p[1] - 1, p[2] - 1, p[3] - 1, p[4] - 1])
}

fn faces(g: &Game) -> [u8; 5] {
    let d = g.dice_set();
    [d.face_at(0), d.face_at(1), d.face_at(2), d.face_at(3), d.face_at(4)]
}

#[test]
fn new_game_starts_at_first_category() {
    let g = Game::new();
    assert_eq!(g.roll_count(), 1);
    assert_eq!(g.selected_category_index(), Some(0));
    assert!(!g.any_held());
    assert!(!g.game_is_finished());
}

#[test]
fn reroll_with_nothing_held_is_noop() {
    let mut g = Game::start_with(pips([1, 2, 3, 4, 5]));
    g.reroll(&pips([6, 6, 6, 6, 6]));
    assert_eq!(faces(&g), [0, 1, 2, 3, 4]);
    assert_eq!(g.roll_count(), 1);
    assert!(!g.any_held());
    g.on_r_key();
    assert_eq!(faces(&g), [0, 1, 2, 3, 4]);
    assert_eq!(g.roll_count(), 1);
}

#[test]
fn reroll_replaces_only_held_dice() {
    let mut g = Game::start_with(pips([1, 2, 3, 4, 5]));
    g.on_number_key('2');
    g.on_number_key('5');
    assert!(g.is_held(1) && g.is_held(4));
    g.reroll(&pips([6, 6, 6, 6, 6]));
    assert_eq!(faces(&g), [0, 5, 2, 3, 5]);
    assert_eq!(g.roll_count(), 2);
    assert!(!g.any_held());
}

#[test]
fn holds_ignored_on_last_roll() {
    let mut g = Game::start_with(pips([1, 2, 3, 4, 5]));
    g.on_number_key('1');
    g.reroll(&pips([6, 6, 6, 6, 6]));
    g.on_number_key('1');
    g.reroll(&pips([5, 5, 5, 5, 5]));
    assert_eq!(g.roll_count(), 3);
    g.on_number_key('1');
    assert!(!g.any_held());
    g.on_r_key();
    assert_eq!(g.roll_count(), 3);
    assert_eq!(faces(&g), [4, 1, 2, 3, 4]);
}

#[test]
fn number_keys_toggle() {
    let mut g = Game::start_with(pips([1, 2, 3, 4, 5]));
    g.on_number_key('3');
    assert!(g.is_held(2));
    g.on_number_key('3');
    assert!(!g.is_held(2));
    g.on_number_key('0');
    g.on_number_key('6');
    g.on_number_key('x');
    assert!(!g.any_held());
}

#[test]
fn dice_numbers() {
    assert_eq!(parse_dice_number('1'), Some(0));
    assert_eq!(parse_dice_number('5'), Some(4));
    assert_eq!(parse_dice_number('0'), None);
    assert_eq!(parse_dice_number('6'), None);
    assert_eq!(parse_dice_number('a'), None);
}

#[test]
fn cursor_wraps_and_skips_filled() {
    let mut g = Game::start_with(pips([1, 2, 3, 4, 6]));
    g.on_up();
    assert_eq!(g.selected_category_index(), Some(12));
    g.on_down();
    assert_eq!(g.selected_category_index(), Some(0));
    g.commit(pips([1, 2, 3, 4, 6]));
    assert_eq!(g.scoreboard().category_score(Category::Ones), Some(1));
    assert_eq!(g.selected_category_index(), Some(1));
    g.on_up();
    assert_eq!(g.selected_category_index(), Some(12));
    g.on_home();
    assert_eq!(g.selected_category_index(), Some(1));
    g.on_end();
    assert_eq!(g.selected_category_index(), Some(12));
    g.on_down();
    assert_eq!(g.selected_category_index(), Some(1));
}

#[test]
fn commit_starts_next_turn() {
    let mut g = Game::start_with(pips([1, 2, 3, 4, 6]));
    g.on_number_key('1');
    g.reroll(&pips([5, 5, 5, 5, 5]));
    assert_eq!(g.roll_count(), 2);
    g.commit(pips([2, 2, 2, 2, 2]));
    assert_eq!(g.roll_count(), 1);
    assert_eq!(faces(&g), [1, 1, 1, 1, 1]);
    assert!(!g.any_held());
}

#[test]
fn game_finishes_after_thirteen_commits() {
    let mut g = Game::start_with(pips([1, 2, 3, 4, 6]));
    for _ in 0..13 {
        assert!(!g.game_is_finished());
        assert!(g.selected_category_index().is_some());
        g.commit(pips([1, 2, 3, 4, 6]));
    }
    assert!(g.game_is_finished());
    assert_eq!(g.selected_category_index(), None);
    g.on_down();
    g.on_up();
    g.on_home();
    g.on_end();
    g.commit(pips([6, 6, 6, 6, 6]));
    g.on_enter();
    assert_eq!(g.selected_category_index(), None);
    assert!(g.game_is_finished());
    assert_eq!(g.scoreboard().grand_total(), 1 + 2 + 3 + 4 + 6 + 16 + 30);
}

#[test]
fn five_alike_offered_again_only_when_rolled() {
    let mut g = Game::start_with(pips([3, 3, 3, 3, 3]));
    g.on_end();
    g.on_up();
    assert_eq!(g.selected_category_index(), Some(11));
    g.commit(pips([1, 2, 3, 4, 6]));
    assert_eq!(g.scoreboard().category_score(Category::FiveOfAKind), Some(50));
    assert_eq!(g.selected_category_index(), Some(12));
    g.on_up();
    assert_eq!(g.selected_category_index(), Some(10));
    g.commit(pips([2, 2, 2, 2, 2]));
    assert_eq!(g.selected_category_index(), Some(11));
    g.commit(pips([1, 2, 3, 4, 6]));
    assert_eq!(g.scoreboard().category_score(Category::FiveOfAKind), Some(100));
}

#[test]
fn shown_score_adds_live_points() {
    let mut g = Game::start_with(pips([6, 6, 6, 6, 6]));
    assert_eq!(g.shown_score(Category::Sixes), 30);
    assert_eq!(g.shown_score(Category::FiveOfAKind), 50);
    g.on_end();
    g.on_up();
    g.commit(pips([6, 6, 6, 6, 6]));
    assert_eq!(g.shown_score(Category::FiveOfAKind), 100);
    g.commit(pips([1, 2, 3, 4, 6]));
    assert_eq!(g.shown_score(Category::FiveOfAKind), 100);
    assert_eq!(g.shown_score(Category::Chance), 16);
}

#[test]
fn table_rows_are_padded() {
    let mut p = TablePrinterBuilder::new()
        .x(3)
        .y(4)
        .width(24)
        .key_width(19)
        .value_width(3)
        .build();
    assert_eq!((p.x(), p.y(), p.width()), (3, 4, 24));
    p.indent();
    assert_eq!(p.format("Chance", "16", ""), "  Chance            16  ");
    assert_eq!(p.format("⚀ 1s", "5", "> "), "> ⚀ 1s               5  ");
    p.unindent();
    assert_eq!(p.format("Grand Total", "123", ""), "Grand Total        123  ");
    assert_eq!(p.format("Grand Total", "12345", ""), "Grand Total        12345  ");
    p.blank();
    assert_eq!(p.y(), 5);
}

#[test]
fn builder_defaults() {
    let p = TablePrinterBuilder::new().build();
    assert_eq!((p.x(), p.y(), p.width()), (0, 0, 10));
    assert_eq!(p.format("ab", "1", ""), "ab       1");
}
