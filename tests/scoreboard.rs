use yacht_dice::category::Category;
use yacht_dice::dice::DiceSet;
use yacht_dice::scoreboard::Scoreboard;

fn pips(p: [u8; 5]) -> DiceSet {
    DiceSet::from_faces([p[0] - 1, p[1] - 1, p[2] - 1, p[3] - 1, p[4] - 1])
}

#[test]
fn choosing_inserts_one_entry() {
    let mut board = Scoreboard::new();
    let d = pips([3, 3, 3, 1, 2]);
    assert!(board.category_is_available(Category::Threes, &d));
    board.choose_category(Category::Threes, &d);
    assert_eq!(board.category_score(Category::Threes), Some(9));
    for i in 0..13 {
        let c = Category::at(i);
        if c != Category::Threes {
            assert_eq!(board.category_score(c), None);
            assert!(board.category_is_available(c, &d));
        }
    }
    assert!(!board.category_is_available(Category::Threes, &d));
    assert!(!board.can_choose(Category::Threes, &d));
}

#[test]
fn zero_score_fills_category() {
    let mut board = Scoreboard::new();
    let d = pips([1, 2, 3, 4, 6]);
    board.choose_category(Category::FullHouse, &d);
    assert_eq!(board.category_score(Category::FullHouse), Some(0));
    assert!(!board.category_is_available(Category::FullHouse, &pips([2, 2, 2, 5, 5])));
}

#[test]
fn five_alike_bonus_accumulates() {
    let mut board = Scoreboard::new();
    let yes = pips([4, 4, 4, 4, 4]);
    let no = pips([4, 4, 4, 4, 2]);
    board.choose_category(Category::FiveOfAKind, &yes);
    assert_eq!(board.category_score(Category::FiveOfAKind), Some(50));
    assert!(!board.category_is_available(Category::FiveOfAKind, &no));
    let again = pips([1, 1, 1, 1, 1]);
    assert!(board.category_is_available(Category::FiveOfAKind, &again));
    board.choose_category(Category::FiveOfAKind, &again);
    assert_eq!(board.category_score(Category::FiveOfAKind), Some(100));
    assert_eq!(board.lower_total(), 100);
}

#[test]
fn zero_five_alike_entry_stays_closed() {
    let mut board = Scoreboard::new();
    board.choose_category(Category::FiveOfAKind, &pips([1, 2, 3, 4, 5]));
    assert_eq!(board.category_score(Category::FiveOfAKind), Some(0));
    assert!(!board.category_is_available(Category::FiveOfAKind, &pips([6, 6, 6, 6, 6])));
}

#[test]
fn bonus_needs_sixty_three() {
    let mut board = Scoreboard::new();
    board.choose_category(Category::Sixes, &pips([6, 6, 6, 6, 6]));
    board.choose_category(Category::Fives, &pips([5, 5, 5, 5, 5]));
    board.choose_category(Category::Fours, &pips([4, 1, 1, 1, 1]));
    board.choose_category(Category::Threes, &pips([3, 1, 1, 1, 1]));
    assert_eq!(board.upper_section_bonus(), 0);
    assert_eq!(board.upper_total(), 62);

    let mut board = Scoreboard::new();
    board.choose_category(Category::Sixes, &pips([6, 6, 6, 6, 6]));
    board.choose_category(Category::Fives, &pips([5, 5, 5, 5, 5]));
    board.choose_category(Category::Fours, &pips([4, 4, 1, 1, 1]));
    assert_eq!(board.upper_section_bonus(), 35);
    assert_eq!(board.upper_total(), 98);
}

#[test]
fn totals_add_up() {
    let mut board = Scoreboard::new();
    assert_eq!(board.grand_total(), 0);
    board.choose_category(Category::Twos, &pips([2, 2, 1, 3, 4]));
    board.choose_category(Category::Chance, &pips([6, 6, 5, 4, 1]));
    board.choose_category(Category::LargeStraight, &pips([2, 3, 4, 5, 6]));
    assert_eq!(board.upper_total(), 4);
    assert_eq!(board.lower_total(), 62);
    assert_eq!(board.grand_total(), 66);
}

#[test]
fn finished_after_thirteenth_choice() {
    let mut board = Scoreboard::new();
    let d = pips([1, 2, 3, 4, 6]);
    for i in 0..13 {
        assert!(!board.game_is_finished());
        board.choose_category(Category::at(i), &d);
    }
    assert!(board.game_is_finished());
}
