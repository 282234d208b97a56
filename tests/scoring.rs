use yacht_dice::category::Category;
use yacht_dice::dice::{Dice, DiceSet};

fn pips(p: [u8; 5]) -> DiceSet {
    DiceSet::from_faces([p[0] - 1, p[1] - 1, p[2] - 1, p[3] - 1, p[4] - 1])
}

#[test]
fn chance_is_pip_sum() {
    assert_eq!(pips([1, 1, 1, 1, 1]).score(Category::Chance), 5);
    assert_eq!(pips([6, 6, 6, 6, 6]).score(Category::Chance), 30);
    assert_eq!(pips([2, 5, 3, 6, 1]).score(Category::Chance), 17);
}

#[test]
fn upper_categories_count_faces() {
    let d = pips([3, 3, 5, 3, 1]);
    assert_eq!(d.score(Category::Ones), 1);
    assert_eq!(d.score(Category::Twos), 0);
    assert_eq!(d.score(Category::Threes), 9);
    assert_eq!(d.score(Category::Fours), 0);
    assert_eq!(d.score(Category::Fives), 5);
    assert_eq!(d.score(Category::Sixes), 0);
}

#[test]
fn run_of_five_is_both_straights() {
    let d = pips([1, 2, 3, 4, 5]);
    assert_eq!(d.score(Category::SmallStraight), 30);
    assert_eq!(d.score(Category::LargeStraight), 40);
    let d = pips([6, 4, 2, 5, 3]);
    assert_eq!(d.score(Category::SmallStraight), 30);
    assert_eq!(d.score(Category::LargeStraight), 40);
}

#[test]
fn run_of_four_with_pair_is_small_only() {
    let d = pips([1, 1, 2, 3, 4]);
    assert_eq!(d.score(Category::SmallStraight), 30);
    assert_eq!(d.score(Category::LargeStraight), 0);
}

#[test]
fn broken_run_is_no_straight() {
    let d = pips([1, 2, 3, 5, 6]);
    assert_eq!(d.score(Category::SmallStraight), 0);
    assert_eq!(d.score(Category::LargeStraight), 0);
}

#[test]
fn five_alike_scores() {
    for p in 1..=6u8 {
        let d = pips([p, p, p, p, p]);
        assert_eq!(d.score(Category::FiveOfAKind), 50);
        assert_eq!(d.score(Category::ThreeOfAKind), 5 * p as u32);
        assert_eq!(d.score(Category::FourOfAKind), 5 * p as u32);
        assert_eq!(d.score(Category::FullHouse), 0);
    }
}

#[test]
fn full_house_and_four_alike() {
    let d = pips([2, 2, 2, 5, 5]);
    assert_eq!(d.score(Category::FullHouse), 25);
    assert_eq!(d.score(Category::ThreeOfAKind), 16);
    assert_eq!(d.score(Category::FourOfAKind), 0);
    let d = pips([2, 2, 2, 2, 5]);
    assert_eq!(d.score(Category::FullHouse), 0);
    assert_eq!(d.score(Category::FourOfAKind), 13);
    assert_eq!(d.score(Category::ThreeOfAKind), 13);
}

#[test]
fn mixed_dice_are_not_five_alike() {
    let d = pips([4, 4, 4, 4, 3]);
    assert_eq!(d.score(Category::FiveOfAKind), 0);
    let d = pips([1, 4, 4, 4, 4]);
    assert_eq!(d.score(Category::FiveOfAKind), 0);
    assert_eq!(d.score(Category::ThreeOfAKind), 17);
}

#[test]
fn no_kind_scores_zero() {
    let d = pips([1, 2, 4, 5, 6]);
    assert_eq!(d.score(Category::ThreeOfAKind), 0);
    assert_eq!(d.score(Category::FourOfAKind), 0);
    assert_eq!(d.score(Category::FullHouse), 0);
}

#[test]
fn rolled_dice_are_valid_faces() {
    for _ in 0..200 {
        let d = DiceSet::roll();
        for i in 0..5 {
            assert!(d.face_at(i) < 6);
        }
        let one = Dice::roll();
        assert!(one.face() < 6);
    }
}

#[test]
fn rolls_show_more_than_one_face() {
    let mut seen = [false; 6];
    for _ in 0..200 {
        seen[Dice::roll().face() as usize] = true;
    }
    assert!(seen.iter().filter(|s| **s).count() > 1);
}

#[test]
fn category_order_and_names() {
    for i in 0..13 {
        assert_eq!(Category::at(i).index(), i);
    }
    assert_eq!(Category::at(0), Category::Ones);
    assert_eq!(Category::at(11), Category::FiveOfAKind);
    assert!(Category::Sixes.in_upper_section());
    assert!(!Category::ThreeOfAKind.in_upper_section());
    assert_eq!(Category::FullHouse.name(), "Full House");
    assert_eq!(Category::Ones.name(), "⚀ 1s");
}
