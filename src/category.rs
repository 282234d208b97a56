use vstd::prelude::*;

verus! {

/// Number of scoring categories.
pub const NUM_CATEGORIES: usize = 13;

/// Number of categories in the upper section; they come first in the order.
pub const UPPER_SECTION_LEN: usize = 6;

/// One of the thirteen scoring categories, in their fixed display order.
#[derive(Clone, Copy, Debug, PartialEq, Eq, Hash, Structural)]
pub enum Category {
    Ones,
    Twos,
    Threes,
    Fours,
    Fives,
    Sixes,
    ThreeOfAKind,
    FourOfAKind,
    FullHouse,
    SmallStraight,
    LargeStraight,
    FiveOfAKind,
    Chance,
}

impl Category {
    /// Position of the category in the fixed order.
    pub open spec fn spec_index(self) -> int {
        match self {
            Category::Ones => 0,
            Category::Twos => 1,
            Category::Threes => 2,
            Category::Fours => 3,
            Category::Fives => 4,
            Category::Sixes => 5,
            Category::ThreeOfAKind => 6,
            Category::FourOfAKind => 7,
            Category::FullHouse => 8,
            Category::SmallStraight => 9,
            Category::LargeStraight => 10,
            Category::FiveOfAKind => 11,
            Category::Chance => 12,
        }
    }

    /// The category at position `i` of the fixed order.
    pub open spec fn spec_at(i: int) -> Category {
        if i == 0 {
            Category::Ones
        } else if i == 1 {
            Category::Twos
        } else if i == 2 {
            Category::Threes
        } else if i == 3 {
            Category::Fours
        } else if i == 4 {
            Category::Fives
        } else if i == 5 {
            Category::Sixes
        } else if i == 6 {
            Category::ThreeOfAKind
        } else if i == 7 {
            Category::FourOfAKind
        } else if i == 8 {
            Category::FullHouse
        } else if i == 9 {
            Category::SmallStraight
        } else if i == 10 {
            Category::LargeStraight
        } else if i == 11 {
            Category::FiveOfAKind
        } else {
            Category::Chance
        }
    }

    /// Upper-section membership: Ones to Sixes.
    pub open spec fn is_upper(self) -> bool {
        self.spec_index() < UPPER_SECTION_LEN
    }

    /// The short label shown for the category.
    pub open spec fn spec_name(self) -> Seq<char> {
        match self {
            Category::Ones => "⚀ 1s"@,
            Category::Twos => "⚁ 2s"@,
            Category::Threes => "⚂ 3s"@,
            Category::Fours => "⚃ 4s"@,
            Category::Fives => "⚄ 5s"@,
            Category::Sixes => "⚅ 6s"@,
            Category::ThreeOfAKind => "3 of a Kind"@,
            Category::FourOfAKind => "4 of a Kind"@,
            Category::FullHouse => "Full House"@,
            Category::SmallStraight => "Small Straight"@,
            Category::LargeStraight => "Large Straight"@,
            Category::FiveOfAKind => "5 of a Kind"@,
            Category::Chance => "Chance"@,
        }
    }

    /// Position of the category in the fixed order.
    pub fn index(&self) -> (r: usize)
        ensures
            r == self.spec_index(),
            r < NUM_CATEGORIES,
            Category::spec_at(r as int) == *self,
    {
        match self {
            Category::Ones => 0,
            Category::Twos => 1,
            Category::Threes => 2,
            Category::Fours => 3,
            Category::Fives => 4,
            Category::Sixes => 5,
            Category::ThreeOfAKind => 6,
            Category::FourOfAKind => 7,
            Category::FullHouse => 8,
            Category::SmallStraight => 9,
            Category::LargeStraight => 10,
            Category::FiveOfAKind => 11,
            Category::Chance => 12,
        }
    }

    /// The category at position `i` of the fixed order.
    pub fn at(i: usize) -> (c: Category)
        requires
            i < NUM_CATEGORIES,
        ensures
            c == Category::spec_at(i as int),
            c.spec_index() == i,
    {
        if i == 0 {
            Category::Ones
        } else if i == 1 {
            Category::Twos
        } else if i == 2 {
            Category::Threes
        } else if i == 3 {
            Category::Fours
        } else if i == 4 {
            Category::Fives
        } else if i == 5 {
            Category::Sixes
        } else if i == 6 {
            Category::ThreeOfAKind
        } else if i == 7 {
            Category::FourOfAKind
        } else if i == 8 {
            Category::FullHouse
        } else if i == 9 {
            Category::SmallStraight
        } else if i == 10 {
            Category::LargeStraight
        } else if i == 11 {
            Category::FiveOfAKind
        } else {
            Category::Chance
        }
    }

    /// Whether the category belongs to the upper section.
    pub fn in_upper_section(&self) -> (r: bool)
        ensures
            r == self.is_upper(),
    {
        self.index() < UPPER_SECTION_LEN
    }

    /// The short label shown for the category.
    pub fn name(&self) -> (r: &'static str)
        ensures
            r@ == self.spec_name(),
    {
        match self {
            Category::Ones => "⚀ 1s",
            Category::Twos => "⚁ 2s",
            Category::Threes => "⚂ 3s",
            Category::Fours => "⚃ 4s",
            Category::Fives => "⚄ 5s",
            Category::Sixes => "⚅ 6s",
            Category::ThreeOfAKind => "3 of a Kind",
            Category::FourOfAKind => "4 of a Kind",
            Category::FullHouse => "Full House",
            Category::SmallStraight => "Small Straight",
            Category::LargeStraight => "Large Straight",
            Category::FiveOfAKind => "5 of a Kind",
            Category::Chance => "Chance",
        }
    }
}

/// Every category sits at its own position of the order, and every position
/// below the count holds the category that reports it.
pub proof fn lemma_index_at(c: Category, i: int)
    ensures
        0 <= c.spec_index() < NUM_CATEGORIES,
        Category::spec_at(c.spec_index()) == c,
        0 <= i < NUM_CATEGORIES ==> Category::spec_at(i).spec_index() == i,
{
}

} // verus!
