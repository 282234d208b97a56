use vstd::prelude::*;

use crate::category::{lemma_index_at, Category, NUM_CATEGORIES};
use crate::dice::{all_same, dice_score, lemma_score_bound, valid_faces, DiceSet};

verus! {

/// Largest value the five-of-a-kind entry may reach through repeated bonus
/// commits; it keeps every total within `u32`.
pub const ENTRY_LIMIT: u32 = 4000000000;

/// Upper-section sum above which the bonus is awarded.
pub const BONUS_THRESHOLD: u32 = 62;

/// Points of the upper-section bonus.
pub const BONUS_POINTS: u32 = 35;

/// The recorded entry of `c`, or zero while it is open.
pub open spec fn entry_or_zero(m: Map<Category, u32>, c: Category) -> int {
    if m.contains_key(c) {
        m[c] as int
    } else {
        0
    }
}

/// Sum of the recorded upper-section entries.
pub open spec fn upper_sum(m: Map<Category, u32>) -> int {
    entry_or_zero(m, Category::Ones) + entry_or_zero(m, Category::Twos) + entry_or_zero(
        m,
        Category::Threes,
    ) + entry_or_zero(m, Category::Fours) + entry_or_zero(m, Category::Fives) + entry_or_zero(
        m,
        Category::Sixes,
    )
}

/// Sum of the recorded lower-section entries.
pub open spec fn lower_sum(m: Map<Category, u32>) -> int {
    entry_or_zero(m, Category::ThreeOfAKind) + entry_or_zero(m, Category::FourOfAKind)
        + entry_or_zero(m, Category::FullHouse) + entry_or_zero(m, Category::SmallStraight)
        + entry_or_zero(m, Category::LargeStraight) + entry_or_zero(m, Category::FiveOfAKind)
        + entry_or_zero(m, Category::Chance)
}

/// The upper-section bonus: awarded when the upper sum exceeds the threshold.
pub open spec fn bonus(m: Map<Category, u32>) -> int {
    if upper_sum(m) > BONUS_THRESHOLD {
        BONUS_POINTS as int
    } else {
        0
    }
}

/// Every category has an entry.
pub open spec fn is_finished(m: Map<Category, u32>) -> bool {
    forall|c: Category| #[trigger] m.contains_key(c)
}

/// Category `c` may be chosen with dice faces `s`: it is open, or it is the
/// five-of-a-kind category with a positive entry and `s` is again five of a kind.
pub open spec fn is_available(m: Map<Category, u32>, c: Category, s: Seq<u8>) -> bool {
    !m.contains_key(c) || (c == Category::FiveOfAKind && m[c] > 0 && dice_score(s, c) > 0)
}

/// Choosing `c` is within the rules: it is open, or it is the five-of-a-kind
/// category with a positive entry, onto which further points accumulate.
pub open spec fn is_choosable(m: Map<Category, u32>, c: Category) -> bool {
    !m.contains_key(c) || (c == Category::FiveOfAKind && m[c] > 0)
}

/// The entries after choosing `c` with dice faces `s`: the score is recorded
/// for an open category, or added onto the existing entry.
pub open spec fn after_choice(m: Map<Category, u32>, c: Category, s: Seq<u8>) -> Map<Category, u32> {
    m.insert(c, (entry_or_zero(m, c) + dice_score(s, c)) as u32)
}

/// Choosing an open category adds exactly that one entry, holding the
/// score of the dice, and leaves every other entry as it was; choosing the
/// same category again is outside the rules unless it is the five-of-a-kind
/// category with a positive entry.
pub proof fn lemma_choice_adds_one_entry(m: Map<Category, u32>, c: Category, s: Seq<u8>)
    requires
        !m.contains_key(c),
        valid_faces(s),
    ensures
        after_choice(m, c, s).dom() == m.dom().insert(c),
        after_choice(m, c, s)[c] == dice_score(s, c),
        forall|d: Category| d != c && #[trigger] m.contains_key(d) ==> after_choice(m, c, s)[d] == m[d],
        c != Category::FiveOfAKind ==> !is_choosable(after_choice(m, c, s), c),
{
    lemma_score_bound(s, c);
    assert(after_choice(m, c, s).dom() =~= m.dom().insert(c));
}

/// The five-of-a-kind bonus: the first genuine five of a kind records 50;
/// once the entry is positive the category is available again exactly when
/// the dice are again five alike, and choosing it then adds 50 more.
pub proof fn lemma_five_of_a_kind_bonus(m: Map<Category, u32>, s: Seq<u8>)
    requires
        valid_faces(s),
        entry_or_zero(m, Category::FiveOfAKind) + 50 <= ENTRY_LIMIT,
    ensures
        !m.contains_key(Category::FiveOfAKind) && all_same(s) ==> after_choice(
            m,
            Category::FiveOfAKind,
            s,
        )[Category::FiveOfAKind] == 50,
        m.contains_key(Category::FiveOfAKind) && m[Category::FiveOfAKind] > 0 ==> (is_available(
            m,
            Category::FiveOfAKind,
            s,
        ) <==> all_same(s)),
        m.contains_key(Category::FiveOfAKind) && m[Category::FiveOfAKind] > 0 && all_same(s)
            ==> after_choice(m, Category::FiveOfAKind, s)[Category::FiveOfAKind]
            == m[Category::FiveOfAKind] + 50,
{
}

/// The bonus needs an upper sum above 62: a sum of 62 earns nothing, one of
/// 63 earns 35, and open categories count as zero.
pub proof fn lemma_bonus_threshold(m: Map<Category, u32>)
    ensures
        upper_sum(m) == 62 ==> bonus(m) == 0,
        upper_sum(m) == 63 ==> bonus(m) == 35,
        upper_sum(m) <= 62 <==> bonus(m) == 0,
        forall|c: Category| !#[trigger] m.contains_key(c) ==> entry_or_zero(m, c) == 0,
{
}

/// A finished scoreboard stays finished whatever is chosen next, and the
/// choice that fills the last open category finishes it.
pub proof fn lemma_finish_is_final(m: Map<Category, u32>, c: Category, s: Seq<u8>)
    ensures
        is_finished(m) ==> is_finished(after_choice(m, c, s)),
        !m.contains_key(c) ==> !is_finished(m),
        (forall|d: Category| d != c ==> #[trigger] m.contains_key(d)) ==> is_finished(
            after_choice(m, c, s),
        ),
{
    assert(is_finished(m) ==> is_finished(after_choice(m, c, s))) by {
        if is_finished(m) {
            assert forall|d: Category| #[trigger] after_choice(m, c, s).contains_key(d) by {
                assert(m.contains_key(d));
            }
        }
    }
    assert((forall|d: Category| d != c ==> #[trigger] m.contains_key(d)) ==> is_finished(
        after_choice(m, c, s),
    )) by {
        if forall|d: Category| d != c ==> #[trigger] m.contains_key(d) {
            assert forall|d: Category| #[trigger] after_choice(m, c, s).contains_key(d) by {
                if d != c {
                    assert(m.contains_key(d));
                }
            }
        }
    }
}

/// The recorded entry of each category, indexed by its position in the order.
pub struct Scoreboard([Option<u32>; NUM_CATEGORIES]);

impl View for Scoreboard {
    type V = Map<Category, u32>;

    closed spec fn view(&self) -> Map<Category, u32> {
        Map::new(
            |c: Category| self.0@[c.spec_index()].is_some(),
            |c: Category| self.0@[c.spec_index()].unwrap(),
        )
    }
}

impl Scoreboard {
    /// Each entry is at most 50, the most any category awards to one roll,
    /// but for the five-of-a-kind entry, which stays within the limit.
    pub open spec fn wf(&self) -> bool {
        forall|c: Category| #[trigger]
            self@.contains_key(c) ==> self@[c] <= if c == Category::FiveOfAKind {
                ENTRY_LIMIT
            } else {
                50
            }
    }

    /// An empty scoreboard: every category open.
    pub fn new() -> (r: Self)
        ensures
            r@ == Map::<Category, u32>::empty(),
            r.wf(),
    {
        let r = Scoreboard([None; NUM_CATEGORIES]);
        assert(r@ =~= Map::<Category, u32>::empty());
        r
    }

    /// Whether every category has an entry.
    pub fn game_is_finished(&self) -> (r: bool)
        ensures
            r == is_finished(self@),
    {
        let mut i: usize = 0;
        while i < NUM_CATEGORIES
            invariant
                i <= NUM_CATEGORIES,
                forall|j: int| 0 <= j < i ==> self@.contains_key(#[trigger] Category::spec_at(j)),
            decreases NUM_CATEGORIES - i,
        {
            let c = Category::at(i);
            if self.0[i].is_none() {
                assert(!self@.contains_key(c));
                return false;
            }
            i += 1;
        }
        assert forall|c: Category| #[trigger] self@.contains_key(c) by {
            lemma_index_at(c, 0);
            assert(self@.contains_key(Category::spec_at(c.spec_index())));
        }
        true
    }

    /// Whether `category` may be chosen now with `dice_set`.
    pub fn category_is_available(&self, category: Category, dice_set: &DiceSet) -> (r: bool)
        ensures
            r == is_available(self@, category, dice_set@),
    {
        match self.0[category.index()] {
            None => true,
            Some(score) => category == Category::FiveOfAKind && score > 0 && dice_set.score(
                category,
            ) > 0,
        }
    }

    /// Whether choosing `category` with `dice_set` is within the rules and
    /// keeps the five-of-a-kind entry within the limit.
    pub fn can_choose(&self, category: Category, dice_set: &DiceSet) -> (r: bool)
        requires
            dice_set.wf(),
        ensures
            r == (is_choosable(self@, category) && entry_or_zero(self@, category)
                + dice_score(dice_set@, category) <= ENTRY_LIMIT),
    {
        proof {
            lemma_score_bound(dice_set@, category);
        }
        match self.0[category.index()] {
            None => true,
            Some(score) => category == Category::FiveOfAKind && score > 0 && score
                <= ENTRY_LIMIT - dice_set.score(category),
        }
    }

    /// Records the score of `dice_set` for `category`: inserted when the
    /// category is open, added onto the five-of-a-kind entry otherwise.
    pub fn choose_category(&mut self, category: Category, dice_set: &DiceSet)
        requires
            old(self).wf(),
            dice_set.wf(),
            is_choosable(old(self)@, category),
            entry_or_zero(old(self)@, category) + dice_score(dice_set@, category) <= ENTRY_LIMIT,
        ensures
            final(self).wf(),
            final(self)@ == after_choice(old(self)@, category, dice_set@),
            final(self)@.dom() == old(self)@.dom().insert(category),
            is_finished(old(self)@) ==> is_finished(final(self)@),
            category != Category::FiveOfAKind ==> !is_choosable(final(self)@, category),
            category == Category::FiveOfAKind && old(self)@.contains_key(category) && all_same(
                dice_set@,
            ) ==> final(self)@[category] == old(self)@[category] + 50,
    {
        let score = dice_set.score(category);
        proof {
            lemma_score_bound(dice_set@, category);
        }
        let i = category.index();
        let ghost before = self@;
        match self.0[i] {
            Some(existing) => {
                self.0[i] = Some(existing + score);
            },
            None => {
                self.0[i] = Some(score);
            },
        }
        proof {
            assert forall|c: Category| #[trigger] self@.contains_key(c) == after_choice(before, category, dice_set@).contains_key(c) by {
                lemma_index_at(c, 0);
                lemma_index_at(category, 0);
            }
            assert forall|c: Category| self@.contains_key(c) implies #[trigger] self@[c] == after_choice(before, category, dice_set@)[c] by {
                lemma_index_at(c, 0);
                lemma_index_at(category, 0);
            }
            assert(self@ =~= after_choice(before, category, dice_set@));
            assert(self@.dom() =~= before.dom().insert(category));
            lemma_finish_is_final(before, category, dice_set@);
        }
    }

    /// The recorded entry of `category`, if any.
    pub fn category_score(&self, category: Category) -> (r: Option<u32>)
        ensures
            r == (if self@.contains_key(category) {
                Some(self@[category])
            } else {
                None
            }),
    {
        self.0[category.index()]
    }

    fn entry(&self, category: Category) -> (r: u32)
        ensures
            r == entry_or_zero(self@, category),
    {
        match self.0[category.index()] {
            Some(score) => score,
            None => 0,
        }
    }

    /// The upper-section bonus.
    pub fn upper_section_bonus(&self) -> (r: u32)
        requires
            self.wf(),
        ensures
            r == bonus(self@),
    {
        if self.basic_total() > BONUS_THRESHOLD {
            BONUS_POINTS
        } else {
            0
        }
    }

    /// The upper-section sum plus its bonus.
    pub fn upper_total(&self) -> (r: u32)
        requires
            self.wf(),
        ensures
            r == upper_sum(self@) + bonus(self@),
            r <= 335,
    {
        self.basic_total() + self.upper_section_bonus()
    }

    /// Sum of the recorded lower-section entries.
    pub fn lower_total(&self) -> (r: u32)
        requires
            self.wf(),
        ensures
            r == lower_sum(self@),
            r <= ENTRY_LIMIT + 300,
    {
        self.entry(Category::ThreeOfAKind) + self.entry(Category::FourOfAKind) + self.entry(
            Category::FullHouse,
        ) + self.entry(Category::SmallStraight) + self.entry(Category::LargeStraight) + self.entry(
            Category::FiveOfAKind,
        ) + self.entry(Category::Chance)
    }

    /// Upper total plus lower total.
    pub fn grand_total(&self) -> (r: u32)
        requires
            self.wf(),
        ensures
            r == upper_sum(self@) + bonus(self@) + lower_sum(self@),
    {
        self.upper_total() + self.lower_total()
    }

    fn basic_total(&self) -> (r: u32)
        requires
            self.wf(),
        ensures
            r == upper_sum(self@),
            r <= 300,
    {
        self.entry(Category::Ones) + self.entry(Category::Twos) + self.entry(Category::Threes)
            + self.entry(Category::Fours) + self.entry(Category::Fives) + self.entry(
            Category::Sixes,
        )
    }
}

} // verus!
