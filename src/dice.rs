use itertools::Itertools;
use rand::Rng;
use vstd::prelude::*;

use crate::category::Category;

verus! {

/// Number of faces of a die.
pub const NUM_FACES: u8 = 6;

/// Number of dice in a set.
pub const NUM_DICE: usize = 5;

/// Number of dice showing face `f` in `s`.
pub open spec fn count_in(s: Seq<u8>, f: u8) -> nat
    decreases s.len(),
{
    if s.len() == 0 {
        0
    } else {
        count_in(s.drop_last(), f) + if s.last() == f {
            1nat
        } else {
            0nat
        }
    }
}

/// Sum of the pip values (face + 1) of the dice in `s`.
pub open spec fn pips_in(s: Seq<u8>) -> nat
    decreases s.len(),
{
    if s.len() == 0 {
        0
    } else {
        pips_in(s.drop_last()) + s.last() as nat + 1
    }
}

/// Some die of `s` shows face `f`.
pub open spec fn has_face(s: Seq<u8>, f: int) -> bool {
    exists|i: int| 0 <= i < s.len() && s[i] == f
}

/// At least `n` dice of `s` share a face.
pub open spec fn has_n_of_a_kind(s: Seq<u8>, n: nat) -> bool {
    exists|i: int| 0 <= i < s.len() && count_in(s, s[i]) >= n
}

/// Some face shows on exactly `n` dice of `s`.
pub open spec fn has_exact_count(s: Seq<u8>, n: nat) -> bool {
    exists|i: int| 0 <= i < s.len() && count_in(s, s[i]) == n
}

/// A face shows on exactly three dice and another on exactly two.
pub open spec fn is_full_house(s: Seq<u8>) -> bool {
    has_exact_count(s, 3) && has_exact_count(s, 2)
}

/// Faces `start`, `start + 1`, ..., `start + n - 1` all show in `s`.
pub open spec fn straight_at(s: Seq<u8>, start: int, n: int) -> bool {
    forall|k: int| 0 <= k < n ==> #[trigger] has_face(s, start + k)
}

/// Some run of `n` consecutive faces all show in `s`.
pub open spec fn has_straight(s: Seq<u8>, n: int) -> bool {
    exists|start: int| 0 <= start <= NUM_FACES - n && #[trigger] straight_at(s, start, n)
}

/// Every die of `s` shows the same face.
pub open spec fn all_same(s: Seq<u8>) -> bool {
    forall|i: int| 0 <= i < s.len() ==> #[trigger] s[i] == s[0]
}

/// The points that category `c` awards for the dice faces `s`.
pub open spec fn dice_score(s: Seq<u8>, c: Category) -> nat {
    match c {
        Category::Ones => count_in(s, 0),
        Category::Twos => count_in(s, 1) * 2,
        Category::Threes => count_in(s, 2) * 3,
        Category::Fours => count_in(s, 3) * 4,
        Category::Fives => count_in(s, 4) * 5,
        Category::Sixes => count_in(s, 5) * 6,
        Category::ThreeOfAKind => if has_n_of_a_kind(s, 3) {
            pips_in(s)
        } else {
            0
        },
        Category::FourOfAKind => if has_n_of_a_kind(s, 4) {
            pips_in(s)
        } else {
            0
        },
        Category::FullHouse => if is_full_house(s) {
            25
        } else {
            0
        },
        Category::SmallStraight => if has_straight(s, 4) {
            30
        } else {
            0
        },
        Category::LargeStraight => if has_straight(s, 5) {
            40
        } else {
            0
        },
        Category::FiveOfAKind => if all_same(s) {
            50
        } else {
            0
        },
        Category::Chance => pips_in(s),
    }
}

/// A sequence of five faces, each one of the six faces of a die.
pub open spec fn valid_faces(s: Seq<u8>) -> bool {
    s.len() == NUM_DICE && forall|i: int| 0 <= i < s.len() ==> #[trigger] s[i] < NUM_FACES
}

/// At most every die shows a given face.
pub proof fn lemma_count_bound(s: Seq<u8>, f: u8)
    ensures
        count_in(s, f) <= s.len(),
    decreases s.len(),
{
    if s.len() > 0 {
        lemma_count_bound(s.drop_last(), f);
    }
}

/// Each valid die adds one to six pips.
pub proof fn lemma_pips_bound(s: Seq<u8>)
    requires
        forall|i: int| 0 <= i < s.len() ==> #[trigger] s[i] < NUM_FACES,
    ensures
        s.len() <= pips_in(s) <= NUM_FACES * s.len(),
    decreases s.len(),
{
    if s.len() > 0 {
        let t = s.drop_last();
        assert forall|i: int| 0 <= i < t.len() implies #[trigger] t[i] < NUM_FACES by {
            assert(t[i] == s[i]);
        }
        lemma_pips_bound(t);
    }
}

/// No category awards more than fifty points to five valid dice.
pub proof fn lemma_score_bound(s: Seq<u8>, c: Category)
    requires
        valid_faces(s),
    ensures
        dice_score(s, c) <= 50,
{
    lemma_pips_bound(s);
    lemma_count_bound(s, 0);
    lemma_count_bound(s, 1);
    lemma_count_bound(s, 2);
    lemma_count_bound(s, 3);
    lemma_count_bound(s, 4);
    lemma_count_bound(s, 5);
}

/// Every die of `s` shows `f`, so the count of `f` is the number of dice.
pub proof fn lemma_count_all_same(s: Seq<u8>, f: u8)
    requires
        forall|i: int| 0 <= i < s.len() ==> #[trigger] s[i] == f,
    ensures
        count_in(s, f) == s.len(),
    decreases s.len(),
{
    if s.len() > 0 {
        let t = s.drop_last();
        assert forall|i: int| 0 <= i < t.len() implies #[trigger] t[i] == f by {
            assert(t[i] == s[i]);
        }
        lemma_count_all_same(t, f);
    }
}

/// Chance scores the pip sum of the five dice, which lies between 5 and 30.
pub proof fn lemma_chance_is_pip_sum(s: Seq<u8>)
    requires
        valid_faces(s),
    ensures
        dice_score(s, Category::Chance) == pips_in(s),
        5 <= dice_score(s, Category::Chance) <= 30,
{
    lemma_pips_bound(s);
}

/// The small straight scores 30 exactly when four consecutive faces show and
/// 0 otherwise, and every large straight is also a small straight.
pub proof fn lemma_straights(s: Seq<u8>)
    ensures
        dice_score(s, Category::SmallStraight) == 30 <==> has_straight(s, 4),
        dice_score(s, Category::SmallStraight) == 0 <==> !has_straight(s, 4),
        dice_score(s, Category::LargeStraight) == 40 <==> has_straight(s, 5),
        dice_score(s, Category::LargeStraight) == 0 <==> !has_straight(s, 5),
        has_straight(s, 5) ==> dice_score(s, Category::SmallStraight) == 30,
{
    if has_straight(s, 5) {
        let start = choose|start: int| 0 <= start <= NUM_FACES - 5 && #[trigger] straight_at(s, start, 5);
        assert(straight_at(s, start, 4));
    }
}

/// Five dice showing one face: five of a kind scores 50, three and four of a
/// kind score the sum of all five, and the full house scores nothing.
pub proof fn lemma_five_alike(s: Seq<u8>)
    requires
        valid_faces(s),
        all_same(s),
    ensures
        dice_score(s, Category::FiveOfAKind) == 50,
        dice_score(s, Category::ThreeOfAKind) == pips_in(s),
        dice_score(s, Category::FourOfAKind) == pips_in(s),
        dice_score(s, Category::FullHouse) == 0,
{
    lemma_count_all_same(s, s[0]);
    assert(count_in(s, s[0]) >= 4);
    assert forall|i: int| 0 <= i < s.len() implies count_in(s, #[trigger] s[i]) == 5 by {
        assert(s[i] == s[0]);
    }
}

/// Relies on rand's `thread_rng` and `Rng::gen_range(low, high)`, which
/// returns a value in `low..high` and panics only when `low >= high`.
#[verifier::external_body]
fn random_below(bound: u8) -> (r: u8)
    requires
        0 < bound,
    ensures
        r < bound,
{
    rand::thread_rng().gen_range(0, bound)
}

/// A single die: its face value, one less than its pip count.
#[derive(Clone, Copy, Debug, PartialEq, Eq, Structural)]
pub struct Dice(u8);

impl View for Dice {
    type V = u8;

    closed spec fn view(&self) -> u8 {
        self.0
    }
}

impl Dice {
    /// A die showing face `face` (0 for one pip, up to 5 for six).
    pub fn new(face: u8) -> (d: Dice)
        requires
            face < NUM_FACES,
        ensures
            d@ == face,
    {
        Dice(face)
    }

    /// The face value, one less than the pip count.
    pub fn face(&self) -> (r: u8)
        ensures
            r == self@,
    {
        self.0
    }

    /// A die drawn at random over the six faces.
    pub fn roll() -> (d: Dice)
        ensures
            d@ < NUM_FACES,
    {
        Dice(random_below(NUM_FACES))
    }
}

/// Relies on itertools' `Itertools::all_equal`: true exactly when every item
/// equals the first one.
#[verifier::external_body]
fn faces_all_equal(dice: &[Dice; NUM_DICE]) -> (r: bool)
    ensures
        r == (forall|i: int| 0 <= i < NUM_DICE ==> (#[trigger] dice@[i])@ == dice@[0]@),
{
    dice.iter().map(|d| d.0).all_equal()
}

/// Five dice, in slot order.
pub struct DiceSet(pub [Dice; NUM_DICE]);

impl View for DiceSet {
    type V = Seq<u8>;

    open spec fn view(&self) -> Seq<u8> {
        self.0@.map_values(|d: Dice| d@)
    }
}

impl DiceSet {
    /// Every die shows one of the six faces.
    pub open spec fn wf(&self) -> bool {
        forall|i: int| 0 <= i < NUM_DICE ==> #[trigger] self@[i] < NUM_FACES
    }

    /// A set of dice showing the given faces, in slot order.
    pub fn from_faces(faces: [u8; NUM_DICE]) -> (r: DiceSet)
        requires
            forall|i: int| 0 <= i < NUM_DICE ==> faces@[i] < NUM_FACES,
        ensures
            r@ == faces@,
            r.wf(),
    {
        let r = DiceSet(
            [
                Dice::new(faces[0]),
                Dice::new(faces[1]),
                Dice::new(faces[2]),
                Dice::new(faces[3]),
                Dice::new(faces[4]),
            ],
        );
        assert(r@ =~= faces@);
        r
    }

    /// Five dice drawn at random, each independently.
    pub fn roll() -> (r: DiceSet)
        ensures
            r.wf(),
    {
        let r = DiceSet([Dice::roll(), Dice::roll(), Dice::roll(), Dice::roll(), Dice::roll()]);
        r
    }

    /// The face of the die in slot `i`.
    pub fn face_at(&self, i: usize) -> (r: u8)
        requires
            i < NUM_DICE,
        ensures
            r == self@[i as int],
    {
        self.0[i].0
    }

    /// The points that `category` awards for these dice.
    pub fn score(&self, category: Category) -> (r: u32)
        ensures
            r == dice_score(self@, category),
    {
        match category {
            Category::Ones => self.count(0) as u32,
            Category::Twos => self.count(1) as u32 * 2,
            Category::Threes => self.count(2) as u32 * 3,
            Category::Fours => self.count(3) as u32 * 4,
            Category::Fives => self.count(4) as u32 * 5,
            Category::Sixes => self.count(5) as u32 * 6,
            Category::ThreeOfAKind => if self.matches_n_of_a_kind(3) {
                self.sum()
            } else {
                0
            },
            Category::FourOfAKind => if self.matches_n_of_a_kind(4) {
                self.sum()
            } else {
                0
            },
            Category::FullHouse => if self.matches_exact_count(3) && self.matches_exact_count(2) {
                25
            } else {
                0
            },
            Category::SmallStraight => if self.matches_straight(4) {
                30
            } else {
                0
            },
            Category::LargeStraight => if self.matches_straight(5) {
                40
            } else {
                0
            },
            Category::FiveOfAKind => {
                let same = faces_all_equal(&self.0);
                assert(forall|i: int| 0 <= i < NUM_DICE ==> #[trigger] self@[i] == self.0@[i]@);
                assert(same == all_same(self@)) by {
                    assert(self@.len() == NUM_DICE);
                    if !same {
                        let i = choose|i: int| 0 <= i < NUM_DICE && (#[trigger] self.0@[i])@ != self.0@[0]@;
                        assert(self@[i] != self@[0]);
                    }
                }
                if same {
                    50
                } else {
                    0
                }
            },
            Category::Chance => self.sum(),
        }
    }

    fn count(&self, face: u8) -> (r: usize)
        ensures
            r == count_in(self@, face),
            r <= NUM_DICE,
    {
        let ghost s = self@;
        let mut n: usize = 0;
        let mut i: usize = 0;
        while i < NUM_DICE
            invariant
                i <= NUM_DICE,
                s.len() == NUM_DICE,
                s == self@,
                n == count_in(s.take(i as int), face),
                n <= i,
            decreases NUM_DICE - i,
        {
            assert(s.take(i as int + 1).drop_last() =~= s.take(i as int));
            if self.0[i].0 == face {
                n += 1;
            }
            i += 1;
        }
        assert(s.take(NUM_DICE as int) =~= s);
        n
    }

    fn sum(&self) -> (r: u32)
        ensures
            r == pips_in(self@),
    {
        let ghost s = self@;
        let mut total: u32 = 0;
        let mut i: usize = 0;
        while i < NUM_DICE
            invariant
                i <= NUM_DICE,
                s.len() == NUM_DICE,
                s == self@,
                total == pips_in(s.take(i as int)),
                total <= 256 * i,
            decreases NUM_DICE - i,
        {
            assert(s.take(i as int + 1).drop_last() =~= s.take(i as int));
            total += self.0[i].0 as u32 + 1;
            i += 1;
        }
        assert(s.take(NUM_DICE as int) =~= s);
        total
    }

    fn contains_face(&self, face: u8) -> (r: bool)
        ensures
            r == has_face(self@, face as int),
    {
        let mut i: usize = 0;
        while i < NUM_DICE
            invariant
                i <= NUM_DICE,
                self@.len() == NUM_DICE,
                forall|j: int| 0 <= j < i ==> self@[j] != face,
            decreases NUM_DICE - i,
        {
            if self.0[i].0 == face {
                assert(self@[i as int] == face);
                return true;
            }
            i += 1;
        }
        false
    }

    fn matches_n_of_a_kind(&self, n: usize) -> (r: bool)
        ensures
            r == has_n_of_a_kind(self@, n as nat),
    {
        let mut i: usize = 0;
        while i < NUM_DICE
            invariant
                i <= NUM_DICE,
                self@.len() == NUM_DICE,
                forall|j: int| 0 <= j < i ==> count_in(self@, self@[j]) < n,
            decreases NUM_DICE - i,
        {
            if self.count(self.0[i].0) >= n {
                assert(count_in(self@, self@[i as int]) >= n);
                return true;
            }
            i += 1;
        }
        false
    }

    fn matches_exact_count(&self, n: usize) -> (r: bool)
        ensures
            r == has_exact_count(self@, n as nat),
    {
        let mut i: usize = 0;
        while i < NUM_DICE
            invariant
                i <= NUM_DICE,
                self@.len() == NUM_DICE,
                forall|j: int| 0 <= j < i ==> count_in(self@, self@[j]) != n,
            decreases NUM_DICE - i,
        {
            if self.count(self.0[i].0) == n {
                assert(count_in(self@, self@[i as int]) == n);
                return true;
            }
            i += 1;
        }
        false
    }

    fn matches_straight(&self, n: u8) -> (r: bool)
        requires
            1 <= n <= NUM_FACES,
        ensures
            r == has_straight(self@, n as int),
    {
        let mut start: u8 = 0;
        while start + n <= NUM_FACES
            invariant
                1 <= n <= NUM_FACES,
                start <= NUM_FACES,
                forall|st: int| 0 <= st < start ==> !#[trigger] straight_at(self@, st, n as int),
            decreases NUM_FACES - start,
        {
            let mut k: u8 = 0;
            let mut found_all = true;
            while k < n
                invariant
                    k <= n,
                    start + n <= NUM_FACES,
                    found_all == (forall|j: int| 0 <= j < k ==> #[trigger] has_face(self@, start + j)),
                decreases n - k,
            {
                let present = self.contains_face(start + k);
                if !present {
                    found_all = false;
                }
                assert(found_all == (forall|j: int| 0 <= j < k + 1 ==> #[trigger] has_face(self@, start + j))) by {
                    if !present {
                        assert(!has_face(self@, start + k as int));
                    }
                }
                k += 1;
            }
            if found_all {
                assert(straight_at(self@, start as int, n as int));
                return true;
            }
            start += 1;
        }
        false
    }
}

} // verus!
