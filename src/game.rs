use vstd::prelude::*;

use crate::category::{lemma_index_at, Category, NUM_CATEGORIES};
use crate::dice::{dice_score, DiceSet, NUM_DICE};
use crate::scoreboard::{
    after_choice, entry_or_zero, is_available, is_choosable, is_finished, Scoreboard, ENTRY_LIMIT,
};

verus! {

/// Rolls allowed in one turn, the first included.
pub const MAX_ROLLS: usize = 3;

/// Steps forward, wrapping around the category order, from position `from`
/// to position `to`.
pub open spec fn forward_gap(from: int, to: int) -> int {
    if from <= to {
        to - from
    } else {
        to - from + NUM_CATEGORIES
    }
}

/// The category `k` steps forward of position `start` is not available.
pub open spec fn blocked_forward(m: Map<Category, u32>, s: Seq<u8>, start: int, k: int) -> bool {
    !is_available(m, Category::spec_at((start + k) % (NUM_CATEGORIES as int)), s)
}

/// The category `k` steps back of position `start` is not available.
pub open spec fn blocked_backward(m: Map<Category, u32>, s: Seq<u8>, start: int, k: int) -> bool {
    !is_available(
        m,
        Category::spec_at((start - k + NUM_CATEGORIES) % (NUM_CATEGORIES as int)),
        s,
    )
}

/// Position `j` is the first available category met going forward from
/// position `start`, `start` included.
pub open spec fn first_available_forward(m: Map<Category, u32>, s: Seq<u8>, start: int, j: int) -> bool {
    &&& 0 <= j < NUM_CATEGORIES
    &&& is_available(m, Category::spec_at(j), s)
    &&& forall|k: int| 0 <= k < forward_gap(start, j) ==> #[trigger] blocked_forward(m, s, start, k)
}

/// Position `j` is the first available category met going backward from
/// position `start`, `start` included.
pub open spec fn first_available_backward(m: Map<Category, u32>, s: Seq<u8>, start: int, j: int) -> bool {
    &&& 0 <= j < NUM_CATEGORIES
    &&& is_available(m, Category::spec_at(j), s)
    &&& forall|k: int| 0 <= k < forward_gap(j, start) ==> #[trigger] blocked_backward(m, s, start, k)
}

/// Some category is still open when the scoreboard is not finished.
proof fn lemma_open_position(m: Map<Category, u32>) -> (j: int)
    requires
        !is_finished(m),
    ensures
        0 <= j < NUM_CATEGORIES,
        !m.contains_key(Category::spec_at(j)),
{
    let c = choose|c: Category| !#[trigger] m.contains_key(c);
    lemma_index_at(c, 0);
    c.spec_index()
}

/// Some category is available while the scoreboard is not finished.
proof fn lemma_some_available(m: Map<Category, u32>, s: Seq<u8>)
    requires
        !is_finished(m),
    ensures
        exists|t: int| 0 <= t < NUM_CATEGORIES && #[trigger] is_available(m, Category::spec_at(t), s),
{
    let t = lemma_open_position(m);
    assert(is_available(m, Category::spec_at(t), s));
}

/// One step forward from a position short of the target lengthens the gap
/// from `start` by one.
proof fn lemma_gap_forward(start: int, i: int, target: int)
    requires
        0 <= start < NUM_CATEGORIES,
        0 <= i < NUM_CATEGORIES,
        0 <= target < NUM_CATEGORIES,
        i != target,
        forward_gap(start, i) <= forward_gap(start, target),
        (start + forward_gap(start, i)) % (NUM_CATEGORIES as int) == i,
    ensures
        forward_gap(start, (i + 1) % (NUM_CATEGORIES as int)) == forward_gap(start, i) + 1,
        (start + forward_gap(start, i) + 1) % (NUM_CATEGORIES as int) == (i + 1) % (
        NUM_CATEGORIES as int),
        forward_gap(start, (i + 1) % (NUM_CATEGORIES as int)) <= forward_gap(start, target),
{
}

/// One step backward from a position short of the target lengthens the gap
/// to `start` by one.
proof fn lemma_gap_backward(start: int, i: int, target: int)
    requires
        0 <= start < NUM_CATEGORIES,
        0 <= i < NUM_CATEGORIES,
        0 <= target < NUM_CATEGORIES,
        i != target,
        forward_gap(i, start) <= forward_gap(target, start),
        (start - forward_gap(i, start) + NUM_CATEGORIES) % (NUM_CATEGORIES as int) == i,
    ensures
        forward_gap((i + NUM_CATEGORIES - 1) % (NUM_CATEGORIES as int), start) == forward_gap(
            i,
            start,
        ) + 1,
        (start - (forward_gap(i, start) + 1) + NUM_CATEGORIES) % (NUM_CATEGORIES as int) == (i
            + NUM_CATEGORIES - 1) % (NUM_CATEGORIES as int),
        forward_gap((i + NUM_CATEGORIES - 1) % (NUM_CATEGORIES as int), start) <= forward_gap(
            target,
            start,
        ),
{
}

/// The digit key `c` names die slot `r`: keys 1 to 5 stand for slots 0 to 4.
pub open spec fn spec_dice_number(c: char) -> Option<usize> {
    if '1' <= c && c <= '5' {
        Some((c as int - '1' as int) as usize)
    } else {
        None
    }
}

/// The die slot that digit key `c` names, if any.
pub fn parse_dice_number(c: char) -> (r: Option<usize>)
    ensures
        r == spec_dice_number(c),
        r matches Some(d) ==> d < NUM_DICE,
{
    if '1' <= c && c <= '5' {
        Some((c as u32 - '1' as u32) as usize)
    } else {
        None
    }
}

/// One game session: the dice of the current turn, the scoreboard, the roll
/// count, the category cursor and the hold flags of the dice.
pub struct Game {
    dice_set: DiceSet,
    scoreboard: Scoreboard,
    roll_count: usize,
    selected_category_index: Option<usize>,
    dice_selected: [bool; NUM_DICE],
}

impl Game {
    /// Faces of the current dice.
    pub closed spec fn dice(&self) -> Seq<u8> {
        self.dice_set@
    }

    /// Recorded entries of the scoreboard.
    pub closed spec fn board(&self) -> Map<Category, u32> {
        self.scoreboard@
    }

    /// Rolls made in the current turn.
    pub closed spec fn rolls(&self) -> int {
        self.roll_count as int
    }

    /// Position of the category cursor; none once the game is finished.
    pub closed spec fn cursor(&self) -> Option<usize> {
        self.selected_category_index
    }

    /// Hold flags of the dice, in slot order.
    pub closed spec fn held(&self) -> Seq<bool> {
        self.dice_selected@
    }

    /// The session is consistent: valid dice and scoreboard, a roll count
    /// from one to the maximum, and a cursor that is none exactly when the
    /// game is finished and otherwise rests on a category that may be chosen.
    pub closed spec fn wf(&self) -> bool {
        &&& self.dice_set.wf()
        &&& self.scoreboard.wf()
        &&& 1 <= self.roll_count <= MAX_ROLLS
        &&& (self.selected_category_index is None <==> is_finished(self.scoreboard@))
        &&& (self.selected_category_index matches Some(i) ==> i < NUM_CATEGORIES && is_choosable(
            self.scoreboard@,
            Category::spec_at(i as int),
        ))
    }

    /// No die is held.
    pub open spec fn none_held(&self) -> bool {
        forall|i: int| 0 <= i < NUM_DICE ==> !#[trigger] self.held()[i]
    }

    /// A new session with random dice.
    pub fn new() -> (r: Game)
        ensures
            r.wf(),
            r.board() == Map::<Category, u32>::empty(),
            r.rolls() == 1,
            r.cursor() == Some(0usize),
            r.none_held(),
    {
        Game::start_with(DiceSet::roll())
    }

    /// A new session whose first roll is `dice_set`.
    pub fn start_with(dice_set: DiceSet) -> (r: Game)
        requires
            dice_set.wf(),
        ensures
            r.wf(),
            r.dice() == dice_set@,
            r.board() == Map::<Category, u32>::empty(),
            r.rolls() == 1,
            r.cursor() == Some(0usize),
            r.none_held(),
    {
        let r = Game {
            dice_set,
            scoreboard: Scoreboard::new(),
            roll_count: 1,
            selected_category_index: Some(0),
            dice_selected: [false; NUM_DICE],
        };
        assert(!is_finished(r.scoreboard@)) by {
            assert(!r.scoreboard@.contains_key(Category::Ones));
        }
        r
    }

    fn select_next_available_category(&mut self)
        requires
            old(self).selected_category_index matches Some(i) && i < NUM_CATEGORIES,
            exists|t: int|
                0 <= t < NUM_CATEGORIES && #[trigger] is_available(
                    old(self).scoreboard@,
                    Category::spec_at(t),
                    old(self).dice_set@,
                ),
        ensures
            final(self).dice_set == old(self).dice_set,
            final(self).scoreboard == old(self).scoreboard,
            final(self).roll_count == old(self).roll_count,
            final(self).dice_selected == old(self).dice_selected,
            final(self).selected_category_index matches Some(j) && first_available_forward(
                old(self).scoreboard@,
                old(self).dice_set@,
                old(self).selected_category_index.unwrap() as int,
                j as int,
            ),
    {
        let ghost m = self.scoreboard@;
        let ghost s = self.dice_set@;
        let start = self.selected_category_index.unwrap();
        let ghost target = choose|t: int|
            0 <= t < NUM_CATEGORIES && #[trigger] is_available(m, Category::spec_at(t), s);
        let mut i = start;
        let mut found = self.scoreboard.category_is_available(Category::at(i), &self.dice_set);
        while !found
            invariant
                i < NUM_CATEGORIES,
                start < NUM_CATEGORIES,
                0 <= target < NUM_CATEGORIES,
                m == self.scoreboard@,
                s == self.dice_set@,
                is_available(m, Category::spec_at(target), s),
                found == is_available(m, Category::spec_at(i as int), s),
                forward_gap(start as int, i as int) <= forward_gap(start as int, target),
                (start + forward_gap(start as int, i as int)) % (NUM_CATEGORIES as int) == i,
                forall|k: int|
                    0 <= k < forward_gap(start as int, i as int) ==> #[trigger] blocked_forward(
                        m,
                        s,
                        start as int,
                        k,
                    ),
            decreases forward_gap(start as int, target) - forward_gap(start as int, i as int),
        {
            assert(blocked_forward(m, s, start as int, forward_gap(start as int, i as int)));
            proof {
                lemma_gap_forward(start as int, i as int, target);
            }
            i = (i + 1) % NUM_CATEGORIES;
            found = self.scoreboard.category_is_available(Category::at(i), &self.dice_set);
        }
        self.selected_category_index = Some(i);
    }

    fn select_prev_available_category(&mut self)
        requires
            old(self).selected_category_index matches Some(i) && i < NUM_CATEGORIES,
            exists|t: int|
                0 <= t < NUM_CATEGORIES && #[trigger] is_available(
                    old(self).scoreboard@,
                    Category::spec_at(t),
                    old(self).dice_set@,
                ),
        ensures
            final(self).dice_set == old(self).dice_set,
            final(self).scoreboard == old(self).scoreboard,
            final(self).roll_count == old(self).roll_count,
            final(self).dice_selected == old(self).dice_selected,
            final(self).selected_category_index matches Some(j) && first_available_backward(
                old(self).scoreboard@,
                old(self).dice_set@,
                old(self).selected_category_index.unwrap() as int,
                j as int,
            ),
    {
        let ghost m = self.scoreboard@;
        let ghost s = self.dice_set@;
        let start = self.selected_category_index.unwrap();
        let ghost target = choose|t: int|
            0 <= t < NUM_CATEGORIES && #[trigger] is_available(m, Category::spec_at(t), s);
        let mut i = start;
        let mut found = self.scoreboard.category_is_available(Category::at(i), &self.dice_set);
        while !found
            invariant
                i < NUM_CATEGORIES,
                start < NUM_CATEGORIES,
                0 <= target < NUM_CATEGORIES,
                m == self.scoreboard@,
                s == self.dice_set@,
                is_available(m, Category::spec_at(target), s),
                found == is_available(m, Category::spec_at(i as int), s),
                forward_gap(i as int, start as int) <= forward_gap(target, start as int),
                (start - forward_gap(i as int, start as int) + NUM_CATEGORIES) % (
                NUM_CATEGORIES as int) == i,
                forall|k: int|
                    0 <= k < forward_gap(i as int, start as int) ==> #[trigger] blocked_backward(
                        m,
                        s,
                        start as int,
                        k,
                    ),
            decreases forward_gap(target, start as int) - forward_gap(i as int, start as int),
        {
            assert(blocked_backward(m, s, start as int, forward_gap(i as int, start as int)));
            proof {
                lemma_gap_backward(start as int, i as int, target);
            }
            i = (i + NUM_CATEGORIES - 1) % NUM_CATEGORIES;
            found = self.scoreboard.category_is_available(Category::at(i), &self.dice_set);
        }
        self.selected_category_index = Some(i);
    }

    /// The cursor is none exactly when the game is finished, and otherwise
    /// names a position of the category order.
    pub proof fn lemma_cursor_tracks_finish(&self)
        requires
            self.wf(),
        ensures
            self.cursor() is None <==> is_finished(self.board()),
            self.cursor() matches Some(i) ==> i < NUM_CATEGORIES,
            1 <= self.rolls() <= MAX_ROLLS,
    {
    }

    /// There is one hold flag for each die slot.
    pub proof fn lemma_held_len(&self)
        ensures
            self.held().len() == NUM_DICE,
    {
    }

    /// The current dice.
    pub fn dice_set(&self) -> (r: &DiceSet)
        ensures
            r@ == self.dice(),
            self.wf() ==> r.wf(),
    {
        &self.dice_set
    }

    /// The scoreboard.
    pub fn scoreboard(&self) -> (r: &Scoreboard)
        ensures
            r@ == self.board(),
            self.wf() ==> r.wf(),
    {
        &self.scoreboard
    }

    /// Rolls made in the current turn.
    pub fn roll_count(&self) -> (r: usize)
        ensures
            r == self.rolls(),
    {
        self.roll_count
    }

    /// Position of the category cursor; none once the game is finished.
    pub fn selected_category_index(&self) -> (r: Option<usize>)
        ensures
            r == self.cursor(),
    {
        self.selected_category_index
    }

    /// Whether the die in slot `i` is held for the next re-roll.
    pub fn is_held(&self, i: usize) -> (r: bool)
        requires
            i < NUM_DICE,
        ensures
            r == self.held()[i as int],
    {
        self.dice_selected[i]
    }

    /// Whether some die is held for the next re-roll.
    pub fn any_held(&self) -> (r: bool)
        ensures
            r == !self.none_held(),
    {
        let mut i: usize = 0;
        while i < NUM_DICE
            invariant
                i <= NUM_DICE,
                forall|j: int| 0 <= j < i ==> !#[trigger] self.held()[j],
            decreases NUM_DICE - i,
        {
            if self.dice_selected[i] {
                assert(self.held()[i as int]);
                return true;
            }
            i += 1;
        }
        false
    }

    /// Whether every category has an entry.
    pub fn game_is_finished(&self) -> (r: bool)
        ensures
            r == is_finished(self.board()),
    {
        self.scoreboard.game_is_finished()
    }

    /// The points shown beside `category`: its entry, plus what the current
    /// dice would add while the category is available.
    pub fn shown_score(&self, category: Category) -> (r: u32)
        requires
            self.wf(),
        ensures
            r == entry_or_zero(self.board(), category) + if is_available(
                self.board(),
                category,
                self.dice(),
            ) {
                dice_score(self.dice(), category)
            } else {
                0
            },
    {
        proof {
            crate::dice::lemma_score_bound(self.dice_set@, category);
        }
        let recorded = match self.scoreboard.category_score(category) {
            Some(score) => score,
            None => 0,
        };
        if self.scoreboard.category_is_available(category, &self.dice_set) {
            recorded + self.dice_set.score(category)
        } else {
            recorded
        }
    }

    /// Moves the cursor one step back, wrapping around, then on backward to
    /// the first available category. No effect once the game is finished.
    pub fn on_up(&mut self)
        requires
            old(self).wf(),
        ensures
            final(self).wf(),
            final(self).dice() == old(self).dice(),
            final(self).board() == old(self).board(),
            final(self).rolls() == old(self).rolls(),
            final(self).held() == old(self).held(),
            old(self).cursor() is None ==> final(self).cursor() is None,
            old(self).cursor() matches Some(i) ==> (final(self).cursor() matches Some(j)
                && first_available_backward(
                old(self).board(),
                old(self).dice(),
                (i + NUM_CATEGORIES - 1) % (NUM_CATEGORIES as int),
                j as int,
            )),
    {
        if let Some(i) = self.selected_category_index {
            self.selected_category_index = Some((i + NUM_CATEGORIES - 1) % NUM_CATEGORIES);
            proof {
                lemma_some_available(self.scoreboard@, self.dice_set@);
            }
            self.select_prev_available_category();
        }
    }

    /// Moves the cursor one step forward, wrapping around, then on forward to
    /// the first available category. No effect once the game is finished.
    pub fn on_down(&mut self)
        requires
            old(self).wf(),
        ensures
            final(self).wf(),
            final(self).dice() == old(self).dice(),
            final(self).board() == old(self).board(),
            final(self).rolls() == old(self).rolls(),
            final(self).held() == old(self).held(),
            old(self).cursor() is None ==> final(self).cursor() is None,
            old(self).cursor() matches Some(i) ==> (final(self).cursor() matches Some(j)
                && first_available_forward(
                old(self).board(),
                old(self).dice(),
                (i + 1) % (NUM_CATEGORIES as int),
                j as int,
            )),
    {
        if let Some(i) = self.selected_category_index {
            self.selected_category_index = Some((i + 1) % NUM_CATEGORIES);
            proof {
                lemma_some_available(self.scoreboard@, self.dice_set@);
            }
            self.select_next_available_category();
        }
    }

    /// Moves the cursor to the first available category from the start of
    /// the order. No effect once the game is finished.
    pub fn on_home(&mut self)
        requires
            old(self).wf(),
        ensures
            final(self).wf(),
            final(self).dice() == old(self).dice(),
            final(self).board() == old(self).board(),
            final(self).rolls() == old(self).rolls(),
            final(self).held() == old(self).held(),
            old(self).cursor() is None ==> final(self).cursor() is None,
            old(self).cursor() is Some ==> (final(self).cursor() matches Some(j)
                && first_available_forward(old(self).board(), old(self).dice(), 0, j as int)),
    {
        if self.selected_category_index.is_some() {
            self.selected_category_index = Some(0);
            proof {
                lemma_some_available(self.scoreboard@, self.dice_set@);
            }
            self.select_next_available_category();
        }
    }

    /// Moves the cursor to the first available category from the end of the
    /// order, going backward. No effect once the game is finished.
    pub fn on_end(&mut self)
        requires
            old(self).wf(),
        ensures
            final(self).wf(),
            final(self).dice() == old(self).dice(),
            final(self).board() == old(self).board(),
            final(self).rolls() == old(self).rolls(),
            final(self).held() == old(self).held(),
            old(self).cursor() is None ==> final(self).cursor() is None,
            old(self).cursor() is Some ==> (final(self).cursor() matches Some(j)
                && first_available_backward(
                old(self).board(),
                old(self).dice(),
                NUM_CATEGORIES - 1,
                j as int,
            )),
    {
        if self.selected_category_index.is_some() {
            self.selected_category_index = Some(NUM_CATEGORIES - 1);
            proof {
                lemma_some_available(self.scoreboard@, self.dice_set@);
            }
            self.select_prev_available_category();
        }
    }

    /// Commits the cursor's category with the current dice. The hold flags
    /// are cleared; if the game is then finished the cursor becomes none,
    /// otherwise the next turn starts with `next_dice`, one roll, and the
    /// cursor on the first available category forward of where it was.
    /// No effect once the game is finished, nor when the five-of-a-kind
    /// entry would pass its limit.
    pub fn commit(&mut self, next_dice: DiceSet)
        requires
            old(self).wf(),
            next_dice.wf(),
        ensures
            final(self).wf(),
            old(self).cursor() is None ==> *final(self) == *old(self),
            old(self).cursor() matches Some(i) ==> ({
                let c = Category::spec_at(i as int);
                if entry_or_zero(old(self).board(), c) + dice_score(old(self).dice(), c)
                    <= ENTRY_LIMIT {
                    &&& final(self).board() == after_choice(old(self).board(), c, old(self).dice())
                    &&& final(self).none_held()
                    &&& if is_finished(final(self).board()) {
                        &&& final(self).cursor() is None
                        &&& final(self).dice() == old(self).dice()
                        &&& final(self).rolls() == old(self).rolls()
                    } else {
                        &&& final(self).dice() == next_dice@
                        &&& final(self).rolls() == 1
                        &&& final(self).cursor() matches Some(j) && first_available_forward(
                            final(self).board(),
                            next_dice@,
                            i as int,
                            j as int,
                        )
                    }
                } else {
                    *final(self) == *old(self)
                }
            }),
    {
        let i = match self.selected_category_index {
            Some(i) => i,
            None => {
                return ;
            },
        };
        let category = Category::at(i);
        if !self.scoreboard.can_choose(category, &self.dice_set) {
            return ;
        }
        self.scoreboard.choose_category(category, &self.dice_set);
        self.dice_selected = [false; NUM_DICE];
        if self.scoreboard.game_is_finished() {
            self.selected_category_index = None;
        } else {
            self.dice_set = next_dice;
            self.roll_count = 1;
            proof {
                lemma_some_available(self.scoreboard@, self.dice_set@);
            }
            self.select_next_available_category();
        }
    }

    /// Commits the cursor's category, as `commit` does, with fresh random
    /// dice for the next turn.
    pub fn on_enter(&mut self)
        requires
            old(self).wf(),
        ensures
            final(self).wf(),
            old(self).cursor() is None ==> *final(self) == *old(self),
            old(self).cursor() matches Some(i) ==> ({
                let c = Category::spec_at(i as int);
                if entry_or_zero(old(self).board(), c) + dice_score(old(self).dice(), c)
                    <= ENTRY_LIMIT {
                    &&& final(self).board() == after_choice(old(self).board(), c, old(self).dice())
                    &&& final(self).none_held()
                    &&& if is_finished(final(self).board()) {
                        &&& final(self).cursor() is None
                        &&& final(self).dice() == old(self).dice()
                        &&& final(self).rolls() == old(self).rolls()
                    } else {
                        &&& final(self).rolls() == 1
                        &&& final(self).cursor() matches Some(j) && first_available_forward(
                            final(self).board(),
                            final(self).dice(),
                            i as int,
                            j as int,
                        )
                    }
                } else {
                    *final(self) == *old(self)
                }
            }),
    {
        self.commit(DiceSet::roll());
    }

    /// Re-rolls the held dice: each held die takes the face of the die in the
    /// same slot of `fresh`, the others keep theirs; the roll count goes up
    /// by one and the hold flags are cleared. No effect on the last roll of
    /// a turn or while no die is held.
    pub fn reroll(&mut self, fresh: &DiceSet)
        requires
            old(self).wf(),
            fresh.wf(),
        ensures
            final(self).wf(),
            old(self).rolls() >= MAX_ROLLS || old(self).none_held() ==> *final(self) == *old(
                self,
            ),
            old(self).rolls() < MAX_ROLLS && !old(self).none_held() ==> {
                &&& final(self).dice() == Seq::new(
                    NUM_DICE as nat,
                    |k: int|
                        if old(self).held()[k] {
                            fresh@[k]
                        } else {
                            old(self).dice()[k]
                        },
                )
                &&& final(self).rolls() == old(self).rolls() + 1
                &&& final(self).none_held()
                &&& final(self).board() == old(self).board()
                &&& final(self).cursor() == old(self).cursor()
            },
    {
        if self.roll_count >= MAX_ROLLS || !self.any_held() {
            return ;
        }
        let ghost before = self.dice_set.0;
        let mut dice = self.dice_set.0;
        let mut i: usize = 0;
        while i < NUM_DICE
            invariant
                i <= NUM_DICE,
                before == self.dice_set.0,
                forall|j: int|
                    0 <= j < NUM_DICE ==> #[trigger] dice@[j] == if j < i && self.held()[j] {
                        fresh.0@[j]
                    } else {
                        before@[j]
                    },
            decreases NUM_DICE - i,
        {
            if self.dice_selected[i] {
                dice[i] = fresh.0[i];
            }
            i += 1;
        }
        let ghost held = self.held();
        self.dice_set = DiceSet(dice);
        self.roll_count += 1;
        self.dice_selected = [false; NUM_DICE];
        assert(self.dice() =~= Seq::new(
            NUM_DICE as nat,
            |k: int|
                if held[k] {
                    fresh@[k]
                } else {
                    old(self).dice()[k]
                },
        ));
    }

    /// Re-rolls the held dice, as `reroll` does, with fresh random faces.
    pub fn on_r_key(&mut self)
        requires
            old(self).wf(),
        ensures
            final(self).wf(),
            old(self).rolls() >= MAX_ROLLS || old(self).none_held() ==> *final(self) == *old(
                self,
            ),
            old(self).rolls() < MAX_ROLLS && !old(self).none_held() ==> {
                &&& forall|k: int|
                    0 <= k < NUM_DICE && !old(self).held()[k] ==> #[trigger] final(self).dice()[k]
                        == old(self).dice()[k]
                &&& final(self).rolls() == old(self).rolls() + 1
                &&& final(self).none_held()
                &&& final(self).board() == old(self).board()
                &&& final(self).cursor() == old(self).cursor()
            },
    {
        let fresh = DiceSet::roll();
        self.reroll(&fresh);
    }

    /// Flips the hold flag of the die that digit key `c` names. No effect on
    /// the last roll of a turn, nor for a key that names no die.
    pub fn on_number_key(&mut self, c: char)
        requires
            old(self).wf(),
        ensures
            final(self).wf(),
            final(self).held().len() == NUM_DICE,
            old(self).rolls() >= MAX_ROLLS || spec_dice_number(c) is None ==> *final(self)
                == *old(self),
            old(self).rolls() < MAX_ROLLS ==> (spec_dice_number(c) matches Some(d) ==> {
                &&& final(self).held() == old(self).held().update(d as int, !old(self).held()[d as int])
                &&& final(self).held()[d as int] == !old(self).held()[d as int]
                &&& forall|k: int|
                    0 <= k < NUM_DICE && k != d ==> #[trigger] final(self).held()[k] == old(
                        self,
                    ).held()[k]
                &&& final(self).dice() == old(self).dice()
                &&& final(self).rolls() == old(self).rolls()
                &&& final(self).board() == old(self).board()
                &&& final(self).cursor() == old(self).cursor()
            }),
    {
        if self.roll_count >= MAX_ROLLS {
            return ;
        }
        if let Some(d) = parse_dice_number(c) {
            self.dice_selected[d] = !self.dice_selected[d];
        }
    }
}

} // verus!
