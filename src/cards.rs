//! Cards, the field they are played onto, the deck and a player's hand.

use std::collections::VecDeque;
use vstd::prelude::*;

verus! {

/// The lowest value that a troop card may carry.
pub const MIN_TROOP: u8 = 1;

/// The highest value that a troop card may carry.
pub const MAX_TROOP: u8 = 10;

/// The number of columns, each under one flag, on the field.
pub const COLUMNS: usize = 7;

/// The number of distinct troop colors.
pub const TROOP_COLORS: usize = 6;

/// Returned when a troop value outside of `1..=10` is asked for.
#[derive(Clone, Copy, Debug, PartialEq, Eq, Structural)]
pub struct OutOfRangeError {
    pub value: u8,
}

/// Possible values for a troop card, i.e. between 1 and 10.
#[derive(Clone, Copy, Debug, PartialEq, Eq, Structural)]
pub struct TroopValue {
    value: u8,
}

impl TroopValue {
    /// Every troop value lies in `1..=10`.
    #[verifier::type_invariant]
    spec fn in_range(self) -> bool {
        MIN_TROOP <= self.value <= MAX_TROOP
    }

    /// The value represented.
    pub closed spec fn spec_value(self) -> u8 {
        self.value
    }

    /// A troop value is well formed when it lies in `1..=10`.
    pub open spec fn wf(self) -> bool {
        MIN_TROOP <= self.spec_value() <= MAX_TROOP
    }

    /// The troop value `value`, which must lie in `1..=10`.
    pub fn new(value: u8) -> (r: TroopValue)
        requires
            MIN_TROOP <= value <= MAX_TROOP,
        ensures
            r.spec_value() == value,
            r.wf(),
    {
        TroopValue { value }
    }

    /// The troop value `value`, or an error when it lies outside of `1..=10`.
    pub fn try_new(value: u8) -> (r: Result<TroopValue, OutOfRangeError>)
        ensures
            r is Ok <==> MIN_TROOP <= value <= MAX_TROOP,
            r matches Ok(t) ==> t.spec_value() == value && t.wf(),
            r matches Err(e) ==> e.value == value,
    {
        if value < MIN_TROOP || value > MAX_TROOP {
            Err(OutOfRangeError { value })
        } else {
            Ok(TroopValue { value })
        }
    }

    /// Returns the value represented, between 1 and 10.
    pub fn value(&self) -> (r: u8)
        ensures
            r == self.spec_value(),
            MIN_TROOP <= r <= MAX_TROOP,
    {
        proof {
            use_type_invariant(self);
        }
        self.value
    }
}


/// Possible colors for a troop card.
#[derive(Clone, Copy, Debug, PartialEq, Eq, Structural)]
pub enum TroopColor {
    Red,
    Green,
    Blue,
    Yellow,
    Orange,
    Purple,
}

/// The color in position `i` of the fixed order red, green, blue, yellow,
/// orange, purple.
pub open spec fn color_at(i: int) -> TroopColor {
    if i == 0 {
        TroopColor::Red
    } else if i == 1 {
        TroopColor::Green
    } else if i == 2 {
        TroopColor::Blue
    } else if i == 3 {
        TroopColor::Yellow
    } else if i == 4 {
        TroopColor::Orange
    } else {
        TroopColor::Purple
    }
}

/// Possible cards.
#[derive(Clone, Copy, Debug, PartialEq, Eq, Structural)]
pub enum Card {
    Tactics,
    Troop(TroopValue, TroopColor),
}

impl Card {
    /// A card is well formed when a troop card's value lies in `1..=10`.
    pub open spec fn wf(self) -> bool {
        match self {
            Card::Tactics => true,
            Card::Troop(v, _) => v.wf(),
        }
    }

    /// Whether the card is a troop card with a value in `1..=10`.
    pub open spec fn is_troop(self) -> bool {
        self matches Card::Troop(v, _) && v.wf()
    }
}

/// Which player, the north or south player.
#[derive(Clone, Copy, Debug, PartialEq, Eq, Structural)]
pub enum Side {
    North,
    South,
}

impl Side {
    /// The index of the side's formation within a column.
    pub open spec fn index(self) -> int {
        match self {
            Side::North => 0,
            Side::South => 1,
        }
    }
}

/// Possible states for a flag in a [`Column`].
#[derive(Clone, Copy, Debug, PartialEq, Eq, Structural)]
pub enum Flag {
    Unclaimed,
    Claimed,
}

/// The cards one player has played into one column, in play order.
pub struct Formation(Vec<Card>);

impl View for Formation {
    type V = Seq<Card>;

    closed spec fn view(&self) -> Seq<Card> {
        self.0@
    }
}

impl Formation {
    /// An empty formation.
    pub fn new() -> (r: Formation)
        ensures
            r@ == Seq::<Card>::empty(),
    {
        Formation(Vec::with_capacity(4))
    }

    /// The cards of the formation, in play order.
    pub fn cards(&self) -> (r: &Vec<Card>)
        ensures
            r@ == self@,
    {
        &self.0
    }
}

/// A column of cards, i.e. a flag with cards being played for each player.
pub struct Column {
    /// Flag state for a given column.
    flag: Flag,
    /// Formations of cards belonging to either player.
    formations: [Formation; 2],
}

impl Column {
    /// The state of the column's flag.
    pub closed spec fn spec_flag(&self) -> Flag {
        self.flag
    }

    /// The cards that the player on `side` (0 north, 1 south) played here.
    pub closed spec fn side_cards(&self, side: int) -> Seq<Card> {
        self.formations@[side]@
    }

    pub fn flag(&self) -> (r: &Flag)
        ensures
            *r == self.spec_flag(),
    {
        &self.flag
    }

    pub fn formations(&self) -> (r: &[Formation; 2])
        ensures
            r@.len() == 2,
            r@[0]@ == self.side_cards(0),
            r@[1]@ == self.side_cards(1),
    {
        &self.formations
    }
}

/// The field of cards, i.e. seven flags with cards being played at each.
pub struct Field {
    columns: Vec<Column>,
}

impl Field {
    /// The columns, left to right.
    pub closed spec fn spec_columns(&self) -> Seq<Column> {
        self.columns@
    }

    /// A field always has seven columns.
    pub open spec fn wf(&self) -> bool {
        self.spec_columns().len() == COLUMNS
    }

    /// A field of seven unclaimed columns without cards.
    pub fn new() -> (r: Field)
        ensures
            r.wf(),
            forall|i: int|
                0 <= i < COLUMNS ==> {
                    &&& (#[trigger] r.spec_columns()[i]).spec_flag() == Flag::Unclaimed
                    &&& r.spec_columns()[i].side_cards(0) == Seq::<Card>::empty()
                    &&& r.spec_columns()[i].side_cards(1) == Seq::<Card>::empty()
                },
    {
        let mut columns: Vec<Column> = Vec::with_capacity(COLUMNS);
        let mut k: usize = 0;
        while k < COLUMNS
            invariant
                k <= COLUMNS,
                columns@.len() == k,
                forall|i: int|
                    0 <= i < k ==> {
                        &&& (#[trigger] columns@[i]).spec_flag() == Flag::Unclaimed
                        &&& columns@[i].side_cards(0) == Seq::<Card>::empty()
                        &&& columns@[i].side_cards(1) == Seq::<Card>::empty()
                    },
            decreases COLUMNS - k,
        {
            columns.push(Column { flag: Flag::Unclaimed, formations: [Formation::new(), Formation::new()] });
            k = k + 1;
        }
        Field { columns }
    }

    pub fn columns(&self) -> (r: &Vec<Column>)
        ensures
            r@ == self.spec_columns(),
    {
        &self.columns
    }

    /// Appends `troop` to the formation of `side` in column `column`.
    pub fn add_card(&mut self, column: usize, side: Side, troop: Card)
        requires
            old(self).wf(),
            column < COLUMNS,
        ensures
            final(self).wf(),
            final(self).spec_columns()[column as int].side_cards(side.index())
                == old(self).spec_columns()[column as int].side_cards(side.index()).push(troop),
            final(self).spec_columns()[column as int].side_cards(1 - side.index())
                == old(self).spec_columns()[column as int].side_cards(1 - side.index()),
            final(self).spec_columns()[column as int].spec_flag()
                == old(self).spec_columns()[column as int].spec_flag(),
            forall|i: int|
                0 <= i < COLUMNS && i != column ==> #[trigger] final(self).spec_columns()[i]
                    == old(self).spec_columns()[i],
    {
        let k: usize = match side {
            Side::North => 0,
            Side::South => 1,
        };
        self.columns[column].formations[k].0.push(troop);
    }
}


/// The cards held by one player, in the order they were added.
pub struct Hand {
    cards: Vec<Card>,
}

impl View for Hand {
    type V = Seq<Card>;

    closed spec fn view(&self) -> Seq<Card> {
        self.cards@
    }
}

impl Hand {
    /// An empty hand.
    pub fn new() -> (r: Hand)
        ensures
            r@ == Seq::<Card>::empty(),
    {
        Hand { cards: Vec::new() }
    }

    pub fn len(&self) -> (r: usize)
        ensures
            r == self@.len(),
    {
        self.cards.len()
    }

    /// Adds a copy of `card` after the cards already held.
    pub fn add(&mut self, card: &Card)
        ensures
            final(self)@ == old(self)@.push(*card),
    {
        self.cards.push(*card);
    }

    /// The cards held, in the order they were added.
    pub fn iter(&self) -> (r: &[Card])
        ensures
            r@ == self@,
    {
        self.cards.as_slice()
    }

    /// Removes and returns the card at `index`, shifting later cards down.
    pub fn remove(&mut self, index: usize) -> (r: Card)
        requires
            index < old(self)@.len(),
        ensures
            r == old(self)@[index as int],
            final(self)@ == old(self)@.remove(index as int),
    {
        self.cards.remove(index)
    }
}

/// The troop card in position `i` of the unshuffled deck: ten values of
/// each color in turn.
pub closed spec fn troop_at(i: int) -> Card {
    Card::Troop(TroopValue { value: (i % 10 + 1) as u8 }, color_at(i / 10))
}

/// The sixty troop cards in order: red 1 to 10, then green, blue, yellow,
/// orange and purple.
pub closed spec fn ordered_troops() -> Seq<Card> {
    Seq::new((TROOP_COLORS * 10) as nat, |i: int| troop_at(i))
}

/// The position of `c` in the fixed color order.
pub open spec fn color_index(c: TroopColor) -> int {
    match c {
        TroopColor::Red => 0,
        TroopColor::Green => 1,
        TroopColor::Blue => 2,
        TroopColor::Yellow => 3,
        TroopColor::Orange => 4,
        TroopColor::Purple => 5,
    }
}

/// Each troop card occurs exactly once among the sixty ordered troop cards,
/// and no other card occurs there.
proof fn lemma_ordered_troops_once()
    ensures
        ordered_troops().len() == TROOP_COLORS * 10,
        forall|c: Card|
            #[trigger] ordered_troops().to_multiset().count(c) == if c.is_troop() {
                1nat
            } else {
                0nat
            },
{
    broadcast use vstd::seq_lib::group_to_multiset_ensures;

    let s = ordered_troops();
    assert forall|i: int, j: int| 0 <= i < s.len() && 0 <= j < s.len() && i != j implies s[i] != s[j] by {
        assert(color_at(i / 10) == color_at(j / 10) ==> i / 10 == j / 10);
    }
    assert(s.no_duplicates());
    s.lemma_multiset_has_no_duplicates();
    assert forall|c: Card| #[trigger] s.contains(c) <==> c.is_troop() by {
        if c.is_troop() {
            if let Card::Troop(v, col) = c {
                let k = 10 * color_index(col) + v.value - 1;
                assert(color_at(k / 10) == col);
                assert(s[k] == c);
            }
        }
    }
    assert forall|c: Card|
        #[trigger] s.to_multiset().count(c) == if c.is_troop() {
            1nat
        } else {
            0nat
        } by {
        if s.contains(c) {
            assert(s.to_multiset().contains(c));
        }
    }
}

/// A front-drawable pile of cards.
pub struct Deck {
    cards: VecDeque<Card>,
}

impl View for Deck {
    type V = Seq<Card>;

    closed spec fn view(&self) -> Seq<Card> {
        self.cards@
    }
}

#[verifier::external_type_specification]
#[verifier::external_body]
pub struct ExStdRng(rand::rngs::StdRng);

/// Relies on rand's `SliceRandom::shuffle`, which permutes the slice in place
/// by swapping elements; which permutation comes out depends on `rng`.
#[verifier::external_body]
fn shuffle_cards(cards: &mut Vec<Card>, rng: &mut rand::rngs::StdRng)
    ensures
        final(cards)@.to_multiset() == old(cards)@.to_multiset(),
{
    rand::seq::SliceRandom::shuffle(cards.as_mut_slice(), rng)
}

impl Deck {
    /// The unshuffled troop card in position `i`.
    fn troop_card(i: usize) -> (r: Card)
        requires
            i < TROOP_COLORS * 10,
        ensures
            r == troop_at(i as int),
    {
        let color = if i < 10 {
            TroopColor::Red
        } else if i < 20 {
            TroopColor::Green
        } else if i < 30 {
            TroopColor::Blue
        } else if i < 40 {
            TroopColor::Yellow
        } else if i < 50 {
            TroopColor::Orange
        } else {
            TroopColor::Purple
        };
        Card::Troop(TroopValue { value: (i % 10 + 1) as u8 }, color)
    }

    /// A deck of the sixty troop cards, in an order that `shuffle_with` picks.
    pub fn of_troops(shuffle_with: &mut rand::rngs::StdRng) -> (r: Deck)
        ensures
            r@.len() == TROOP_COLORS * 10,
            forall|c: Card| #[trigger] r@.to_multiset().count(c) == if c.is_troop() {
                1nat
            } else {
                0nat
            },
    {
        let mut cards: Vec<Card> = Vec::with_capacity(TROOP_COLORS * 10);
        let mut i: usize = 0;
        while i < TROOP_COLORS * 10
            invariant
                i <= TROOP_COLORS * 10,
                cards@ == ordered_troops().subrange(0, i as int),
            decreases TROOP_COLORS * 10 - i,
        {
            cards.push(Deck::troop_card(i));
            i = i + 1;
        }
        assert(cards@ == ordered_troops());
        shuffle_cards(&mut cards, shuffle_with);
        let mut deck: VecDeque<Card> = VecDeque::with_capacity(TROOP_COLORS * 10);
        let mut j: usize = 0;
        while j < cards.len()
            invariant
                j <= cards@.len(),
                deck@ == cards@.subrange(0, j as int),
            decreases cards@.len() - j,
        {
            deck.push_back(cards[j]);
            j = j + 1;
        }
        assert(deck@ == cards@);
        proof {
            lemma_ordered_troops_once();
            broadcast use vstd::seq_lib::group_to_multiset_ensures;
            assert(deck@.len() == deck@.to_multiset().len());
        }
        Deck { cards: deck }
    }

    /// Removes and returns the front card, or `None` when the deck is empty.
    pub fn draw(&mut self) -> (r: Option<Card>)
        ensures
            old(self)@.len() == 0 ==> r is None && final(self)@ == old(self)@,
            old(self)@.len() > 0 ==> r == Some(old(self)@[0]) && final(self)@ == old(self)@.drop_first(),
    {
        self.cards.pop_front()
    }

    pub fn len(&self) -> (r: usize)
        ensures
            r == self@.len(),
    {
        self.cards.len()
    }
}

} // verus!
