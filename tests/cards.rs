use rand::rngs::StdRng;
use rand::SeedableRng;
use rsbl::{Card, Deck, Field, Flag, Hand, Side, TroopColor, TroopValue};

#[test]
fn troop_value_just_right() {
    let value = TroopValue::new(5);
    assert_eq!(value.value(), 5);
}

#[test]
fn troop_value_keeps_every_allowed_value() {
    for v in 1..=10u8 {
        assert_eq!(TroopValue::new(v).value(), v);
        assert_eq!(TroopValue::try_new(v).unwrap().value(), v);
    }
}

#[test]
fn troop_value_rejects_out_of_range() {
    assert_eq!(TroopValue::try_new(0).unwrap_err().value, 0);
    assert_eq!(TroopValue::try_new(11).unwrap_err().value, 11);
    assert!(TroopValue::try_new(255).is_err());
}

#[test]
fn new_field_has_seven_empty_unclaimed_columns() {
    let field = Field::new();
    assert_eq!(field.columns().len(), 7);
    for column in field.columns() {
        assert_eq!(*column.flag(), Flag::Unclaimed);
        assert!(column.formations()[0].cards().is_empty());
        assert!(column.formations()[1].cards().is_empty());
    }
}

#[test]
fn add_card_appends_to_one_formation_only() {
    let mut field = Field::new();
    let red1 = Card::Troop(TroopValue::new(1), TroopColor::Red);
    let blue3 = Card::Troop(TroopValue::new(3), TroopColor::Blue);
    field.add_card(1, Side::North, red1.clone());
    field.add_card(1, Side::South, blue3.clone());
    field.add_card(1, Side::North, Card::Tactics);
    let column = &field.columns()[1];
    assert_eq!(column.formations()[0].cards(), &vec![red1, Card::Tactics]);
    assert_eq!(column.formations()[1].cards(), &vec![blue3]);
    for (i, column) in field.columns().iter().enumerate() {
        if i != 1 {
            assert!(column.formations()[0].cards().is_empty());
            assert!(column.formations()[1].cards().is_empty());
        }
    }
}

#[test]
fn troop_deck_holds_each_troop_once() {
    let mut rng = StdRng::seed_from_u64(7);
    let mut deck = Deck::of_troops(&mut rng);
    assert_eq!(deck.len(), 60);
    let mut drawn: Vec<Card> = Vec::new();
    let mut n = 0;
    while let Some(card) = deck.draw() {
        n += 1;
        assert_eq!(deck.len(), 60 - n);
        drawn.push(card);
    }
    assert_eq!(drawn.len(), 60);
    assert_eq!(deck.draw(), None);
    assert_eq!(deck.len(), 0);
    let colors = [
        TroopColor::Red,
        TroopColor::Green,
        TroopColor::Blue,
        TroopColor::Yellow,
        TroopColor::Orange,
        TroopColor::Purple,
    ];
    for color in colors {
        for v in 1..=10u8 {
            let card = Card::Troop(TroopValue::new(v), color);
            assert_eq!(drawn.iter().filter(|c| **c == card).count(), 1);
        }
    }
}

#[test]
fn hand_adds_and_removes_by_index() {
    let mut hand = Hand::new();
    assert_eq!(hand.len(), 0);
    let a = Card::Troop(TroopValue::new(2), TroopColor::Green);
    let b = Card::Troop(TroopValue::new(9), TroopColor::Purple);
    let c = Card::Troop(TroopValue::new(10), TroopColor::Yellow);
    hand.add(&a);
    hand.add(&b);
    hand.add(&c);
    assert_eq!(hand.len(), 3);
    assert_eq!(hand.iter().to_vec(), vec![a.clone(), b.clone(), c.clone()]);
    assert_eq!(hand.remove(1), b);
    assert_eq!(hand.iter().to_vec(), vec![a, c]);
}
