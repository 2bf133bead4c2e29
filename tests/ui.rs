use ansi_term::{Colour, Style};
use rsbl::{draw_field, draw_hand, Card, Field, Hand, Side, TroopColor, TroopValue};

fn line(width: usize, cells: &[(usize, String)]) -> String {
    let mut out = String::new();
    let mut x = 0;
    while x < width {
        match cells.iter().find(|(cx, _)| *cx == x) {
            Some((_, text)) => out.push_str(text),
            None => out.push(' '),
        }
        x += 1;
    }
    out.push('\n');
    out
}

fn card(value: &str, colour: Colour) -> String {
    Style::new().on(colour).paint(value).to_string()
}

fn flag() -> String {
    Style::new().fg(Colour::Red).paint("\u{2691}").to_string()
}

fn flag_row() -> Vec<(usize, String)> {
    (0..7).map(|c| (c * 4, flag())).collect()
}

fn demo_field() -> Field {
    let mut field = Field::new();
    field.add_card(1, Side::North, Card::Troop(TroopValue::new(1), TroopColor::Red));
    field.add_card(1, Side::North, Card::Troop(TroopValue::new(2), TroopColor::Red));
    field
}

#[test]
fn field_stacks_north_cards_upwards_from_the_flag() {
    let text = draw_field(demo_field()).to_string();
    let mut expected = String::new();
    for y in 0..9 {
        let cells = match y {
            3 => vec![(4, card("2", Colour::Red))],
            4 => vec![(4, card("1", Colour::Red))],
            5 => flag_row(),
            _ => vec![],
        };
        expected.push_str(&line(28, &cells));
    }
    assert_eq!(text, expected);
}

#[test]
fn field_stacks_south_cards_downwards_and_shows_ten_as_zero() {
    let mut field = Field::new();
    field.add_card(4, Side::South, Card::Troop(TroopValue::new(3), TroopColor::Blue));
    field.add_card(6, Side::South, Card::Troop(TroopValue::new(10), TroopColor::Green));
    field.add_card(6, Side::South, Card::Troop(TroopValue::new(7), TroopColor::Orange));
    let text = draw_field(field).to_string();
    let mut expected = String::new();
    for y in 0..9 {
        let cells = match y {
            5 => flag_row(),
            6 => vec![(16, card("3", Colour::Blue)), (24, card("0", Colour::Green))],
            7 => vec![(24, card("7", Colour::RGB(255, 87, 51)))],
            _ => vec![],
        };
        expected.push_str(&line(28, &cells));
    }
    assert_eq!(text, expected);
}

#[test]
fn hand_shows_numbers_and_cards_four_columns_apart() {
    let mut hand = Hand::new();
    hand.add(&Card::Troop(TroopValue::new(4), TroopColor::Yellow));
    hand.add(&Card::Troop(TroopValue::new(10), TroopColor::Purple));
    hand.add(&Card::Troop(TroopValue::new(6), TroopColor::Red));
    let text = draw_hand(hand).to_string();
    let label: Vec<(usize, String)> = "Hand:".chars().enumerate().map(|(i, c)| (i, c.to_string())).collect();
    let numbers = vec![(0, "1".to_string()), (4, "2".to_string()), (8, "3".to_string())];
    let cards = vec![
        (0, card("4", Colour::Yellow)),
        (4, card("0", Colour::Purple)),
        (8, card("6", Colour::Red)),
    ];
    let expected = format!("{}{}{}", line(30, &label), line(30, &numbers), line(30, &cards));
    assert_eq!(text, expected);
}

#[test]
fn empty_hand_shows_the_label_alone() {
    let text = draw_hand(Hand::new()).to_string();
    assert_eq!(text, format!("Hand:{}\n{}\n{}\n", " ".repeat(25), " ".repeat(30), " ".repeat(30)));
}

#[test]
fn drawing_the_same_state_twice_gives_the_same_text() {
    let first = draw_field(demo_field()).to_string();
    let second = draw_field(demo_field()).to_string();
    assert_eq!(first, second);
    let hand = || {
        let mut h = Hand::new();
        h.add(&Card::Troop(TroopValue::new(8), TroopColor::Blue));
        h
    };
    assert_eq!(draw_hand(hand()).to_string(), draw_hand(hand()).to_string());
}

#[test]
fn hand_leaves_out_cards_past_the_width() {
    let mut hand = Hand::new();
    for v in 1..=10u8 {
        hand.add(&Card::Troop(TroopValue::new(v), TroopColor::Blue));
    }
    let text = draw_hand(hand).to_string();
    let label: Vec<(usize, String)> = "Hand:".chars().enumerate().map(|(i, c)| (i, c.to_string())).collect();
    let numbers: Vec<(usize, String)> = (0..8).map(|i| (i * 4, (i + 1).to_string())).collect();
    let cards: Vec<(usize, String)> = (0..8).map(|i| (i * 4, card(&(i + 1).to_string(), Colour::Blue))).collect();
    let expected = format!("{}{}{}", line(30, &label), line(30, &numbers), line(30, &cards));
    assert_eq!(text, expected);
}
