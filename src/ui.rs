//! Drawing the field and a hand onto buffers of colored cells.

use crate::cards::{Card, Column, Field, Flag, Hand, TroopColor, COLUMNS};
use crate::display::{blank, grid_text, Buffer, Cell, CellView, Color};
use vstd::prelude::*;

verus! {

/// Cells between the left edges of two neighbouring columns.
pub const COLUMN_SPACING: usize = 4;

/// Width of a drawn field.
pub const FIELD_WIDTH: usize = 28;

/// Height of a drawn field.
pub const FIELD_HEIGHT: usize = 9;

/// The row that holds the flags; north cards stack up from the row above it,
/// south cards down from the row below it.
pub const FLAG_ROW: usize = 5;

/// Width of a drawn hand.
pub const HAND_WIDTH: usize = 30;

/// Height of a drawn hand.
pub const HAND_HEIGHT: usize = 3;

/// The most north cards a column of a drawn field has room for.
pub const MAX_NORTH: usize = 5;

/// The most south cards a column of a drawn field has room for.
pub const MAX_SOUTH: usize = 3;

/// The most cards a drawn hand has room for; later cards are left out.
pub const MAX_HAND: usize = 8;

/// The background that shows a troop color.
pub open spec fn troop_background(c: TroopColor) -> Color {
    match c {
        TroopColor::Red => Color::Red,
        TroopColor::Green => Color::Green,
        TroopColor::Blue => Color::Blue,
        TroopColor::Yellow => Color::Yellow,
        TroopColor::Orange => Color::RGB(255, 87, 51),
        TroopColor::Purple => Color::Purple,
    }
}

/// The last decimal digit of `n`.
pub open spec fn digit(n: int) -> char {
    let d = n % 10;
    if d == 1 {
        '1'
    } else if d == 2 {
        '2'
    } else if d == 3 {
        '3'
    } else if d == 4 {
        '4'
    } else if d == 5 {
        '5'
    } else if d == 6 {
        '6'
    } else if d == 7 {
        '7'
    } else if d == 8 {
        '8'
    } else if d == 9 {
        '9'
    } else {
        '0'
    }
}

/// A troop card shows its value, with 10 shown as `0`, on its color.
pub open spec fn card_cell(c: Card) -> CellView
    recommends
        c.is_troop(),
{
    (seq![digit(c->Troop_0.spec_value() as int)], None, Some(troop_background(c->Troop_1)))
}

/// An unclaimed flag: a red flag glyph.
pub open spec fn flag_cell() -> CellView {
    (seq!['\u{2691}'], Some(Color::Red), None)
}

/// The cell at column `x` and row `y` of a drawn field.
pub open spec fn field_cell(columns: Seq<Column>, x: int, y: int) -> CellView {
    if x % 4 != 0 {
        blank()
    } else {
        let north = columns[x / 4].side_cards(0);
        let south = columns[x / 4].side_cards(1);
        if y == 5 {
            flag_cell()
        } else if y <= 4 && 4 - y < north.len() {
            card_cell(north[4 - y])
        } else if y >= 6 && y - 6 < south.len() {
            card_cell(south[y - 6])
        } else {
            blank()
        }
    }
}

/// The cells of a drawn field, row by row.
pub open spec fn field_picture(columns: Seq<Column>) -> Seq<Seq<CellView>> {
    Seq::new(FIELD_HEIGHT as nat, |y: int| Seq::new(FIELD_WIDTH as nat, |x: int| field_cell(columns, x, y)))
}

/// A field can be drawn when its flags are all unclaimed, it holds troop
/// cards alone, and its formations fit the rows above and below the flags.
pub open spec fn drawable(field: &Field) -> bool {
    &&& field.wf()
    &&& forall|c: int|
        0 <= c < COLUMNS ==> {
            &&& (#[trigger] field.spec_columns()[c]).spec_flag() == Flag::Unclaimed
            &&& field.spec_columns()[c].side_cards(0).len() <= MAX_NORTH
            &&& field.spec_columns()[c].side_cards(1).len() <= MAX_SOUTH
            &&& forall|i: int|
                0 <= i < field.spec_columns()[c].side_cards(0).len()
                    ==> (#[trigger] field.spec_columns()[c].side_cards(0)[i]).is_troop()
            &&& forall|i: int|
                0 <= i < field.spec_columns()[c].side_cards(1).len()
                    ==> (#[trigger] field.spec_columns()[c].side_cards(1)[i]).is_troop()
        }
}

/// A one-character string holding the last decimal digit of `n`.
fn digit_text(n: u8) -> (r: String)
    ensures
        r@ == seq![digit(n as int)],
{
    let digits = "0123456789";
    proof {
        reveal_strlit("0123456789");
    }
    let d: usize = (n % 10) as usize;
    let r = String::from_str(digits.substring_char(d, d + 1));
    assert(r@ =~= seq![digits@[d as int]]);
    r
}

/// The cell that shows a troop card.
fn draw_card(card: &Card) -> (r: Cell)
    requires
        card.is_troop(),
    ensures
        r@ == card_cell(*card),
        r.wf(),
{
    let mut cell = Cell::new();
    if let Card::Troop(value, color) = card {
        cell.bg(
            match color {
                TroopColor::Red => Color::Red,
                TroopColor::Green => Color::Green,
                TroopColor::Blue => Color::Blue,
                TroopColor::Yellow => Color::Yellow,
                TroopColor::Orange => Color::RGB(255, 87, 51),
                TroopColor::Purple => Color::Purple,
            },
        );
        cell.put_glyph(digit_text(value.value()));
    }
    cell
}

/// The cell that shows an unclaimed flag.
fn draw_flag(flag: &Flag) -> (r: Cell)
    requires
        *flag == Flag::Unclaimed,
    ensures
        r@ == flag_cell(),
        r.wf(),
{
    let mut cell = Cell::new();
    proof {
        reveal_strlit("\u{2691}");
    }
    cell.put_glyph(String::from_str("\u{2691}"));
    cell.fg(Color::Red);
    cell
}


/// The cell at column `x` and row `y` while a field is being drawn: columns
/// left of `c` are done; in column `c` the flag, the first `nn` north cards
/// and the first `ns` south cards are.
pub open spec fn partly_drawn(columns: Seq<Column>, c: int, nn: int, ns: int, x: int, y: int) -> CellView {
    if x % 4 == 0 && (x / 4 < c || (x / 4 == c && (y == 5 || (y <= 4 && 4 - y < nn) || (y >= 6 && y
        - 6 < ns)))) {
        field_cell(columns, x, y)
    } else {
        blank()
    }
}

/// Returns a buffer that shows the field: in each column the flag at row 5,
/// north cards from row 4 upwards and south cards from row 6 downwards, each
/// in play order.
pub fn draw_field(field: Field) -> (r: Buffer)
    requires
        drawable(&field),
    ensures
        r.wf(),
        r@ == field_picture(field.spec_columns()),
        r.spec_width() == FIELD_WIDTH,
        r.spec_height() == FIELD_HEIGHT,
        r@.len() == FIELD_HEIGHT,
        forall|y: int| 0 <= y < FIELD_HEIGHT ==> (#[trigger] r@[y]).len() == FIELD_WIDTH,
        forall|y: int, x: int|
            0 <= y < FIELD_HEIGHT && 0 <= x < FIELD_WIDTH ==> #[trigger] r@[y][x] == field_cell(
                field.spec_columns(),
                x,
                y,
            ),
{
    let ghost cols = field.spec_columns();
    let mut buffer = Buffer::new(COLUMNS * COLUMN_SPACING, FIELD_HEIGHT);
    let mut c: usize = 0;
    while c < COLUMNS
        invariant
            drawable(&field),
            cols == field.spec_columns(),
            c <= COLUMNS,
            buffer.wf(),
            buffer.spec_width() == FIELD_WIDTH,
            buffer.spec_height() == FIELD_HEIGHT,
            forall|y: int, x: int|
                0 <= y < FIELD_HEIGHT && 0 <= x < FIELD_WIDTH ==> #[trigger] buffer@[y][x]
                    == if x % 4 == 0 && x / 4 < c {
                    field_cell(cols, x, y)
                } else {
                    blank()
                },
        decreases COLUMNS - c,
    {
        let column = &field.columns()[c];
        let x0: usize = c * COLUMN_SPACING;
        proof {
            buffer.lemma_shape();
        }
        buffer.set(x0, FLAG_ROW, draw_flag(column.flag()));
        let north = column.formations()[0].cards();
        let mut i: usize = 0;
        while i < north.len()
            invariant
                drawable(&field),
                cols == field.spec_columns(),
                c < COLUMNS,
                x0 == c * 4,
                *column == cols[c as int],
                north@ == cols[c as int].side_cards(0),
                i <= north@.len(),
                buffer.wf(),
                buffer.spec_width() == FIELD_WIDTH,
                buffer.spec_height() == FIELD_HEIGHT,
                forall|y: int, x: int|
                    0 <= y < FIELD_HEIGHT && 0 <= x < FIELD_WIDTH ==> #[trigger] buffer@[y][x]
                        == partly_drawn(cols, c as int, i as int, 0, x, y),
            decreases north@.len() - i,
        {
            proof {
                buffer.lemma_shape();
            }
            buffer.set(x0, FLAG_ROW - 1 - i, draw_card(&north[i]));
            i = i + 1;
        }
        let south = column.formations()[1].cards();
        let mut i: usize = 0;
        while i < south.len()
            invariant
                drawable(&field),
                cols == field.spec_columns(),
                c < COLUMNS,
                x0 == c * 4,
                *column == cols[c as int],
                south@ == cols[c as int].side_cards(1),
                i <= south@.len(),
                buffer.wf(),
                buffer.spec_width() == FIELD_WIDTH,
                buffer.spec_height() == FIELD_HEIGHT,
                forall|y: int, x: int|
                    0 <= y < FIELD_HEIGHT && 0 <= x < FIELD_WIDTH ==> #[trigger] buffer@[y][x]
                        == partly_drawn(cols, c as int, cols[c as int].side_cards(0).len() as int, i as int, x, y),
            decreases south@.len() - i,
        {
            proof {
                buffer.lemma_shape();
            }
            buffer.set(x0, FLAG_ROW + 1 + i, draw_card(&south[i]));
            i = i + 1;
        }
        c = c + 1;
    }
    proof {
        buffer.lemma_shape();
        assert forall|y: int| 0 <= y < FIELD_HEIGHT implies #[trigger] buffer@[y] =~= field_picture(cols)[y] by {}
        assert(buffer@ =~= field_picture(cols));
    }
    buffer
}


/// The label in the top row of a drawn hand.
pub open spec fn hand_label() -> Seq<char> {
    seq!['H', 'a', 'n', 'd', ':']
}

/// The cell at column `x` and row `y` of a drawn hand whose first `n` cards
/// are drawn: the label on row 0, and every fourth column from the left the
/// card's number, from 1, on row 1 and the card on row 2.
pub open spec fn hand_cell(cards: Seq<Card>, n: int, x: int, y: int) -> CellView {
    if y == 0 && x < hand_label().len() {
        (seq![hand_label()[x]], None, None)
    } else if y == 1 && x % 4 == 0 && x / 4 < n {
        (seq![digit(x / 4 + 1)], None, None)
    } else if y == 2 && x % 4 == 0 && x / 4 < n {
        card_cell(cards[x / 4])
    } else {
        blank()
    }
}

/// The cells of a drawn hand, row by row.
pub open spec fn hand_picture(cards: Seq<Card>) -> Seq<Seq<CellView>> {
    Seq::new(
        HAND_HEIGHT as nat,
        |y: int| Seq::new(HAND_WIDTH as nat, |x: int| hand_cell(cards, cards.len() as int, x, y)),
    )
}

/// A hand can be drawn when it holds troop cards alone.
pub open spec fn hand_drawable(hand: &Hand) -> bool {
    forall|i: int| 0 <= i < hand@.len() ==> (#[trigger] hand@[i]).is_troop()
}

/// Returns a buffer that shows the hand: a label, then for each card its
/// number and the card itself, four columns apart. Cards past the width of
/// the buffer are left out.
pub fn draw_hand(hand: Hand) -> (r: Buffer)
    requires
        hand_drawable(&hand),
    ensures
        r.wf(),
        r@ == hand_picture(hand@),
        r.spec_width() == HAND_WIDTH,
        r.spec_height() == HAND_HEIGHT,
        r@.len() == HAND_HEIGHT,
        forall|y: int| 0 <= y < HAND_HEIGHT ==> (#[trigger] r@[y]).len() == HAND_WIDTH,
        forall|y: int, x: int|
            0 <= y < HAND_HEIGHT && 0 <= x < HAND_WIDTH ==> #[trigger] r@[y][x] == hand_cell(
                hand@,
                hand@.len() as int,
                x,
                y,
            ),
{
    let mut buffer = Buffer::new(HAND_WIDTH, HAND_HEIGHT);
    let label = "Hand:";
    proof {
        reveal_strlit("Hand:");
        assert(label@ =~= hand_label());
    }
    let mut k: usize = 0;
    while k < 5
        invariant
            k <= 5,
            label@ == hand_label(),
            buffer.wf(),
            buffer.spec_width() == HAND_WIDTH,
            buffer.spec_height() == HAND_HEIGHT,
            forall|y: int, x: int|
                0 <= y < HAND_HEIGHT && 0 <= x < HAND_WIDTH ==> #[trigger] buffer@[y][x] == if y == 0 && x
                    < k {
                    hand_cell(hand@, 0, x, y)
                } else {
                    blank()
                },
        decreases 5 - k,
    {
        let glyph = String::from_str(label.substring_char(k, k + 1));
        assert(glyph@ =~= seq![hand_label()[k as int]]);
        let mut cell = Cell::new();
        cell.put_glyph(glyph);
        proof {
            buffer.lemma_shape();
        }
        buffer.set(k, 0, cell);
        k = k + 1;
    }
    let cards = hand.iter();
    let mut i: usize = 0;
    while i < cards.len() && i < MAX_HAND
        invariant
            hand_drawable(&hand),
            cards@ == hand@,
            i <= cards@.len(),
            i <= MAX_HAND,
            buffer.wf(),
            buffer.spec_width() == HAND_WIDTH,
            buffer.spec_height() == HAND_HEIGHT,
            forall|y: int, x: int|
                0 <= y < HAND_HEIGHT && 0 <= x < HAND_WIDTH ==> #[trigger] buffer@[y][x] == hand_cell(
                    hand@,
                    i as int,
                    x,
                    y,
                ),
        decreases cards@.len() - i,
    {
        let mut number = Cell::new();
        number.put_glyph(digit_text((i + 1) as u8));
        proof {
            buffer.lemma_shape();
        }
        buffer.set(i * COLUMN_SPACING, 1, number);
        proof {
            buffer.lemma_shape();
        }
        buffer.set(i * COLUMN_SPACING, 2, draw_card(&cards[i]));
        i = i + 1;
    }
    proof {
        buffer.lemma_shape();
        assert forall|y: int| 0 <= y < HAND_HEIGHT implies #[trigger] buffer@[y] =~= hand_picture(hand@)[y] by {}
        assert(buffer@ =~= hand_picture(hand@));
    }
    buffer
}


/// Drawing a field depends on nothing but what the field holds: two fields
/// that hold the same columns are drawn to the same cells and so rendered to
/// the same text.
pub proof fn lemma_field_drawing_repeatable(a: &Field, b: &Field)
    requires
        a.spec_columns() == b.spec_columns(),
    ensures
        field_picture(a.spec_columns()) == field_picture(b.spec_columns()),
        grid_text(field_picture(a.spec_columns())) == grid_text(field_picture(b.spec_columns())),
{
}

/// Drawing a hand depends on nothing but the cards it holds: two hands that
/// hold the same cards are drawn to the same cells and so rendered to the
/// same text.
pub proof fn lemma_hand_drawing_repeatable(a: &Hand, b: &Hand)
    requires
        a@ == b@,
    ensures
        hand_picture(a@) == hand_picture(b@),
        grid_text(hand_picture(a@)) == grid_text(hand_picture(b@)),
{
}

} // verus!
