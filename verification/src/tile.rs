use vstd::prelude::*;
use vstd::string::StringExecFns;

verus! {

/// Ground truth of one grid cell.
#[derive(Debug, Clone, Copy, PartialEq, Eq, Structural)]
pub enum Tile {
    /// The cell holds a mine.
    Bomb,
    /// The cell is free and this many of its neighbours hold a mine.
    BombNeighbor(u8),
    /// The cell is free and so are all of its neighbours.
    Empty,
}

/// The character that stands for a digit.
pub open spec fn digit_char(d: nat) -> char {
    if d == 0 {
        '0'
    } else if d == 1 {
        '1'
    } else if d == 2 {
        '2'
    } else if d == 3 {
        '3'
    } else if d == 4 {
        '4'
    } else if d == 5 {
        '5'
    } else if d == 6 {
        '6'
    } else if d == 7 {
        '7'
    } else if d == 8 {
        '8'
    } else {
        '9'
    }
}

/// A number written in base ten, without leading zeros.
pub open spec fn decimal(n: nat) -> Seq<char>
    decreases n,
{
    if n < 10 {
        seq![digit_char(n)]
    } else {
        decimal(n / 10).push(digit_char(n % 10))
    }
}

/// The escape character that starts a terminal control sequence.
pub open spec fn escape() -> char {
    '\u{1b}'
}

/// `text` as it reaches a terminal in the foreground colour with the given
/// code: the sequence that selects the colour, the text, and the sequence
/// that resets the terminal.
pub open spec fn in_color(code: Seq<char>, text: Seq<char>) -> Seq<char> {
    seq![escape(), '['] + code + seq!['m'] + text + seq![escape(), '[', '0', 'm']
}

/// `out` is `text`, either bare or in the colour with the given code.
pub open spec fn painted(code: Seq<char>, text: Seq<char>, out: Seq<char>) -> bool {
    out == text || out == in_color(code, text)
}

/// The text holds no escape character.
pub open spec fn printable(text: Seq<char>) -> bool {
    forall|i: int| 0 <= i < text.len() ==> text[i] != escape()
}

/// `colored::Colorize::bright_red` on a string slice, formatted with
/// `Display`. Whether colours are written depends on the terminal and on the
/// environment, so the text comes back either as it is or between the
/// sequence for foreground colour 91 and the reset sequence. A reset sequence
/// inside the text would be rewritten, which `printable` rules out.
#[verifier::external_body]
fn bright_red(text: &str) -> (out: String)
    requires
        printable(text@),
    ensures
        painted(seq!['9', '1'], text@, out@),
{
    format!("{}", colored::Colorize::bright_red(text))
}

/// `colored::Colorize::red` on a string slice, formatted with `Display`:
/// the text as it is or in foreground colour 31.
#[verifier::external_body]
fn red(text: &str) -> (out: String)
    requires
        printable(text@),
    ensures
        painted(seq!['3', '1'], text@, out@),
{
    format!("{}", colored::Colorize::red(text))
}

/// `colored::Colorize::green` on a string slice, formatted with `Display`:
/// the text as it is or in foreground colour 32.
#[verifier::external_body]
fn green(text: &str) -> (out: String)
    requires
        printable(text@),
    ensures
        painted(seq!['3', '2'], text@, out@),
{
    format!("{}", colored::Colorize::green(text))
}

/// `colored::Colorize::yellow` on a string slice, formatted with `Display`:
/// the text as it is or in foreground colour 33.
#[verifier::external_body]
fn yellow(text: &str) -> (out: String)
    requires
        printable(text@),
    ensures
        painted(seq!['3', '3'], text@, out@),
{
    format!("{}", colored::Colorize::yellow(text))
}

/// `colored::Colorize::cyan` on a string slice, formatted with `Display`:
/// the text as it is or in foreground colour 36.
#[verifier::external_body]
fn cyan(text: &str) -> (out: String)
    requires
        printable(text@),
    ensures
        painted(seq!['3', '6'], text@, out@),
{
    format!("{}", colored::Colorize::cyan(text))
}

/// `colored::Colorize::normal` on a string slice, formatted with `Display`:
/// a string without colour or style is written as it is.
#[verifier::external_body]
fn normal(text: &str) -> (out: String)
    ensures
        out@ == text@,
{
    format!("{}", colored::Colorize::normal(text))
}

/// The one-character string for a digit.
fn digit_text(d: u8) -> (s: &'static str)
    requires
        d < 10,
    ensures
        s@ == seq![digit_char(d as nat)],
{
    proof {
        reveal_strlit("0");
        reveal_strlit("1");
        reveal_strlit("2");
        reveal_strlit("3");
        reveal_strlit("4");
        reveal_strlit("5");
        reveal_strlit("6");
        reveal_strlit("7");
        reveal_strlit("8");
        reveal_strlit("9");
    }
    let s = match d {
        0 => "0",
        1 => "1",
        2 => "2",
        3 => "3",
        4 => "4",
        5 => "5",
        6 => "6",
        7 => "7",
        8 => "8",
        _ => "9",
    };
    assert(s@ =~= seq![digit_char(d as nat)]);
    s
}

/// Writes a count in base ten.
fn decimal_text(v: u8) -> (s: String)
    ensures
        s@ == decimal(v as nat),
{
    reveal_with_fuel(decimal, 3);
    let mut s = String::new();
    if v >= 100 {
        s.append(digit_text(v / 100));
    }
    if v >= 10 {
        s.append(digit_text((v / 10) % 10));
    }
    s.append(digit_text(v % 10));
    assert(s@ =~= decimal(v as nat));
    s
}

/// A text of digits holds no escape character.
proof fn lemma_decimal_printable(n: nat)
    ensures
        printable(decimal(n)),
    decreases n,
{
    if n >= 10 {
        lemma_decimal_printable(n / 10);
    }
}

impl Tile {
    /// A count tile carries a count that eight neighbours can give.
    pub open spec fn wf(self) -> bool {
        self matches Tile::BombNeighbor(n) ==> 1 <= n <= 8
    }

    /// The text that stands for the tile on a console.
    pub open spec fn glyph(self) -> Seq<char> {
        match self {
            Tile::Bomb => seq!['*'],
            Tile::BombNeighbor(n) => decimal(n as nat),
            Tile::Empty => seq![' '],
        }
    }

    /// The code of the foreground colour that the tile is written in, if any.
    pub open spec fn color_code(self) -> Option<Seq<char>> {
        match self {
            Tile::Bomb => Some(seq!['9', '1']),
            Tile::BombNeighbor(n) => Some(
                if n == 1 {
                    seq!['3', '6']
                } else if n == 2 {
                    seq!['3', '2']
                } else if n == 3 {
                    seq!['3', '3']
                } else {
                    seq!['3', '1']
                },
            ),
            Tile::Empty => None,
        }
    }

    /// Whether the cell holds a mine.
    pub fn is_bomb(&self) -> (b: bool)
        ensures
            b == (*self is Bomb),
    {
        matches!(self, Tile::Bomb)
    }

    /// The tile as one console cell: a star for a mine, the count for a
    /// neighbour of mines, a blank for an empty cell. Mines are bright red,
    /// the counts one to three cyan, green and yellow, other counts red.
    /// Where the console takes no colours the bare text is returned.
    pub fn console_output(&self) -> (out: String)
        ensures
            match self.color_code() {
                Some(code) => painted(code, self.glyph(), out@),
                None => out@ == self.glyph(),
            },
    {
        match *self {
            Tile::Bomb => {
                proof {
                    reveal_strlit("*");
                }
                assert("*"@ =~= seq!['*']);
                bright_red("*")
            },
            Tile::BombNeighbor(v) => {
                let text = decimal_text(v);
                proof {
                    lemma_decimal_printable(v as nat);
                }
                if v == 1 {
                    cyan(text.as_str())
                } else if v == 2 {
                    green(text.as_str())
                } else if v == 3 {
                    yellow(text.as_str())
                } else {
                    red(text.as_str())
                }
            },
            Tile::Empty => {
                proof {
                    reveal_strlit(" ");
                }
                assert(" "@ =~= seq![' ']);
                normal(" ")
            },
        }
    }
}

} // verus!
