//! Player information

use vstd::prelude::*;

verus! {

/// The ID assigned to a player
pub type PlayerID = u64;

/// A token color, as 8-bit red, green and blue channels.
#[derive(PartialEq, Eq, Structural, Clone, Copy, Debug)]
pub struct Color(pub u8, pub u8, pub u8);

/// The lowercase hexadecimal digit for `n < 16`.
pub open spec fn hex_digit(n: int) -> char {
    if n < 10 {
        (48 + n) as char
    } else {
        (87 + n) as char
    }
}

/// Two lowercase hexadecimal digits for a byte.
pub open spec fn byte_hex(b: u8) -> Seq<char> {
    seq![hex_digit(b as int / 16), hex_digit(b as int % 16)]
}

/// The value of a hexadecimal digit (either case), if `c` is one.
pub open spec fn hex_value(c: char) -> Option<int> {
    if '0' <= c && c <= '9' {
        Some(c as int - 48)
    } else if 'a' <= c && c <= 'f' {
        Some(c as int - 87)
    } else if 'A' <= c && c <= 'F' {
        Some(c as int - 55)
    } else {
        None
    }
}

/// The byte written by two hexadecimal digits, if both are digits.
pub open spec fn hex_pair(hi: char, lo: char) -> Option<u8> {
    match (hex_value(hi), hex_value(lo)) {
        (Some(h), Some(l)) => Some((h * 16 + l) as u8),
        _ => None,
    }
}

/// The color written as `#rrggbb`, if `s` has that form.
pub open spec fn color_of_hex(s: Seq<char>) -> Option<Color> {
    if s.len() == 7 && s[0] == '#' {
        match (hex_pair(s[1], s[2]), hex_pair(s[3], s[4]), hex_pair(s[5], s[6])) {
            (Some(r), Some(g), Some(b)) => Some(Color(r, g, b)),
            _ => None,
        }
    } else {
        None
    }
}

fn digit_str(n: u8) -> (r: &'static str)
    requires
        n < 16,
    ensures
        r@ == seq![hex_digit(n as int)],
{
    proof {
        reveal_strlit("0");
        reveal_strlit("1");
        reveal_strlit("2");
        reveal_strlit("3");
        reveal_strlit("4");
        reveal_strlit("5");
        reveal_strlit("6");
        reveal_strlit("7");
        reveal_strlit("8");
        reveal_strlit("9");
        reveal_strlit("a");
        reveal_strlit("b");
        reveal_strlit("c");
        reveal_strlit("d");
        reveal_strlit("e");
        reveal_strlit("f");
    }
    if n == 0 {
        "0"
    } else if n == 1 {
        "1"
    } else if n == 2 {
        "2"
    } else if n == 3 {
        "3"
    } else if n == 4 {
        "4"
    } else if n == 5 {
        "5"
    } else if n == 6 {
        "6"
    } else if n == 7 {
        "7"
    } else if n == 8 {
        "8"
    } else if n == 9 {
        "9"
    } else if n == 10 {
        "a"
    } else if n == 11 {
        "b"
    } else if n == 12 {
        "c"
    } else if n == 13 {
        "d"
    } else if n == 14 {
        "e"
    } else {
        "f"
    }
}

fn digit_value(c: char) -> (r: Option<u8>)
    ensures
        match hex_value(c) {
            Some(v) => r == Some(v as u8) && v < 16,
            None => r is None,
        },
{
    if '0' <= c && c <= '9' {
        Some((c as u32 - 48) as u8)
    } else if 'a' <= c && c <= 'f' {
        Some((c as u32 - 87) as u8)
    } else if 'A' <= c && c <= 'F' {
        Some((c as u32 - 55) as u8)
    } else {
        None
    }
}

impl Color {
    /// The color as a `#rrggbb` string with lowercase digits.
    pub open spec fn hex_spec(self) -> Seq<char> {
        seq!['#'] + byte_hex(self.0) + byte_hex(self.1) + byte_hex(self.2)
    }

    /// Formats the color as `#rrggbb` (lowercase hexadecimal)
    pub fn hex(&self) -> (r: String)
        ensures
            r@ == self.hex_spec(),
    {
        proof {
            reveal_strlit("#");
        }
        let mut s = String::from_str("#");
        s.append(digit_str(self.0 / 16));
        s.append(digit_str(self.0 % 16));
        s.append(digit_str(self.1 / 16));
        s.append(digit_str(self.1 % 16));
        s.append(digit_str(self.2 / 16));
        s.append(digit_str(self.2 % 16));
        s
    }

    /// Reads a `#rrggbb` color (digits in either case); `None` when `s` has another form.
    pub fn parse_hex(s: &str) -> (r: Option<Color>)
        ensures
            r == color_of_hex(s@),
    {
        let mut cs: Vec<char> = Vec::new();
        for c in it: s.chars()
            invariant
                cs@ == it.seq().subrange(0, it.index() as int),
                it.seq() == s@,
        {
            cs.push(c);
            proof {
                assert(it.seq().subrange(0, it.index() + 1) == it.seq().subrange(
                    0,
                    it.index() as int,
                ).push(c));
            }
        }
        assert(cs@ == s@);
        if cs.len() != 7 || cs[0] != '#' {
            return None;
        }
        let r = match Color::parse_pair(cs[1], cs[2]) {
            Some(v) => v,
            None => {
                return None;
            },
        };
        let g = match Color::parse_pair(cs[3], cs[4]) {
            Some(v) => v,
            None => {
                return None;
            },
        };
        let b = match Color::parse_pair(cs[5], cs[6]) {
            Some(v) => v,
            None => {
                return None;
            },
        };
        Some(Color(r, g, b))
    }

    fn parse_pair(hi: char, lo: char) -> (r: Option<u8>)
        ensures
            r == hex_pair(hi, lo),
    {
        match (digit_value(hi), digit_value(lo)) {
            (Some(h), Some(l)) => Some(h * 16 + l),
            _ => None,
        }
    }
}

/// Formatting a color and reading it back gives the same color.
pub proof fn lemma_hex_roundtrip(c: Color)
    ensures
        color_of_hex(c.hex_spec()) == Some(c),
{
    let s = c.hex_spec();
    assert(s.len() == 7);
    assert(s[0] == '#');
    assert(s[1] == hex_digit(c.0 as int / 16));
    assert(s[2] == hex_digit(c.0 as int % 16));
    assert(s[3] == hex_digit(c.1 as int / 16));
    assert(s[4] == hex_digit(c.1 as int % 16));
    assert(s[5] == hex_digit(c.2 as int / 16));
    assert(s[6] == hex_digit(c.2 as int % 16));
}

/// Information about a player
#[derive(Debug)]
pub struct Player {
    /// Name
    pub name: String,
    /// Token color
    pub color: Color,
    /// ID
    pub id: PlayerID,
    /// Parent player (player whose ID is attached to the game instance)
    pub parent: Option<PlayerID>,
}

impl Clone for Player {
    fn clone(&self) -> (r: Self)
        ensures
            r == *self,
    {
        Player { name: self.name.clone(), color: self.color, id: self.id, parent: self.parent }
    }
}

impl Player {
    /// Create a new player
    pub fn new(name: String, color: Color, id: PlayerID) -> (r: Player)
        ensures
            r == (Player { name, color, id, parent: None }),
    {
        Player { name, color, id, parent: None }
    }

    /// Create a new player with the given parent ID
    pub fn new_child(name: String, color: Color, id: PlayerID, parent: PlayerID) -> (r: Player)
        ensures
            r == (Player { name, color, id, parent: Some(parent) }),
    {
        Player { name, color, id, parent: Some(parent) }
    }

    /// Whether the player has, or has a parent with, the given ID.
    pub open spec fn lives_with_spec(&self, target: PlayerID) -> bool {
        self.id == target || self.parent == Some(target)
    }

    /// Checks if the given player has, or has a parent with, the given ID
    pub fn lives_with(&self, target: PlayerID) -> (r: bool)
        ensures
            r == self.lives_with_spec(target),
    {
        self.id == target || match self.parent {
            Some(p) => p == target,
            None => false,
        }
    }
}

} // verus!
