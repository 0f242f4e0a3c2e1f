//! Items a tile can show: the letters A to Z.

use vstd::prelude::*;

use crate::rng;

verus! {

/// An item a tile can have
#[derive(PartialEq, Eq, Structural, Clone, Copy, Debug)]
pub enum Item {
    A,
    B,
    C,
    D,
    E,
    F,
    G,
    H,
    I,
    J,
    K,
    L,
    M,
    N,
    O,
    P,
    Q,
    R,
    S,
    T,
    U,
    V,
    W,
    X,
    Y,
    Z,
}

impl Item {
    /// The character of the item: its letter.
    pub open spec fn char_spec(self) -> char {
        match self {
            Item::A => 'A',
            Item::B => 'B',
            Item::C => 'C',
            Item::D => 'D',
            Item::E => 'E',
            Item::F => 'F',
            Item::G => 'G',
            Item::H => 'H',
            Item::I => 'I',
            Item::J => 'J',
            Item::K => 'K',
            Item::L => 'L',
            Item::M => 'M',
            Item::N => 'N',
            Item::O => 'O',
            Item::P => 'P',
            Item::Q => 'Q',
            Item::R => 'R',
            Item::S => 'S',
            Item::T => 'T',
            Item::U => 'U',
            Item::V => 'V',
            Item::W => 'W',
            Item::X => 'X',
            Item::Y => 'Y',
            Item::Z => 'Z',
        }
    }

    /// Get the character for the given item
    pub fn char(&self) -> (r: char)
        ensures
            r == self.char_spec(),
    {
        match *self {
            Item::A => 'A',
            Item::B => 'B',
            Item::C => 'C',
            Item::D => 'D',
            Item::E => 'E',
            Item::F => 'F',
            Item::G => 'G',
            Item::H => 'H',
            Item::I => 'I',
            Item::J => 'J',
            Item::K => 'K',
            Item::L => 'L',
            Item::M => 'M',
            Item::N => 'N',
            Item::O => 'O',
            Item::P => 'P',
            Item::Q => 'Q',
            Item::R => 'R',
            Item::S => 'S',
            Item::T => 'T',
            Item::U => 'U',
            Item::V => 'V',
            Item::W => 'W',
            Item::X => 'X',
            Item::Y => 'Y',
            Item::Z => 'Z',
        }
    }

    /// The `i`-th item in alphabetical order, for `i < 26`.
    pub fn from_index(i: usize) -> (r: Item)
        requires
            i < 26,
        ensures
            r.char_spec() as int == 65 + i,
    {
        match i {
            0 => Item::A,
            1 => Item::B,
            2 => Item::C,
            3 => Item::D,
            4 => Item::E,
            5 => Item::F,
            6 => Item::G,
            7 => Item::H,
            8 => Item::I,
            9 => Item::J,
            10 => Item::K,
            11 => Item::L,
            12 => Item::M,
            13 => Item::N,
            14 => Item::O,
            15 => Item::P,
            16 => Item::Q,
            17 => Item::R,
            18 => Item::S,
            19 => Item::T,
            20 => Item::U,
            21 => Item::V,
            22 => Item::W,
            23 => Item::X,
            24 => Item::Y,
            _ => Item::Z,
        }
    }

    /// A random item, each equally likely.
    pub fn random() -> (r: Item) {
        Item::from_index(rng::random_below(26))
    }
}

/// Different items show different characters, all capital letters.
pub proof fn lemma_item_chars(a: Item, b: Item)
    ensures
        'A' <= a.char_spec() <= 'Z',
        a != b ==> a.char_spec() != b.char_spec(),
{
}

} // verus!
