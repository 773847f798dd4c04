use vstd::prelude::*;

verus! {

/// Size of the alphabet the machine operates on.
pub const NUM_LETTERS: usize = 26;

/// One of the 26 letters the machine can encipher, ordered A..Z.
#[derive(Debug, Clone, Copy, PartialEq, Eq, Structural, Hash)]
pub enum Letter {
    A,
    B,
    C,
    D,
    E,
    F,
    G,
    H,
    I,
    J,
    K,
    L,
    M,
    N,
    O,
    P,
    Q,
    R,
    S,
    T,
    U,
    V,
    W,
    X,
    Y,
    Z,
}

impl View for Letter {
    type V = int;

    /// A letter is modelled by its position in the alphabet, 0 through 25.
    open spec fn view(&self) -> int {
        match self {
            Letter::A => 0,
            Letter::B => 1,
            Letter::C => 2,
            Letter::D => 3,
            Letter::E => 4,
            Letter::F => 5,
            Letter::G => 6,
            Letter::H => 7,
            Letter::I => 8,
            Letter::J => 9,
            Letter::K => 10,
            Letter::L => 11,
            Letter::M => 12,
            Letter::N => 13,
            Letter::O => 14,
            Letter::P => 15,
            Letter::Q => 16,
            Letter::R => 17,
            Letter::S => 18,
            Letter::T => 19,
            Letter::U => 20,
            Letter::V => 21,
            Letter::W => 22,
            Letter::X => 23,
            Letter::Y => 24,
            Letter::Z => 25,
        }
    }
}

/// The letter standing at a given alphabet position.
pub open spec fn letter_of(n: int) -> Letter {
    if n == 0 {
        Letter::A
    } else if n == 1 {
        Letter::B
    } else if n == 2 {
        Letter::C
    } else if n == 3 {
        Letter::D
    } else if n == 4 {
        Letter::E
    } else if n == 5 {
        Letter::F
    } else if n == 6 {
        Letter::G
    } else if n == 7 {
        Letter::H
    } else if n == 8 {
        Letter::I
    } else if n == 9 {
        Letter::J
    } else if n == 10 {
        Letter::K
    } else if n == 11 {
        Letter::L
    } else if n == 12 {
        Letter::M
    } else if n == 13 {
        Letter::N
    } else if n == 14 {
        Letter::O
    } else if n == 15 {
        Letter::P
    } else if n == 16 {
        Letter::Q
    } else if n == 17 {
        Letter::R
    } else if n == 18 {
        Letter::S
    } else if n == 19 {
        Letter::T
    } else if n == 20 {
        Letter::U
    } else if n == 21 {
        Letter::V
    } else if n == 22 {
        Letter::W
    } else if n == 23 {
        Letter::X
    } else if n == 24 {
        Letter::Y
    } else {
        Letter::Z
    }
}

/// A letter's position always lies in the alphabet.
pub broadcast proof fn lemma_letter_view_range(l: Letter)
    ensures
        0 <= #[trigger] l@ < 26,
{
}

/// `letter_of` inverts the view on both sides.
pub broadcast proof fn lemma_letter_of_view(l: Letter)
    ensures
        #[trigger] letter_of(l@) == l,
{
}

/// `letter_of` returns the letter at the asked-for position.
pub broadcast proof fn lemma_letter_of_val(n: int)
    requires
        0 <= n < 26,
    ensures
        (#[trigger] letter_of(n))@ == n,
{
}

/// Whether a character is an ASCII letter, and so encipherable.
pub open spec fn spec_is_letter(c: char) -> bool {
    ('a' <= c && c <= 'z') || ('A' <= c && c <= 'Z')
}

/// The alphabet position a letter character stands for.
pub open spec fn spec_char_index(c: char) -> int {
    if 'a' <= c && c <= 'z' {
        c as int - 'a' as int
    } else {
        c as int - 'A' as int
    }
}

/// Whether a letter character is upper case.
pub open spec fn spec_char_upper(c: char) -> bool {
    'A' <= c && c <= 'Z'
}

impl Letter {
    /// Create from a usize, which must be in range 0..26
    pub fn from_usize(n: usize) -> (r: Option<Letter>)
        ensures
            n < 26 ==> r == Some(letter_of(n as int)),
            n >= 26 ==> r is None,
    {
        if n < 26 {
            Some(index_to_letter(n))
        } else {
            None
        }
    }

    /// Convert a char to a letter if it is one.
    ///
    /// Returns the letter, and whether the character was capitalised.
    pub fn from_char(c: char) -> (r: Option<(Letter, bool)>)
        ensures
            spec_is_letter(c) ==> r == Some((letter_of(spec_char_index(c)), spec_char_upper(c))),
            !spec_is_letter(c) ==> r is None,
    {
        if 'a' <= c && c <= 'z' {
            let n = (c as u32 - 'a' as u32) as usize;
            Some((index_to_letter(n), false))
        } else if 'A' <= c && c <= 'Z' {
            let n = (c as u32 - 'A' as u32) as usize;
            Some((index_to_letter(n), true))
        } else {
            None
        }
    }

    /// Convert a letter back to its character representation
    pub fn to_char(self, capital: bool) -> (c: char)
        ensures
            spec_is_letter(c),
            spec_char_index(c) == self@,
            spec_char_upper(c) == capital,
    {
        if capital {
            match self {
                Letter::A => 'A',
                Letter::B => 'B',
                Letter::C => 'C',
                Letter::D => 'D',
                Letter::E => 'E',
                Letter::F => 'F',
                Letter::G => 'G',
                Letter::H => 'H',
                Letter::I => 'I',
                Letter::J => 'J',
                Letter::K => 'K',
                Letter::L => 'L',
                Letter::M => 'M',
                Letter::N => 'N',
                Letter::O => 'O',
                Letter::P => 'P',
                Letter::Q => 'Q',
                Letter::R => 'R',
                Letter::S => 'S',
                Letter::T => 'T',
                Letter::U => 'U',
                Letter::V => 'V',
                Letter::W => 'W',
                Letter::X => 'X',
                Letter::Y => 'Y',
                Letter::Z => 'Z',
            }
        } else {
            match self {
                Letter::A => 'a',
                Letter::B => 'b',
                Letter::C => 'c',
                Letter::D => 'd',
                Letter::E => 'e',
                Letter::F => 'f',
                Letter::G => 'g',
                Letter::H => 'h',
                Letter::I => 'i',
                Letter::J => 'j',
                Letter::K => 'k',
                Letter::L => 'l',
                Letter::M => 'm',
                Letter::N => 'n',
                Letter::O => 'o',
                Letter::P => 'p',
                Letter::Q => 'q',
                Letter::R => 'r',
                Letter::S => 's',
                Letter::T => 't',
                Letter::U => 'u',
                Letter::V => 'v',
                Letter::W => 'w',
                Letter::X => 'x',
                Letter::Y => 'y',
                Letter::Z => 'z',
            }
        }
    }

    /// Add an offset, wrapping around the alphabet.
    pub fn add_usize(self, rhs: usize) -> (r: Letter)
        ensures
            r@ == (self@ + rhs as int) % 26,
    {
        let n = (letter_to_index(self) + rhs % 26) % 26;
        proof {
            vstd::arithmetic::div_mod::lemma_add_mod_noop(self@, rhs as int, 26);
            vstd::arithmetic::div_mod::lemma_mod_twice(rhs as int, 26);
            vstd::arithmetic::div_mod::lemma_mod_twice(self@ + rhs as int, 26);
        }
        index_to_letter(n)
    }

    /// Subtract an offset, wrapping around the alphabet.
    pub fn sub_usize(self, rhs: usize) -> (r: Letter)
        ensures
            r@ == (self@ - rhs as int) % 26,
    {
        let n = (letter_to_index(self) + (26 - rhs % 26)) % 26;
        proof {
            let a = self@;
            let b = rhs as int;
            vstd::arithmetic::div_mod::lemma_add_mod_noop(a + (26 - b % 26), b % 26 - 26, 26);
            vstd::arithmetic::div_mod::lemma_mod_self_0(26);
            vstd::arithmetic::div_mod::lemma_sub_mod_noop(a, b, 26);
            vstd::arithmetic::div_mod::lemma_mod_twice(b, 26);
            vstd::arithmetic::div_mod::lemma_mod_twice(a - b, 26);
            vstd::arithmetic::div_mod::lemma_mod_twice(a + (26 - b % 26), 26);
            assert((a + (26 - b % 26)) + (b % 26 - 26) == a);
        }
        index_to_letter(n)
    }

    /// Add another letter's alphabet position, wrapping around.
    pub fn add_letter(self, rhs: Letter) -> (r: Letter)
        ensures
            r@ == (self@ + rhs@) % 26,
    {
        let n = (letter_to_index(self) + letter_to_index(rhs)) % 26;
        index_to_letter(n)
    }

    /// Subtract another letter's alphabet position, wrapping around.
    pub fn sub_letter(self, rhs: Letter) -> (r: Letter)
        ensures
            r@ == (self@ - rhs@) % 26,
    {
        let n = (letter_to_index(self) + 26 - letter_to_index(rhs)) % 26;
        proof {
            vstd::arithmetic::div_mod::lemma_mod_add_multiples_vanish(self@ - rhs@, 26);
        }
        index_to_letter(n)
    }

    /// All 26 letters, in alphabetical order.
    pub fn all() -> (r: Vec<Letter>)
        ensures
            r@.len() == 26,
            forall|i: int| 0 <= i < 26 ==> (#[trigger] r@[i])@ == i,
    {
        let mut v: Vec<Letter> = Vec::new();
        let mut n: usize = 0;
        while n < 26
            invariant
                n <= 26,
                v@.len() == n,
                forall|i: int| 0 <= i < n ==> (#[trigger] v@[i])@ == i,
            decreases 26 - n,
        {
            v.push(index_to_letter(n));
            n = n + 1;
        }
        v
    }
}

/// The alphabet position of a letter.
pub fn letter_to_index(l: Letter) -> (n: usize)
    ensures
        n == l@,
        n < 26,
{
    match l {
        Letter::A => 0,
        Letter::B => 1,
        Letter::C => 2,
        Letter::D => 3,
        Letter::E => 4,
        Letter::F => 5,
        Letter::G => 6,
        Letter::H => 7,
        Letter::I => 8,
        Letter::J => 9,
        Letter::K => 10,
        Letter::L => 11,
        Letter::M => 12,
        Letter::N => 13,
        Letter::O => 14,
        Letter::P => 15,
        Letter::Q => 16,
        Letter::R => 17,
        Letter::S => 18,
        Letter::T => 19,
        Letter::U => 20,
        Letter::V => 21,
        Letter::W => 22,
        Letter::X => 23,
        Letter::Y => 24,
        Letter::Z => 25,
    }
}

/// The letter standing at a given alphabet position.
pub fn index_to_letter(n: usize) -> (l: Letter)
    requires
        n < 26,
    ensures
        l == letter_of(n as int),
        l@ == n,
{
    if n == 0 {
        Letter::A
    } else if n == 1 {
        Letter::B
    } else if n == 2 {
        Letter::C
    } else if n == 3 {
        Letter::D
    } else if n == 4 {
        Letter::E
    } else if n == 5 {
        Letter::F
    } else if n == 6 {
        Letter::G
    } else if n == 7 {
        Letter::H
    } else if n == 8 {
        Letter::I
    } else if n == 9 {
        Letter::J
    } else if n == 10 {
        Letter::K
    } else if n == 11 {
        Letter::L
    } else if n == 12 {
        Letter::M
    } else if n == 13 {
        Letter::N
    } else if n == 14 {
        Letter::O
    } else if n == 15 {
        Letter::P
    } else if n == 16 {
        Letter::Q
    } else if n == 17 {
        Letter::R
    } else if n == 18 {
        Letter::S
    } else if n == 19 {
        Letter::T
    } else if n == 20 {
        Letter::U
    } else if n == 21 {
        Letter::V
    } else if n == 22 {
        Letter::W
    } else if n == 23 {
        Letter::X
    } else if n == 24 {
        Letter::Y
    } else {
        Letter::Z
    }
}

} // verus!
