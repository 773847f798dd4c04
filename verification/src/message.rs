use vstd::prelude::*;

use crate::letter::{letter_of, spec_char_index, spec_char_upper, spec_is_letter, Letter};

verus! {

/// One character of a message.
///
/// Letters are enciphered and carry their case; every other character is
/// passed through the machine verbatim.
#[derive(Debug, Clone, Copy, PartialEq, Eq, Structural)]
pub enum MessageChar {
    /// An encipherable letter; the flag records whether it was capitalised.
    Letter(Letter, bool),
    /// A character that is not a letter, carried unchanged.
    Passthrough(char),
}

/// The message character a given character tokenises to.
pub open spec fn spec_char_to_message_char(c: char) -> MessageChar {
    if spec_is_letter(c) {
        MessageChar::Letter(letter_of(spec_char_index(c)), spec_char_upper(c))
    } else {
        MessageChar::Passthrough(c)
    }
}

/// The character representation of a letter with the given case.
pub open spec fn spec_letter_char(l: Letter, capital: bool) -> char {
    if capital {
        match l {
            Letter::A => 'A',
            Letter::B => 'B',
            Letter::C => 'C',
            Letter::D => 'D',
            Letter::E => 'E',
            Letter::F => 'F',
            Letter::G => 'G',
            Letter::H => 'H',
            Letter::I => 'I',
            Letter::J => 'J',
            Letter::K => 'K',
            Letter::L => 'L',
            Letter::M => 'M',
            Letter::N => 'N',
            Letter::O => 'O',
            Letter::P => 'P',
            Letter::Q => 'Q',
            Letter::R => 'R',
            Letter::S => 'S',
            Letter::T => 'T',
            Letter::U => 'U',
            Letter::V => 'V',
            Letter::W => 'W',
            Letter::X => 'X',
            Letter::Y => 'Y',
            Letter::Z => 'Z',
        }
    } else {
        match l {
            Letter::A => 'a',
            Letter::B => 'b',
            Letter::C => 'c',
            Letter::D => 'd',
            Letter::E => 'e',
            Letter::F => 'f',
            Letter::G => 'g',
            Letter::H => 'h',
            Letter::I => 'i',
            Letter::J => 'j',
            Letter::K => 'k',
            Letter::L => 'l',
            Letter::M => 'm',
            Letter::N => 'n',
            Letter::O => 'o',
            Letter::P => 'p',
            Letter::Q => 'q',
            Letter::R => 'r',
            Letter::S => 's',
            Letter::T => 't',
            Letter::U => 'u',
            Letter::V => 'v',
            Letter::W => 'w',
            Letter::X => 'x',
            Letter::Y => 'y',
            Letter::Z => 'z',
        }
    }
}

/// The character a message character renders back to.
pub open spec fn spec_message_char_to_char(mc: MessageChar) -> char {
    match mc {
        MessageChar::Letter(l, capital) => spec_letter_char(l, capital),
        MessageChar::Passthrough(c) => c,
    }
}

impl MessageChar {
    /// Tokenise one character.
    pub fn from_char(c: char) -> (r: MessageChar)
        ensures
            r == spec_char_to_message_char(c),
    {
        match Letter::from_char(c) {
            Some((l, capital)) => MessageChar::Letter(l, capital),
            None => MessageChar::Passthrough(c),
        }
    }

    /// Render one message character back to a character.
    pub fn to_char(self) -> (r: char)
        ensures
            r == spec_message_char_to_char(self),
    {
        match self {
            MessageChar::Letter(l, capital) => l.to_char(capital),
            MessageChar::Passthrough(c) => c,
        }
    }
}

/// An ordered sequence of message characters.
#[derive(Debug)]
pub struct Message {
    chars: Vec<MessageChar>,
}

impl View for Message {
    type V = Seq<MessageChar>;

    closed spec fn view(&self) -> Seq<MessageChar> {
        self.chars@
    }
}

/// The tokenisation of a character sequence.
pub open spec fn spec_tokenize(s: Seq<char>) -> Seq<MessageChar> {
    s.map_values(|c: char| spec_char_to_message_char(c))
}

/// The rendering of a message back to a character sequence.
pub open spec fn spec_render(m: Seq<MessageChar>) -> Seq<char> {
    m.map_values(|mc: MessageChar| spec_message_char_to_char(mc))
}

impl Message {
    /// Tokenise a string into a message.
    pub fn from(value: String) -> (r: Message)
        ensures
            r@ == spec_tokenize(value@),
    {
        let cs = str_chars(value.as_str());
        let mut chars: Vec<MessageChar> = Vec::new();
        let n = cs.len();
        let mut i: usize = 0;
        while i < n
            invariant
                n == cs@.len(),
                i <= n,
                cs@ == value@,
                chars@ =~= spec_tokenize(value@.take(i as int)),
            decreases n - i,
        {
            chars.push(MessageChar::from_char(cs[i]));
            proof {
                assert(chars@ =~= spec_tokenize(value@.take(i as int + 1)));
            }
            i = i + 1;
        }
        proof {
            assert(value@.take(n as int) =~= value@);
        }
        Message { chars }
    }

    /// Render the message back to a string.
    pub fn to_string(&self) -> (r: String)
        ensures
            r@ == spec_render(self@),
    {
        let mut out = String::new();
        let n = self.chars.len();
        let mut i: usize = 0;
        while i < n
            invariant
                n == self.chars@.len(),
                i <= n,
                out@ =~= spec_render(self.chars@.take(i as int)),
            decreases n - i,
        {
            push_char(&mut out, self.chars[i].to_char());
            proof {
                assert(out@ =~= spec_render(self.chars@.take(i as int + 1)));
            }
            i = i + 1;
        }
        proof {
            assert(self.chars@.take(n as int) =~= self.chars@);
        }
        out
    }

    /// The number of message characters.
    pub fn len(&self) -> (n: usize)
        ensures
            n == self@.len(),
    {
        self.chars.len()
    }

    /// The message character at a position.
    pub fn char_at(&self, i: usize) -> (r: MessageChar)
        requires
            i < self@.len(),
        ensures
            r == self@[i as int],
    {
        self.chars[i]
    }

    /// The message characters as a slice.
    pub fn as_slice(&self) -> (r: &[MessageChar])
        ensures
            r@ == self@,
    {
        self.chars.as_slice()
    }

    /// The sub-message covering positions `start` up to (excluding) `end`.
    pub fn slice(&self, start: usize, end: usize) -> (r: Message)
        requires
            start <= end <= self@.len(),
        ensures
            r@ == self@.subrange(start as int, end as int),
    {
        let mut chars: Vec<MessageChar> = Vec::new();
        let mut i: usize = start;
        while i < end
            invariant
                start <= i <= end <= self.chars@.len(),
                chars@ =~= self.chars@.subrange(start as int, i as int),
            decreases end - i,
        {
            chars.push(self.chars[i]);
            proof {
                assert(chars@ =~= self.chars@.subrange(start as int, i as int + 1));
            }
            i = i + 1;
        }
        Message { chars }
    }

    /// Build a message directly from message characters.
    pub fn from_chars(chars: Vec<MessageChar>) -> (r: Message)
        ensures
            r@ == chars@,
    {
        Message { chars }
    }
}

/// Rendering undoes tokenising for a single character.
pub proof fn lemma_char_round_trip(c: char)
    ensures
        spec_message_char_to_char(spec_char_to_message_char(c)) == c,
{
    if spec_is_letter(c) {
        let l = letter_of(spec_char_index(c));
        let capital = spec_char_upper(c);
        crate::letter::lemma_letter_of_view(l);
        assert(spec_letter_char(l, capital) as int == c as int);
    }
}

/// Tokenising a character stream and rendering it back yields the stream
/// unchanged: parsing a string into a message is lossless.
pub proof fn lemma_message_round_trip(s: Seq<char>)
    ensures
        spec_render(spec_tokenize(s)) == s,
{
    let t = spec_render(spec_tokenize(s));
    assert forall|i: int| 0 <= i < s.len() implies t[i] == s[i] by {
        lemma_char_round_trip(s[i]);
    }
    assert(t =~= s);
}

/// Relies on str::chars: yields the string's characters in order.
#[verifier::external_body]
fn str_chars(s: &str) -> (r: Vec<char>)
    ensures
        r@ == s@,
{
    s.chars().collect()
}

/// Relies on String::push: appends one character to the string.
#[verifier::external_body]
fn push_char(s: &mut String, c: char)
    ensures
        final(s)@ == old(s)@.push(c),
{
    s.push(c);
}

} // verus!
