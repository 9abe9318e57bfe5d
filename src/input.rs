//! The set of actions a player holds down during one tick, as a bitmask.
use vstd::prelude::*;

verus! {

/// The actions a player can take.
#[derive(Debug, Clone, Copy, PartialEq, Eq, Structural)]
pub enum Input {
    Left,
    Right,
    Up,
    Down,
    Shoot,
    Bomb,
    Throw,
}

/// The bit position of an action in an input mask.
pub open spec fn input_index(input: Input) -> u8 {
    match input {
        Input::Left => 0,
        Input::Right => 1,
        Input::Up => 2,
        Input::Down => 3,
        Input::Shoot => 4,
        Input::Bomb => 5,
        Input::Throw => 6,
    }
}

/// The single-bit mask of an action.
pub open spec fn input_bit(input: Input) -> u8 {
    1u8 << input_index(input)
}

/// Whether `mask` holds `input`.
pub open spec fn mask_holds(mask: u8, input: Input) -> bool {
    mask & input_bit(input) != 0
}

/// The single-bit mask of an action.
pub fn input_bit_of(input: Input) -> (r: u8)
    ensures
        r == input_bit(input),
{
    match input {
        Input::Left => 1u8 << 0u8,
        Input::Right => 1u8 << 1u8,
        Input::Up => 1u8 << 2u8,
        Input::Down => 1u8 << 3u8,
        Input::Shoot => 1u8 << 4u8,
        Input::Bomb => 1u8 << 5u8,
        Input::Throw => 1u8 << 6u8,
    }
}

proof fn lemma_bits(mask: u8, i: u8, j: u8)
    requires
        i < 7,
        j < 7,
    ensures
        (mask | (1u8 << i)) & (1u8 << i) != 0,
        (mask & !(1u8 << i)) & (1u8 << i) == 0,
        i != j ==> (((mask | (1u8 << i)) & (1u8 << j) != 0) == (mask & (1u8 << j) != 0)),
        i != j ==> (((mask & !(1u8 << i)) & (1u8 << j) != 0) == (mask & (1u8 << j) != 0)),
        0u8 & (1u8 << i) == 0,
{
    assert((mask | (1u8 << i)) & (1u8 << i) != 0) by (bit_vector)
        requires
            i < 7,
    ;
    assert((mask & !(1u8 << i)) & (1u8 << i) == 0) by (bit_vector)
        requires
            i < 7,
    ;
    assert(i != j ==> (((mask | (1u8 << i)) & (1u8 << j) != 0) == (mask & (1u8 << j) != 0)))
        by (bit_vector)
        requires
            i < 7,
            j < 7,
    ;
    assert(i != j ==> (((mask & !(1u8 << i)) & (1u8 << j) != 0) == (mask & (1u8 << j) != 0)))
        by (bit_vector)
        requires
            i < 7,
            j < 7,
    ;
    assert(0u8 & (1u8 << i) == 0) by (bit_vector);
}

proof fn lemma_index_injective(a: Input, b: Input)
    ensures
        input_index(a) < 7,
        a != b ==> input_index(a) != input_index(b),
{
}

/// The actions held during one tick, one bit each.
#[derive(Debug, Clone, Copy, PartialEq, Eq, Structural)]
pub struct InputMask(u8);

impl View for InputMask {
    type V = u8;

    closed spec fn view(&self) -> u8 {
        self.0
    }
}

impl InputMask {
    /// The mask that holds no action.
    pub fn new() -> (r: Self)
        ensures
            r@ == 0,
            forall|i: Input| !mask_holds(r@, i),
    {
        proof {
            assert forall|i: Input| !mask_holds(0u8, i) by {
                lemma_index_injective(i, i);
                lemma_bits(0u8, input_index(i), input_index(i));
            }
        }
        InputMask(0)
    }

    /// The mask with the given bits.
    pub fn from_bits(bits: u8) -> (r: Self)
        ensures
            r@ == bits,
    {
        InputMask(bits)
    }

    /// The bits of the mask.
    pub fn bits(&self) -> (r: u8)
        ensures
            r == self@,
    {
        self.0
    }

    /// Adds `input` to the mask and keeps every other action as it was.
    pub fn add_mask(&mut self, input: Input)
        ensures
            final(self)@ == old(self)@ | input_bit(input),
            mask_holds(final(self)@, input),
            forall|j: Input| j != input ==> mask_holds(final(self)@, j) == mask_holds(old(self)@, j),
    {
        let ghost before = self.0;
        self.0 = self.0 | input_bit_of(input);
        proof {
            lemma_index_injective(input, input);
            lemma_bits(before, input_index(input), input_index(input));
            assert forall|j: Input| j != input implies mask_holds(self.0, j) == mask_holds(before, j) by {
                lemma_index_injective(input, j);
                lemma_index_injective(j, j);
                lemma_bits(before, input_index(input), input_index(j));
            }
        }
    }

    /// Whether the mask holds `input`.
    pub fn has_mask(&self, input: Input) -> (r: bool)
        ensures
            r == mask_holds(self@, input),
    {
        (self.0 & input_bit_of(input)) != 0
    }

    /// Removes `input` from the mask and keeps every other action as it was.
    pub fn remove_mask(&mut self, input: Input)
        ensures
            final(self)@ == old(self)@ & !input_bit(input),
            !mask_holds(final(self)@, input),
            forall|j: Input| j != input ==> mask_holds(final(self)@, j) == mask_holds(old(self)@, j),
    {
        let ghost before = self.0;
        self.0 = self.0 & !input_bit_of(input);
        proof {
            lemma_index_injective(input, input);
            lemma_bits(before, input_index(input), input_index(input));
            assert forall|j: Input| j != input implies mask_holds(self.0, j) == mask_holds(before, j) by {
                lemma_index_injective(input, j);
                lemma_index_injective(j, j);
                lemma_bits(before, input_index(input), input_index(j));
            }
        }
    }
}

impl Default for InputMask {
    fn default() -> (r: Self)
        ensures
            r@ == 0,
    {
        InputMask::new()
    }
}

} // verus!
