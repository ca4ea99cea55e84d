use vstd::prelude::*;

verus! {

/// The kind of one grid cell of a vehicle.
///
/// To the evolutionary engine a kind is only a tag that can be compared and
/// numbered; what a panel or a wheel does in the world is decided elsewhere.
#[derive(Clone, Copy, Debug, PartialEq, Eq, Hash, Structural)]
pub enum Block {
    Air,
    Panel,
    Wheel,
}

/// How two blocks that lie side by side are joined when a vehicle is built.
#[derive(Clone, Copy, Debug, PartialEq, Eq, Structural)]
pub enum Joint {
    /// They are not joined.
    Loose,
    /// Two panels are glued together.
    Fixed,
    /// A panel carries a wheel, which turns on it; the wheel is the second block.
    WheelSecond,
    /// A panel carries a wheel, which turns on it; the wheel is the first block.
    WheelFirst,
}

/// How many kinds of block there are.
pub const BLOCK_KINDS: u8 = 3;

impl Block {
    /// The number that stands for a kind: 0 for air, 1 for a panel, 2 for a wheel.
    pub open spec fn spec_code(self) -> u8 {
        match self {
            Block::Air => 0,
            Block::Panel => 1,
            Block::Wheel => 2,
        }
    }

    /// The kind that a number stands for, for the numbers below `BLOCK_KINDS`.
    pub open spec fn spec_from_code(code: u8) -> Option<Block> {
        if code == 0 {
            Some(Block::Air)
        } else if code == 1 {
            Some(Block::Panel)
        } else if code == 2 {
            Some(Block::Wheel)
        } else {
            None
        }
    }

    #[verifier::when_used_as_spec(spec_code)]
    pub fn code(self) -> (code: u8)
        ensures
            code == self.spec_code(),
            code < BLOCK_KINDS,
    {
        match self {
            Block::Air => 0,
            Block::Panel => 1,
            Block::Wheel => 2,
        }
    }

    /// Reads a kind back from its number; `None` for a number that stands for no kind.
    #[verifier::when_used_as_spec(spec_from_code)]
    pub fn from_code(code: u8) -> (kind: Option<Block>)
        ensures
            kind == Block::spec_from_code(code),
            kind is Some <==> code < BLOCK_KINDS,
    {
        if code == 0 {
            Some(Block::Air)
        } else if code == 1 {
            Some(Block::Panel)
        } else if code == 2 {
            Some(Block::Wheel)
        } else {
            None
        }
    }

    /// The sign that stands for a kind where a vehicle is written out.
    pub open spec fn spec_symbol(self) -> char {
        match self {
            Block::Air => '\u{25fb}',
            Block::Panel => '\u{25fc}',
            Block::Wheel => '\u{2b55}',
        }
    }

    #[verifier::when_used_as_spec(spec_symbol)]
    pub fn symbol(self) -> (sign: char)
        ensures
            sign == self.spec_symbol(),
    {
        match self {
            Block::Air => '\u{25fb}',
            Block::Panel => '\u{25fc}',
            Block::Wheel => '\u{2b55}',
        }
    }

    /// How this block is joined to a neighbour: panel to panel fixed, panel
    /// and wheel so that the wheel turns, and nothing else at all.
    pub open spec fn spec_joint_with(self, other: Block) -> Joint {
        match (self, other) {
            (Block::Panel, Block::Panel) => Joint::Fixed,
            (Block::Panel, Block::Wheel) => Joint::WheelSecond,
            (Block::Wheel, Block::Panel) => Joint::WheelFirst,
            _ => Joint::Loose,
        }
    }

    #[verifier::when_used_as_spec(spec_joint_with)]
    pub fn joint_with(self, other: Block) -> (joint: Joint)
        ensures
            joint == self.spec_joint_with(other),
    {
        match (self, other) {
            (Block::Panel, Block::Panel) => Joint::Fixed,
            (Block::Panel, Block::Wheel) => Joint::WheelSecond,
            (Block::Wheel, Block::Panel) => Joint::WheelFirst,
            _ => Joint::Loose,
        }
    }

    /// Every kind, in the order of their numbers.
    pub fn all() -> (kinds: Vec<Block>)
        ensures
            kinds@ == seq![Block::Air, Block::Panel, Block::Wheel],
    {
        let mut kinds: Vec<Block> = Vec::new();
        kinds.push(Block::Air);
        kinds.push(Block::Panel);
        kinds.push(Block::Wheel);
        kinds
    }

    /// A kind and its number determine each other.
    pub proof fn code_round_trip(kind: Block, code: u8)
        ensures
            Block::spec_from_code(kind.spec_code()) == Some(kind),
            Block::spec_from_code(code) matches Some(k) ==> k.spec_code() == code,
            kind.spec_code() < BLOCK_KINDS,
    {
    }
}

} // verus!
