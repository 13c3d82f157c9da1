use vstd::prelude::*;
use crate::color::Color;
use crate::position::Position;

verus! {

/// The seven tetromino kinds.
#[derive(Debug, Copy, Clone, PartialEq, Eq, Structural)]
pub enum PieceId {
    I,
    O,
    T,
    S,
    Z,
    L,
    J,
}

/// The display color of each piece kind.
pub open spec fn spec_color(id: PieceId) -> Color {
    match id {
        PieceId::I => Color(0, 255, 255, 0xFF),
        PieceId::O => Color(255, 255, 0, 0xFF),
        PieceId::T => Color(128, 0, 128, 0xFF),
        PieceId::S => Color(0, 255, 0, 0xFF),
        PieceId::Z => Color(255, 0, 0, 0xFF),
        PieceId::L => Color(255, 165, 0, 0xFF),
        PieceId::J => Color(0, 0, 255, 0xFF),
    }
}

impl PieceId {
    /// A piece kind drawn at random, for the next piece to fall.
    pub fn random(source: &mut random::Xorshift128Plus) -> PieceId {
        match crate::rng::pick_index(source, 7) {
            0 => PieceId::I,
            1 => PieceId::O,
            2 => PieceId::T,
            3 => PieceId::S,
            4 => PieceId::Z,
            5 => PieceId::L,
            _ => PieceId::J,
        }
    }

    pub fn color(&self) -> (r: Color)
        ensures
            r == spec_color(*self),
    {
        match self {
            Self::I => Color::from((0, 255, 255)),
            Self::O => Color::from((255, 255, 0)),
            Self::T => Color::from((128, 0, 128)),
            Self::S => Color::from((0, 255, 0)),
            Self::Z => Color::from((255, 0, 0)),
            Self::L => Color::from((255, 165, 0)),
            Self::J => Color::from((0, 0, 255)),
        }
    }
}

/// One occupied cell of a piece, relative to the piece's pivot.
#[derive(Debug, Copy, Clone, PartialEq, Eq, Structural)]
pub struct Bit(pub i8, pub i8);

impl Bit {
    pub fn x(&self) -> (r: i8)
        ensures
            r == self.0,
    {
        self.0
    }

    pub fn y(&self) -> (r: i8)
        ensures
            r == self.1,
    {
        self.1
    }

    /// The absolute cell this bit lands on when the piece pivot sits at `position`.
    pub fn translate(&self, position: &Position) -> (r: Bit)
        requires
            i8::MIN <= self.0 + position.0 <= i8::MAX,
            i8::MIN <= self.1 + position.1 <= i8::MAX,
        ensures
            r.0 == self.0 + position.0,
            r.1 == self.1 + position.1,
    {
        let x = self.0 as i16 + position.0 as i16;
        let y = self.1 as i16 + position.1 as i16;
        Bit(x as i8, y as i8)
    }
}

/// A quarter turn clockwise around the pivot.
pub open spec fn spec_rotated(b: Bit) -> Bit {
    Bit(b.1, (-(b.0 as int)) as i8)
}

/// The cells each piece kind occupies in its spawn orientation,
/// following the super rotation system.
pub open spec fn spec_bits(id: PieceId) -> Seq<Bit> {
    match id {
        PieceId::I => seq![Bit(-2i8, 0i8), Bit(-1i8, 0i8), Bit(0i8, 0i8), Bit(1i8, 0i8)],
        PieceId::O => seq![Bit(0i8, 0i8), Bit(0i8, 1i8), Bit(1i8, 0i8), Bit(1i8, 1i8)],
        PieceId::J => seq![Bit(-1i8, -1i8), Bit(-1i8, 0i8), Bit(0i8, 0i8), Bit(1i8, 0i8)],
        PieceId::L => seq![Bit(-1i8, 0i8), Bit(0i8, 0i8), Bit(1i8, -1i8), Bit(1i8, 0i8)],
        PieceId::T => seq![Bit(-1i8, 0i8), Bit(0i8, 0i8), Bit(1i8, 0i8), Bit(0i8, 1i8)],
        PieceId::S => seq![Bit(-1i8, 1i8), Bit(0i8, 0i8), Bit(0i8, 1i8), Bit(1i8, 0i8)],
        PieceId::Z => seq![Bit(-1i8, 0i8), Bit(0i8, 0i8), Bit(0i8, 1i8), Bit(1i8, 1i8)],
    }
}

/// A piece: its kind, the cells it occupies, and its color.
#[derive(Debug)]
pub struct Piece {
    pub id: PieceId,
    pub bits: Vec<Bit>,
    pub color: Color,
}

impl Piece {
    pub fn id(&self) -> (r: PieceId)
        ensures
            r == self.id,
    {
        self.id
    }

    pub fn bits(&self) -> (r: &[Bit])
        ensures
            r@ == self.bits@,
    {
        self.bits.as_slice()
    }

    pub fn color(&self) -> (r: &Color)
        ensures
            r == &self.color,
    {
        &self.color
    }

    /// Turn the piece a quarter turn clockwise; the square piece is symmetric
    /// under rotation and is left untouched.
    pub fn rotate(&mut self)
        requires
            old(self).id != PieceId::O ==> forall|i: int|
                0 <= i < old(self).bits@.len() ==> (#[trigger] old(self).bits@[i]).0 != i8::MIN,
        ensures
            final(self).id == old(self).id,
            final(self).color == old(self).color,
            final(self).bits@.len() == old(self).bits@.len(),
            old(self).id == PieceId::O ==> final(self).bits@ == old(self).bits@,
            old(self).id != PieceId::O ==> forall|i: int|
                0 <= i < old(self).bits@.len() ==> final(self).bits@[i] == spec_rotated(
                    #[trigger] old(self).bits@[i],
                ),
    {
        if self.id == PieceId::O {
            return ;
        }
        let n = self.bits.len();
        let mut i: usize = 0;
        while i < n
            invariant
                n == self.bits.len(),
                n == old(self).bits@.len(),
                i <= n,
                self.id == old(self).id,
                self.color == old(self).color,
                forall|j: int| i <= j < n ==> self.bits@[j] == (#[trigger] old(self).bits@[j]),
                forall|j: int|
                    0 <= j < n ==> (#[trigger] old(self).bits@[j]).0 != i8::MIN,
                forall|j: int|
                    0 <= j < i ==> self.bits@[j] == spec_rotated(#[trigger] old(self).bits@[j]),
            decreases n - i,
        {
            let b = self.bits[i];
            proof {
                assert(self.bits@[i as int] == old(self).bits@[i as int]);
                assert(b.0 != i8::MIN);
            }
            self.bits.set(i, Bit(b.1, -b.0));
            i += 1;
        }
    }
}

impl From<PieceId> for Piece {
    fn from(id: PieceId) -> (r: Self)
        ensures
            r.id == id,
            r.color == spec_color(id),
            r.bits@ == spec_bits(id),
    {
        let bits = match id {
            PieceId::I => vec![Bit(-2, 0), Bit(-1, 0), Bit(0, 0), Bit(1, 0)],
            PieceId::O => vec![Bit(0, 0), Bit(0, 1), Bit(1, 0), Bit(1, 1)],
            PieceId::J => vec![Bit(-1, -1), Bit(-1, 0), Bit(0, 0), Bit(1, 0)],
            PieceId::L => vec![Bit(-1, 0), Bit(0, 0), Bit(1, -1), Bit(1, 0)],
            PieceId::T => vec![Bit(-1, 0), Bit(0, 0), Bit(1, 0), Bit(0, 1)],
            PieceId::S => vec![Bit(-1, 1), Bit(0, 0), Bit(0, 1), Bit(1, 0)],
            PieceId::Z => vec![Bit(-1, 0), Bit(0, 0), Bit(0, 1), Bit(1, 1)],
        };
        proof {
            assert(bits@ =~= spec_bits(id));
        }
        Piece { id, bits, color: id.color() }
    }
}

impl vstd::std_specs::convert::FromSpecImpl<PieceId> for Piece {
    open spec fn obeys_from_spec() -> bool {
        false
    }

    open spec fn from_spec(id: PieceId) -> Self {
        Piece { id, bits: vstd::pervasive::arbitrary(), color: spec_color(id) }
    }
}

} // verus!
