use vstd::prelude::*;

verus! {

/// An RGBA color, one byte per channel.
#[derive(Debug, Copy, Clone, PartialEq, Eq, Structural)]
pub struct Color(pub u8, pub u8, pub u8, pub u8);

/// The character for one decimal digit.
pub open spec fn dec_digit(d: int) -> char {
    if d == 0 {
        '0'
    } else if d == 1 {
        '1'
    } else if d == 2 {
        '2'
    } else if d == 3 {
        '3'
    } else if d == 4 {
        '4'
    } else if d == 5 {
        '5'
    } else if d == 6 {
        '6'
    } else if d == 7 {
        '7'
    } else if d == 8 {
        '8'
    } else {
        '9'
    }
}

/// The decimal rendering of a byte value, without leading zeros.
pub open spec fn u8_dec(n: int) -> Seq<char> {
    if n < 10 {
        seq![dec_digit(n)]
    } else if n < 100 {
        seq![dec_digit(n / 10), dec_digit(n % 10)]
    } else {
        seq![dec_digit(n / 100), dec_digit((n / 10) % 10), dec_digit(n % 10)]
    }
}

/// The CSS-style rendering of a color, e.g. `rgba(0, 255, 255, 255)`.
pub open spec fn rgba_string_of(c: Color) -> Seq<char> {
    "rgba("@ + u8_dec(c.0 as int) + ", "@ + u8_dec(c.1 as int) + ", "@ + u8_dec(c.2 as int) + ", "@
        + u8_dec(c.3 as int) + ")"@
}

pub(crate) fn append_digit(s: &mut String, d: u8)
    requires
        d < 10,
    ensures
        final(s)@ == old(s)@ + seq![dec_digit(d as int)],
{
    match d {
        0 => {
            s.append("0");
            proof {
                reveal_strlit("0");
                assert(s@ =~= old(s)@ + seq![dec_digit(d as int)]);
            }
        },
        1 => {
            s.append("1");
            proof {
                reveal_strlit("1");
                assert(s@ =~= old(s)@ + seq![dec_digit(d as int)]);
            }
        },
        2 => {
            s.append("2");
            proof {
                reveal_strlit("2");
                assert(s@ =~= old(s)@ + seq![dec_digit(d as int)]);
            }
        },
        3 => {
            s.append("3");
            proof {
                reveal_strlit("3");
                assert(s@ =~= old(s)@ + seq![dec_digit(d as int)]);
            }
        },
        4 => {
            s.append("4");
            proof {
                reveal_strlit("4");
                assert(s@ =~= old(s)@ + seq![dec_digit(d as int)]);
            }
        },
        5 => {
            s.append("5");
            proof {
                reveal_strlit("5");
                assert(s@ =~= old(s)@ + seq![dec_digit(d as int)]);
            }
        },
        6 => {
            s.append("6");
            proof {
                reveal_strlit("6");
                assert(s@ =~= old(s)@ + seq![dec_digit(d as int)]);
            }
        },
        7 => {
            s.append("7");
            proof {
                reveal_strlit("7");
                assert(s@ =~= old(s)@ + seq![dec_digit(d as int)]);
            }
        },
        8 => {
            s.append("8");
            proof {
                reveal_strlit("8");
                assert(s@ =~= old(s)@ + seq![dec_digit(d as int)]);
            }
        },
        _ => {
            s.append("9");
            proof {
                reveal_strlit("9");
                assert(s@ =~= old(s)@ + seq![dec_digit(d as int)]);
            }
        },
    }
}

fn append_u8(s: &mut String, n: u8)
    ensures
        final(s)@ == old(s)@ + u8_dec(n as int),
{
    if n >= 100 {
        append_digit(s, n / 100);
        append_digit(s, (n / 10) % 10);
        append_digit(s, n % 10);
        proof {
            assert(s@ =~= old(s)@ + u8_dec(n as int));
        }
    } else if n >= 10 {
        append_digit(s, n / 10);
        append_digit(s, n % 10);
        proof {
            assert(s@ =~= old(s)@ + u8_dec(n as int));
        }
    } else {
        append_digit(s, n);
    }
}

impl Color {
    pub fn r(&self) -> (c: u8)
        ensures
            c == self.0,
    {
        self.0
    }

    pub fn g(&self) -> (c: u8)
        ensures
            c == self.1,
    {
        self.1
    }

    pub fn b(&self) -> (c: u8)
        ensures
            c == self.2,
    {
        self.2
    }

    pub fn a(&self) -> (c: u8)
        ensures
            c == self.3,
    {
        self.3
    }

    pub fn to_rgba_string(&self) -> (r: String)
        ensures
            r@ == rgba_string_of(*self),
    {
        let mut s = String::new();
        s.append("rgba(");
        append_u8(&mut s, self.0);
        s.append(", ");
        append_u8(&mut s, self.1);
        s.append(", ");
        append_u8(&mut s, self.2);
        s.append(", ");
        append_u8(&mut s, self.3);
        s.append(")");
        proof {
            assert(s@ =~= rgba_string_of(*self));
        }
        s
    }
}

impl From<(u8, u8, u8)> for Color {
    fn from(value: (u8, u8, u8)) -> (r: Self) {
        Color(value.0, value.1, value.2, 0xFF)
    }
}

impl vstd::std_specs::convert::FromSpecImpl<(u8, u8, u8)> for Color {
    open spec fn obeys_from_spec() -> bool {
        true
    }

    open spec fn from_spec(value: (u8, u8, u8)) -> Self {
        Color(value.0, value.1, value.2, 0xFF)
    }
}

impl From<(u8, u8, u8, u8)> for Color {
    fn from(value: (u8, u8, u8, u8)) -> (r: Self) {
        Color(value.0, value.1, value.2, value.3)
    }
}

impl vstd::std_specs::convert::FromSpecImpl<(u8, u8, u8, u8)> for Color {
    open spec fn obeys_from_spec() -> bool {
        true
    }

    open spec fn from_spec(value: (u8, u8, u8, u8)) -> Self {
        Color(value.0, value.1, value.2, value.3)
    }
}

impl From<[u8; 3]> for Color {
    fn from(value: [u8; 3]) -> (r: Self) {
        Color(value[0], value[1], value[2], 0xFF)
    }
}

impl vstd::std_specs::convert::FromSpecImpl<[u8; 3]> for Color {
    open spec fn obeys_from_spec() -> bool {
        true
    }

    open spec fn from_spec(value: [u8; 3]) -> Self {
        Color(value[0], value[1], value[2], 0xFF)
    }
}

impl From<[u8; 4]> for Color {
    fn from(value: [u8; 4]) -> (r: Self) {
        Color(value[0], value[1], value[2], value[3])
    }
}

impl vstd::std_specs::convert::FromSpecImpl<[u8; 4]> for Color {
    open spec fn obeys_from_spec() -> bool {
        true
    }

    open spec fn from_spec(value: [u8; 4]) -> Self {
        Color(value[0], value[1], value[2], value[3])
    }
}

} // verus!
