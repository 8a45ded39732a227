//! Screen positions of a subtitle track and their override markers.
use vstd::prelude::*;

verus! {

/// Where on screen a track is drawn: a 3x3 grid, rows bottom to top.
#[derive(Clone, Copy, Debug, PartialEq, Eq, Structural, Default)]
pub enum SubPosition {
    BottomLeft,
    #[default]
    BottomCenter,
    BottomRight,
    MiddleLeft,
    MiddleCenter,
    MiddleRight,
    TopLeft,
    TopCenter,
    TopRight,
}

/// Grid cell number of a position: 1 at bottom left, row by row, 9 at top right.
pub open spec fn cell_of(p: SubPosition) -> nat {
    match p {
        SubPosition::BottomLeft => 1,
        SubPosition::BottomCenter => 2,
        SubPosition::BottomRight => 3,
        SubPosition::MiddleLeft => 4,
        SubPosition::MiddleCenter => 5,
        SubPosition::MiddleRight => 6,
        SubPosition::TopLeft => 7,
        SubPosition::TopCenter => 8,
        SubPosition::TopRight => 9,
    }
}

/// The decimal digit of a grid cell number.
pub open spec fn digit_of(n: nat) -> char {
    if n == 1 {
        '1'
    } else if n == 2 {
        '2'
    } else if n == 3 {
        '3'
    } else if n == 4 {
        '4'
    } else if n == 5 {
        '5'
    } else if n == 6 {
        '6'
    } else if n == 7 {
        '7'
    } else if n == 8 {
        '8'
    } else {
        '9'
    }
}

/// The override tag `{\anN}` that pins a cue to grid cell N.
pub open spec fn marker_of(p: SubPosition) -> Seq<char> {
    seq!['{', '\\', 'a', 'n', digit_of(cell_of(p)), '}']
}

impl SubPosition {
    /// The override tag of this position, `{\an1}` to `{\an9}`.
    pub fn marker(&self) -> (r: String)
        ensures
            r@ == marker_of(*self),
    {
        let s = match self {
            SubPosition::BottomLeft => "{\\an1}",
            SubPosition::BottomCenter => "{\\an2}",
            SubPosition::BottomRight => "{\\an3}",
            SubPosition::MiddleLeft => "{\\an4}",
            SubPosition::MiddleCenter => "{\\an5}",
            SubPosition::MiddleRight => "{\\an6}",
            SubPosition::TopLeft => "{\\an7}",
            SubPosition::TopCenter => "{\\an8}",
            SubPosition::TopRight => "{\\an9}",
        };
        proof {
            reveal_strlit("{\\an1}");
            reveal_strlit("{\\an2}");
            reveal_strlit("{\\an3}");
            reveal_strlit("{\\an4}");
            reveal_strlit("{\\an5}");
            reveal_strlit("{\\an6}");
            reveal_strlit("{\\an7}");
            reveal_strlit("{\\an8}");
            reveal_strlit("{\\an9}");
        }
        let r = String::from_str(s);
        assert(r@ =~= marker_of(*self));
        r
    }
}

} // verus!
