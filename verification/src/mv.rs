use crate::square::Square;
use vstd::prelude::*;

verus! {

/// A move, in one of eight shapes.
#[derive(Clone, Copy, Debug, PartialEq, Eq, Structural)]
pub enum Mv {
    /// A single piece goes from the first cell to the second.
    SoloMove(Square, Square),
    /// A single piece goes on top of a single piece of its side.
    SoloStack(Square, Square),
    /// A single piece goes on top of a single piece of its side on the second
    /// cell, and the stack goes on to the third.
    SoloStackMove(Square, Square, Square),
    /// A stack goes from the first cell to the second.
    StackMove(Square, Square),
    /// A stack goes to the second cell, and its top piece goes on to the third.
    StackMoveDestack(Square, Square, Square),
    /// The top piece of a stack goes to the second cell.
    StackDestack(Square, Square),
    /// The top piece of a stack goes on top of a single piece of its side.
    StackStack(Square, Square),
    /// The top piece of a stack goes on top of a single piece of its side on the
    /// second cell, and the new stack goes on to the third.
    StackStackMove(Square, Square, Square),
}

impl Mv {
    /// Every square of the move names a cell of the board.
    pub open spec fn wf(&self) -> bool {
        match *self {
            Mv::SoloMove(a, b) => a.wf() && b.wf(),
            Mv::SoloStack(a, b) => a.wf() && b.wf(),
            Mv::SoloStackMove(a, b, c) => a.wf() && b.wf() && c.wf(),
            Mv::StackMove(a, b) => a.wf() && b.wf(),
            Mv::StackMoveDestack(a, b, c) => a.wf() && b.wf() && c.wf(),
            Mv::StackDestack(a, b) => a.wf() && b.wf(),
            Mv::StackStack(a, b) => a.wf() && b.wf(),
            Mv::StackStackMove(a, b, c) => a.wf() && b.wf() && c.wf(),
        }
    }

    /// The move in text: two squares for the moves of a single piece that end on
    /// the second cell, three squares for all others, where a stack that moves
    /// as a whole repeats its target and a top piece that leaves its stack repeats
    /// its origin.
    pub open spec fn spec_text(&self) -> Seq<char> {
        match *self {
            Mv::SoloMove(fr, to) => fr.spec_text() + to.spec_text(),
            Mv::SoloStack(fr, to) => fr.spec_text() + to.spec_text(),
            Mv::SoloStackMove(fr, sq1, sq2) => fr.spec_text() + sq1.spec_text() + sq2.spec_text(),
            Mv::StackMove(fr, to) => fr.spec_text() + to.spec_text() + to.spec_text(),
            Mv::StackMoveDestack(fr, sq1, sq2) => fr.spec_text() + sq1.spec_text()
                + sq2.spec_text(),
            Mv::StackDestack(fr, to) => fr.spec_text() + fr.spec_text() + to.spec_text(),
            Mv::StackStack(fr, to) => fr.spec_text() + fr.spec_text() + to.spec_text(),
            Mv::StackStackMove(fr, sq1, sq2) => fr.spec_text() + sq1.spec_text() + sq2.spec_text(),
        }
    }

    /// The move in text, four or six characters.
    pub fn to_string(&self) -> (s: String)
        requires
            self.wf(),
        ensures
            s@ == self.spec_text(),
    {
        match *self {
            Mv::SoloMove(fr, to) => text2(fr, to),
            Mv::SoloStack(fr, to) => text2(fr, to),
            Mv::SoloStackMove(fr, sq1, sq2) => text3(fr, sq1, sq2),
            Mv::StackMove(fr, to) => text3(fr, to, to),
            Mv::StackMoveDestack(fr, sq1, sq2) => text3(fr, sq1, sq2),
            Mv::StackDestack(fr, to) => text3(fr, fr, to),
            Mv::StackStack(fr, to) => text3(fr, fr, to),
            Mv::StackStackMove(fr, sq1, sq2) => text3(fr, sq1, sq2),
        }
    }
}

fn text2(a: Square, b: Square) -> (s: String)
    requires
        a.wf(),
        b.wf(),
    ensures
        s@ == a.spec_text() + b.spec_text(),
{
    let mut s = a.to_string();
    let t = b.to_string();
    s.append(t.as_str());
    s
}

fn text3(a: Square, b: Square, c: Square) -> (s: String)
    requires
        a.wf(),
        b.wf(),
        c.wf(),
    ensures
        s@ == a.spec_text() + b.spec_text() + c.spec_text(),
{
    let mut s = text2(a, b);
    let t = c.to_string();
    s.append(t.as_str());
    s
}

} // verus!
