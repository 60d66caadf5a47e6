use crate::mv::Mv;
use crate::position::Position;
use vstd::prelude::*;

verus! {

impl Position {
    /// The position after `mv`, leaving this one as it is.
    #[must_use]
    pub fn after_move(&self, mv: &Mv) -> (npos: Self)
        requires
            self.wf(),
            self@.applicable(*mv),
            self.halfmoves < i32::MAX,
        ensures
            npos.wf(),
            npos@ == self@.apply(*mv),
    {
        let mut npos = *self;
        npos.makemove(mv);
        npos
    }
}

} // verus!
