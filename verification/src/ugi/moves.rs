use crate::ugi::words::texts;
use vstd::prelude::*;

verus! {

/// The moves that a `moves` command names: every word that is left of the
/// line, from the word at `from` on.
pub fn parse(words: &Vec<String>, from: usize) -> (moves: Vec<String>)
    requires
        from <= words.len(),
    ensures
        texts(moves@) == texts(words@).skip(from as int),
{
    let mut moves: Vec<String> = Vec::new();
    let mut i = from;
    while i < words.len()
        invariant
            from <= i <= words.len(),
            texts(moves@) == texts(words@).subrange(from as int, i as int),
        decreases words.len() - i,
    {
        let word: &String = &words[i];
        let copy = word.clone();
        let ghost before = moves@;
        moves.push(copy);
        i += 1;
        proof {
            assert(copy@ == words@[i - 1]@);
            assert(texts(moves@) =~= texts(before).push(copy@));
            assert(texts(moves@) =~= texts(words@).subrange(from as int, i as int));
        }
    }
    proof {
        assert(texts(words@).subrange(from as int, i as int) =~= texts(words@).skip(from as int));
    }
    moves
}

} // verus!
