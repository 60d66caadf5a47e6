use crate::ugi::words::texts;
use vstd::prelude::*;

verus! {

/// The words of `words` with one space between them.
pub open spec fn join(words: Seq<Seq<char>>) -> Seq<char>
    decreases words.len(),
{
    if words.len() == 0 {
        Seq::empty()
    } else if words.len() == 1 {
        words[0]
    } else {
        join(words.drop_last()) + " "@ + words.last()
    }
}

/// Number of words before the word `moves`, or of all words.
pub open spec fn fen_words(words: Seq<Seq<char>>) -> nat
    decreases words.len(),
{
    if words.len() == 0 || words[0] == "moves"@ {
        0
    } else {
        1 + fen_words(words.drop_first())
    }
}

/// The position text that the words after `position` give: `startpos` stands
/// for itself; `fen` is followed by the words of the text, up to the word
/// `moves`; any other word gives the empty text.
pub open spec fn position_of(words: Seq<Seq<char>>) -> Seq<char> {
    if words.len() == 0 {
        Seq::empty()
    } else if words[0] == "startpos"@ {
        "startpos"@
    } else if words[0] == "fen"@ {
        join(words.subrange(1, 1 + fen_words(words.skip(1)) as int))
    } else {
        Seq::empty()
    }
}

/// The number of words that the position text takes, with the word before it.
pub open spec fn position_len(words: Seq<Seq<char>>) -> nat {
    if words.len() == 0 {
        0
    } else if words[0] == "fen"@ && words[0] != "startpos"@ {
        1 + fen_words(words.skip(1))
    } else {
        1
    }
}

/// The number of words before the word `moves` among the first words that are
/// not that word.
proof fn lemma_fen_words_is(words: Seq<Seq<char>>, n: int)
    requires
        0 <= n <= words.len(),
        forall|j: int| 0 <= j < n ==> words[j] != "moves"@,
        n < words.len() ==> words[n] == "moves"@,
    ensures
        fen_words(words) == n,
    decreases words.len(),
{
    if n > 0 {
        let tail = words.drop_first();
        assert(words[0] != "moves"@);
        assert forall|j: int| 0 <= j < n - 1 implies tail[j] != "moves"@ by {
            assert(tail[j] == words[j + 1]);
        }
        lemma_fen_words_is(tail, n - 1);
    }
}

/// The position text that a `position` command gives, read from the words of
/// the line from `from` on, and the place of the first word after it.
pub fn parse(words: &Vec<String>, from: usize) -> (r: (String, usize))
    requires
        from <= words.len(),
    ensures
        r.0@ == position_of(texts(words@).skip(from as int)),
        r.1 == from + position_len(texts(words@).skip(from as int)),
        from <= r.1 <= words.len(),
{
    let ghost all = texts(words@);
    let ghost rest = all.skip(from as int);
    if from == words.len() {
        return (String::new(), from);
    }
    proof {
        assert(rest[0] == words@[from as int]@);
    }
    if words[from] == String::from_str("startpos") {
        (String::from_str("startpos"), from + 1)
    } else if words[from] == String::from_str("fen") {
        let moves = String::from_str("moves");
        let mut fen = String::new();
        let mut i = from + 1;
        let ghost tail = rest.skip(1);
        proof {
            assert(tail =~= all.skip(from + 1));
            assert(all.subrange(from + 1, from + 1) =~= Seq::<Seq<char>>::empty());
        }
        while i < words.len() && words[i] != moves
            invariant
                from < i <= words.len(),
                all == texts(words@),
                moves@ == "moves"@,
                forall|j: int| from < j < i ==> all[j] != "moves"@,
                fen@ == join(all.subrange(from + 1, i as int)),
            decreases words.len() - i,
        {
            let ghost before = all.subrange(from + 1, i as int);
            let ghost now = all.subrange(from + 1, i + 1);
            proof {
                assert(now.drop_last() =~= before);
                assert(now.last() == words@[i as int]@);
            }
            if i > from + 1 {
                fen.append(" ");
            }
            fen.append(words[i].as_str());
            proof {
                assert(fen@ =~= join(now));
            }
            i += 1;
        }
        proof {
            assert forall|j: int| 0 <= j < i - from - 1 implies tail[j] != "moves"@ by {
                assert(tail[j] == all[from + 1 + j]);
            }
            if i < words.len() {
                assert(tail[i - from - 1] == all[i as int]);
            }
            lemma_fen_words_is(tail, i - from - 1);
            assert(rest.subrange(1, i - from) =~= all.subrange(from + 1, i as int));
        }
        (fen, i)
    } else {
        (String::new(), from + 1)
    }
}

} // verus!
