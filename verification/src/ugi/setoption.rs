use crate::ugi::words::texts;
use vstd::prelude::*;

verus! {

/// The name and the value that the words after `setoption` give, and the
/// number of words that are taken: the word `name`, the name, the word
/// `value`, the value. Where a word is not the one that has to stand there,
/// the reading ends with it; where words are missing, with the last.
pub open spec fn setoption_of(words: Seq<Seq<char>>) -> (Option<(Seq<char>, Seq<char>)>, nat) {
    if words.len() == 0 {
        (None, 0)
    } else if words[0] != "name"@ {
        (None, 1)
    } else if words.len() < 3 {
        (None, words.len())
    } else if words[2] != "value"@ {
        (None, 3)
    } else if words.len() < 4 {
        (None, 3)
    } else {
        (Some((words[1], words[3])), 4)
    }
}

/// The name and the value that a `setoption` command gives, read from the
/// words of the line from `from` on, and the place of the first word after it.
pub fn parse(words: &Vec<String>, from: usize) -> (r: (Option<(String, String)>, usize))
    requires
        from <= words.len(),
    ensures
        match (r.0, setoption_of(texts(words@).skip(from as int)).0) {
            (Some((name, value)), Some((n, v))) => name@ == n && value@ == v,
            (None, None) => true,
            _ => false,
        },
        r.1 == from + setoption_of(texts(words@).skip(from as int)).1,
        from <= r.1 <= words.len(),
{
    let ghost rest = texts(words@).skip(from as int);
    let left = words.len() - from;
    if left == 0 {
        return (None, from);
    }
    proof {
        assert(rest[0] == words@[from as int]@);
    }
    if words[from] != String::from_str("name") {
        return (None, from + 1);
    }
    if left < 3 {
        return (None, words.len());
    }
    proof {
        assert(rest[1] == words@[from + 1]@);
        assert(rest[2] == words@[from + 2]@);
    }
    if words[from + 2] != String::from_str("value") {
        return (None, from + 3);
    }
    if left < 4 {
        return (None, from + 3);
    }
    proof {
        assert(rest[3] == words@[from + 3]@);
    }
    let name: &String = &words[from + 1];
    let value: &String = &words[from + 3];
    (Some((name.clone(), value.clone())), from + 4)
}

} // verus!
