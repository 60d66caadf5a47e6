use crate::set_fen::chars_of;
use vstd::prelude::*;

verus! {

/// Whether `c` parts the words of a line: a space, a tab, a line feed, a form
/// feed or a carriage return.
pub open spec fn is_space(c: char) -> bool {
    c == ' ' || c == '\t' || c == '\n' || c == '\x0C' || c == '\r'
}

/// Number of characters before the first that parts words.
pub open spec fn word_len(s: Seq<char>) -> nat
    decreases s.len(),
{
    if s.len() == 0 || is_space(s[0]) {
        0
    } else {
        1 + word_len(s.drop_first())
    }
}

/// The words of a line: the longest runs of characters that are not spaces.
pub open spec fn split_words(s: Seq<char>) -> Seq<Seq<char>>
    decreases s.len(), 1int,
{
    if s.len() == 0 {
        Seq::empty()
    } else if is_space(s[0]) {
        split_words(s.drop_first())
    } else {
        seq![s.take(word_len(s) as int)] + words_after(s.drop_first())
    }
}

/// The words of a line after the word that the line starts in.
pub open spec fn words_after(s: Seq<char>) -> Seq<Seq<char>>
    decreases s.len(), 0int,
{
    if s.len() == 0 {
        Seq::empty()
    } else if is_space(s[0]) {
        split_words(s.drop_first())
    } else {
        words_after(s.drop_first())
    }
}

/// The words after a word are the words of what follows it.
pub proof fn lemma_words_after(s: Seq<char>)
    ensures
        words_after(s) == split_words(s.skip(word_len(s) as int)),
    decreases s.len(),
{
    if s.len() == 0 {
        assert(s.skip(0) =~= s);
    } else if is_space(s[0]) {
        assert(s.skip(0) =~= s);
    } else {
        lemma_words_after(s.drop_first());
        lemma_word_len(s.drop_first());
        assert(s.drop_first().skip(word_len(s.drop_first()) as int) =~= s.skip(
            word_len(s) as int,
        ));
    }
}

/// The texts of a list of strings.
pub open spec fn texts(words: Seq<String>) -> Seq<Seq<char>> {
    Seq::new(words.len(), |i: int| words[i]@)
}

/// A word ends before its line does.
pub proof fn lemma_word_len(s: Seq<char>)
    ensures
        word_len(s) <= s.len(),
    decreases s.len(),
{
    if s.len() > 0 && !is_space(s[0]) {
        lemma_word_len(s.drop_first());
    }
}

/// The length of a word among the first characters that are not spaces.
pub proof fn lemma_word_len_is(s: Seq<char>, n: int)
    requires
        0 <= n <= s.len(),
        forall|j: int| 0 <= j < n ==> !is_space(s[j]),
        n < s.len() ==> is_space(s[n]),
    ensures
        word_len(s) == n,
    decreases s.len(),
{
    if n > 0 {
        let tail = s.drop_first();
        assert(!is_space(s[0]));
        assert forall|j: int| 0 <= j < n - 1 implies !is_space(tail[j]) by {
            assert(tail[j] == s[j + 1]);
        }
        lemma_word_len_is(tail, n - 1);
    }
}

/// Whether `c` parts the words of a line.
fn parts_words(c: char) -> (b: bool)
    ensures
        b == is_space(c),
{
    c == ' ' || c == '\t' || c == '\n' || c == '\x0C' || c == '\r'
}

/// The words of `line`.
pub fn words(line: &str) -> (found: Vec<String>)
    ensures
        texts(found@) == split_words(line@),
{
    let chars = chars_of(line);
    let mut found: Vec<String> = Vec::new();
    let mut i: usize = 0;
    proof {
        assert(chars@.skip(0) =~= chars@);
        assert(texts(found@) =~= Seq::<Seq<char>>::empty());
    }
    while i < chars.len()
        invariant
            chars@ == line@,
            0 <= i <= chars.len(),
            texts(found@) + split_words(chars@.skip(i as int)) == split_words(chars@),
        decreases chars.len() - i,
    {
        let ghost rest = chars@.skip(i as int);
        proof {
            assert(rest[0] == chars@[i as int]);
        }
        if parts_words(chars[i]) {
            proof {
                assert(rest.drop_first() =~= chars@.skip(i + 1));
            }
            i += 1;
        } else {
            let start = i;
            while i < chars.len() && !parts_words(chars[i])
                invariant
                    start <= i <= chars.len(),
                    forall|j: int| start <= j < i ==> !is_space(chars@[j]),
                decreases chars.len() - i,
            {
                i += 1;
            }
            proof {
                lemma_word_len_is(rest, i - start);
                lemma_word_len_is(rest.drop_first(), i - start - 1);
                lemma_words_after(rest.drop_first());
                assert(rest.take(i - start) =~= line@.subrange(start as int, i as int));
                assert(rest.drop_first().skip(i - start - 1) =~= chars@.skip(i as int));
            }
            let word = String::from_str(line.substring_char(start, i));
            let ghost before = found@;
            found.push(word);
            proof {
                assert(texts(found@) =~= texts(before) + seq![word@]);
                assert(texts(found@) + split_words(chars@.skip(i as int)) =~= texts(before) + (
                seq![word@] + split_words(chars@.skip(i as int))));
            }
        }
    }
    proof {
        assert(chars@.skip(i as int).len() == 0);
        assert(texts(found@) + Seq::<Seq<char>>::empty() =~= texts(found@));
    }
    found
}

} // verus!
