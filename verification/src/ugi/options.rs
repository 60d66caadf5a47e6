use crate::number::{int_text, push_int};
use vstd::prelude::*;

verus! {

/// An option that is on or off.
#[derive(Debug, PartialEq, Eq, Default)]
pub struct Check {
    pub name: String,
    pub value: bool,
}

/// An option that is a number within a range.
#[derive(Debug, PartialEq, Eq)]
pub struct Spin {
    pub name: String,
    pub min: i32,
    pub max: i32,
    pub value: i32,
}

/// An option that is one of a list of words.
#[derive(Debug, PartialEq, Eq)]
pub struct Combo {
    pub name: String,
    pub value: String,
    pub options: Vec<String>,
}

/// An option that can only be pressed.
#[derive(Debug, PartialEq, Eq)]
pub struct Button {
    pub name: String,
}

/// An option that is a text.
#[derive(Clone, Copy, Debug, PartialEq, Eq, Structural)]
pub struct Stringy {
    pub name: i32,
}

/// The text of a truth value.
pub open spec fn bool_text(b: bool) -> Seq<char> {
    if b {
        "true"@
    } else {
        "false"@
    }
}

/// The words of a list, each after the word `var`.
pub open spec fn vars_text(words: Seq<String>) -> Seq<char>
    decreases words.len(),
{
    if words.len() == 0 {
        Seq::empty()
    } else {
        vars_text(words.drop_last()) + " var "@ + words.last()@
    }
}

impl Check {
    /// The line that tells a user of the option.
    pub open spec fn spec_text(&self) -> Seq<char> {
        "option name "@ + self.name@ + " type check default "@ + bool_text(self.value)
    }

    /// The line that tells a user of the option.
    pub fn to_string(&self) -> (text: String)
        ensures
            text@ == self.spec_text(),
    {
        let mut text = String::from_str("option name ");
        text.append(self.name.as_str());
        text.append(" type check default ");
        if self.value {
            text.append("true");
        } else {
            text.append("false");
        }
        text
    }
}

impl Spin {
    /// The line that tells a user of the option.
    pub open spec fn spec_text(&self) -> Seq<char> {
        "option name "@ + self.name@ + " type spin default "@ + int_text(self.value as int)
            + " min "@ + int_text(self.min as int) + " max "@ + int_text(self.max as int)
    }

    /// The line that tells a user of the option.
    pub fn to_string(&self) -> (text: String)
        ensures
            text@ == self.spec_text(),
    {
        let mut text = String::from_str("option name ");
        text.append(self.name.as_str());
        text.append(" type spin default ");
        push_int(&mut text, self.value);
        text.append(" min ");
        push_int(&mut text, self.min);
        text.append(" max ");
        push_int(&mut text, self.max);
        text
    }
}

impl Combo {
    /// The line that tells a user of the option.
    pub open spec fn spec_text(&self) -> Seq<char> {
        "option name "@ + self.name@ + " type combo default "@ + self.value@ + vars_text(
            self.options@,
        )
    }

    /// The line that tells a user of the option.
    pub fn to_string(&self) -> (text: String)
        ensures
            text@ == self.spec_text(),
    {
        let mut text = String::from_str("option name ");
        text.append(self.name.as_str());
        text.append(" type combo default ");
        text.append(self.value.as_str());
        let ghost start = text@;
        let mut i: usize = 0;
        proof {
            assert(self.options@.take(0) =~= Seq::<String>::empty());
            assert(start + vars_text(self.options@.take(0)) =~= start);
        }
        while i < self.options.len()
            invariant
                0 <= i <= self.options.len(),
                text@ == start + vars_text(self.options@.take(i as int)),
            decreases self.options.len() - i,
        {
            text.append(" var ");
            text.append(self.options[i].as_str());
            proof {
                assert(self.options@.take(i + 1).drop_last() =~= self.options@.take(i as int));
                assert(text@ =~= start + vars_text(self.options@.take(i + 1)));
            }
            i += 1;
        }
        proof {
            assert(self.options@.take(i as int) =~= self.options@);
        }
        text
    }

    /// Takes `word` as the value where it is one of the words of the option.
    pub fn select(&mut self, word: &str)
        ensures
            final(self).name == old(self).name,
            final(self).options == old(self).options,
            final(self).value@ == if exists|i: int|
                0 <= i < old(self).options@.len() && (#[trigger] old(self).options@[i])@ == word@ {
                word@
            } else {
                old(self).value@
            },
    {
        let wanted = String::from_str(word);
        let mut i: usize = 0;
        while i < self.options.len()
            invariant
                0 <= i <= self.options.len(),
                *self == *old(self),
                wanted@ == word@,
                forall|j: int| 0 <= j < i ==> (#[trigger] self.options@[j])@ != word@,
            decreases self.options.len() - i,
        {
            if self.options[i] == wanted {
                assert(old(self).options@[i as int]@ == word@);
                self.value = wanted;
                return;
            }
            i += 1;
        }
    }
}

impl Button {
    /// The line that tells a user of the option.
    pub open spec fn spec_text(&self) -> Seq<char> {
        "option name "@ + self.name@ + " type button"@
    }

    /// The line that tells a user of the option.
    pub fn to_string(&self) -> (text: String)
        ensures
            text@ == self.spec_text(),
    {
        let mut text = String::from_str("option name ");
        text.append(self.name.as_str());
        text.append(" type button");
        text
    }
}

} // verus!
