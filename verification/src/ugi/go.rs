use crate::number::{
    digits_text, int_text, parse_int, parse_u64, push_digits, push_int, read_int, read_u64,
};
use crate::set_fen::chars_of;
use crate::ugi::words::texts;
use vstd::prelude::*;

verus! {

/// What a `go` command asks for.
#[derive(Clone, Copy, Debug, PartialEq, Eq, Structural)]
pub enum GoKind {
    Search,
    Perft,
    SplitPerft,
}

impl Default for GoKind {
    fn default() -> (kind: Self)
        ensures
            kind == GoKind::Search,
    {
        GoKind::Search
    }
}

/// The limits of a `go` command: each is there or left out.
#[derive(Clone, Copy, Debug, PartialEq, Eq, Structural)]
pub struct GoSettings {
    pub kind: GoKind,
    pub p1time: Option<i32>,
    pub p2time: Option<i32>,
    pub p1inc: Option<i32>,
    pub p2inc: Option<i32>,
    pub depth: Option<i32>,
    pub nodes: Option<u64>,
    pub movetime: Option<i32>,
    pub movestogo: Option<i32>,
}

impl Default for GoSettings {
    fn default() -> (settings: Self)
        ensures
            settings == GoSettings::unlimited(),
    {
        Self {
            kind: GoKind::Search,
            p1time: None,
            p2time: None,
            p1inc: None,
            p2inc: None,
            depth: None,
            nodes: None,
            movetime: None,
            movestogo: None,
        }
    }
}

impl GoSettings {
    /// A search without any limit.
    pub open spec fn unlimited() -> GoSettings {
        GoSettings {
            kind: GoKind::Search,
            p1time: None,
            p2time: None,
            p1inc: None,
            p2inc: None,
            depth: None,
            nodes: None,
            movetime: None,
            movestogo: None,
        }
    }

    /// A search on the clock: the time left and the increment of each player.
    #[must_use]
    pub fn from_time(p1time: i32, p2time: i32, p1inc: i32, p2inc: i32) -> (settings: Self)
        ensures
            settings == (GoSettings {
                p1time: Some(p1time),
                p2time: Some(p2time),
                p1inc: Some(p1inc),
                p2inc: Some(p2inc),
                ..GoSettings::unlimited()
            }),
    {
        Self {
            kind: GoKind::Search,
            p1time: Some(p1time),
            p2time: Some(p2time),
            p1inc: Some(p1inc),
            p2inc: Some(p2inc),
            depth: None,
            nodes: None,
            movetime: None,
            movestogo: None,
        }
    }

    /// A search to a fixed depth.
    #[must_use]
    pub fn from_depth(d: i32) -> (settings: Self)
        ensures
            settings == (GoSettings { depth: Some(d), ..GoSettings::unlimited() }),
    {
        Self {
            kind: GoKind::Search,
            p1time: None,
            p2time: None,
            p1inc: None,
            p2inc: None,
            depth: Some(d),
            nodes: None,
            movetime: None,
            movestogo: None,
        }
    }

    /// A search for a fixed time.
    #[must_use]
    pub fn from_movetime(t: i32) -> (settings: Self)
        ensures
            settings == (GoSettings { movetime: Some(t), ..GoSettings::unlimited() }),
    {
        Self {
            kind: GoKind::Search,
            p1time: None,
            p2time: None,
            p1inc: None,
            p2inc: None,
            depth: None,
            nodes: None,
            movetime: Some(t),
            movestogo: None,
        }
    }

    /// A search of a fixed number of positions.
    #[must_use]
    pub fn from_nodes(n: u64) -> (settings: Self)
        ensures
            settings == (GoSettings { nodes: Some(n), ..GoSettings::unlimited() }),
    {
        Self {
            kind: GoKind::Search,
            p1time: None,
            p2time: None,
            p1inc: None,
            p2inc: None,
            depth: None,
            nodes: Some(n),
            movetime: None,
            movestogo: None,
        }
    }
}

/// The limits of a `go` command that are whole numbers with a sign.
#[derive(Clone, Copy, Debug, PartialEq, Eq, Structural)]
pub enum Limit {
    P1Time,
    P2Time,
    P1Inc,
    P2Inc,
    Depth,
    MoveTime,
    MovesToGo,
}

/// The kind of command that a word of a `go` command asks for.
pub open spec fn kind_of(word: Seq<char>) -> Option<GoKind> {
    if word == "search"@ {
        Some(GoKind::Search)
    } else if word == "perft"@ {
        Some(GoKind::Perft)
    } else if word == "split"@ {
        Some(GoKind::SplitPerft)
    } else {
        None
    }
}

/// The limit that a word of a `go` command names.
pub open spec fn limit_of(word: Seq<char>) -> Option<Limit> {
    if word == "p1time"@ {
        Some(Limit::P1Time)
    } else if word == "p2time"@ {
        Some(Limit::P2Time)
    } else if word == "p1inc"@ {
        Some(Limit::P1Inc)
    } else if word == "p2inc"@ {
        Some(Limit::P2Inc)
    } else if word == "depth"@ {
        Some(Limit::Depth)
    } else if word == "movetime"@ {
        Some(Limit::MoveTime)
    } else if word == "movestogo"@ {
        Some(Limit::MovesToGo)
    } else {
        None
    }
}

impl GoSettings {
    /// The settings with the limit `limit` set to `n`.
    pub open spec fn spec_with(self, limit: Limit, n: i32) -> GoSettings {
        match limit {
            Limit::P1Time => GoSettings { p1time: Some(n), ..self },
            Limit::P2Time => GoSettings { p2time: Some(n), ..self },
            Limit::P1Inc => GoSettings { p1inc: Some(n), ..self },
            Limit::P2Inc => GoSettings { p2inc: Some(n), ..self },
            Limit::Depth => GoSettings { depth: Some(n), ..self },
            Limit::MoveTime => GoSettings { movetime: Some(n), ..self },
            Limit::MovesToGo => GoSettings { movestogo: Some(n), ..self },
        }
    }

    /// The settings with the limit `limit` set to `n`.
    #[verifier::when_used_as_spec(spec_with)]
    pub fn with(self, limit: Limit, n: i32) -> (settings: GoSettings)
        ensures
            settings == self.spec_with(limit, n),
    {
        let mut settings = self;
        match limit {
            Limit::P1Time => settings.p1time = Some(n),
            Limit::P2Time => settings.p2time = Some(n),
            Limit::P1Inc => settings.p1inc = Some(n),
            Limit::P2Inc => settings.p2inc = Some(n),
            Limit::Depth => settings.depth = Some(n),
            Limit::MoveTime => settings.movetime = Some(n),
            Limit::MovesToGo => settings.movestogo = Some(n),
        }
        settings
    }
}

/// What the words of a `go` command make of `settings`, word by word: a kind
/// of command is taken over; the name of a limit takes the number in the next
/// word; any other word, and the name of a limit at the end, is passed over.
/// Nothing where a word that has to be a number is none.
pub open spec fn go_from(words: Seq<Seq<char>>, settings: GoSettings) -> Option<GoSettings>
    decreases words.len(),
{
    if words.len() == 0 {
        Some(settings)
    } else if let Some(kind) = kind_of(words[0]) {
        go_from(words.skip(1), GoSettings { kind, ..settings })
    } else if words.len() == 1 {
        Some(settings)
    } else if let Some(limit) = limit_of(words[0]) {
        match parse_int(words[1]) {
            Some(n) => go_from(words.skip(2), settings.spec_with(limit, n as i32)),
            None => None,
        }
    } else if words[0] == "nodes"@ {
        match parse_u64(words[1]) {
            Some(n) => go_from(words.skip(2), GoSettings { nodes: Some(n as u64), ..settings }),
            None => None,
        }
    } else {
        go_from(words.skip(1), settings)
    }
}

/// The kind of command that `word` asks for.
fn kind(word: &String) -> (r: Option<GoKind>)
    ensures
        r == kind_of(word@),
{
    if *word == String::from_str("search") {
        Some(GoKind::Search)
    } else if *word == String::from_str("perft") {
        Some(GoKind::Perft)
    } else if *word == String::from_str("split") {
        Some(GoKind::SplitPerft)
    } else {
        None
    }
}

/// The limit that `word` names.
fn limit(word: &String) -> (r: Option<Limit>)
    ensures
        r == limit_of(word@),
{
    if *word == String::from_str("p1time") {
        Some(Limit::P1Time)
    } else if *word == String::from_str("p2time") {
        Some(Limit::P2Time)
    } else if *word == String::from_str("p1inc") {
        Some(Limit::P1Inc)
    } else if *word == String::from_str("p2inc") {
        Some(Limit::P2Inc)
    } else if *word == String::from_str("depth") {
        Some(Limit::Depth)
    } else if *word == String::from_str("movetime") {
        Some(Limit::MoveTime)
    } else if *word == String::from_str("movestogo") {
        Some(Limit::MovesToGo)
    } else {
        None
    }
}

/// The settings that a `go` command asks for, read from the words of the line
/// from `from` on; nothing where a word that has to be a number is none.
pub fn parse(words: &Vec<String>, from: usize) -> (r: Option<GoSettings>)
    requires
        from <= words.len(),
    ensures
        r == go_from(texts(words@).skip(from as int), GoSettings::unlimited()),
{
    let mut settings = GoSettings::default();
    let mut i = from;
    let ghost all = texts(words@);

    while i < words.len()
        invariant
            from <= i <= words.len(),
            all == texts(words@),
            go_from(all.skip(from as int), GoSettings::unlimited()) == go_from(
                all.skip(i as int),
                settings,
            ),
        decreases words.len() - i,
    {
        let ghost rest = all.skip(i as int);
        proof {
            assert(rest[0] == words@[i as int]@);
            assert(rest.skip(1) =~= all.skip(i + 1));
        }
        if let Some(kind) = kind(&words[i]) {
            settings.kind = kind;
            i += 1;
        } else if i + 1 == words.len() {
            i += 1;
        } else {
            proof {
                assert(rest[1] == words@[i + 1]@);
                assert(rest.skip(2) =~= all.skip(i + 2));
            }
            let number = chars_of(words[i + 1].as_str());
            if let Some(limit) = limit(&words[i]) {
                proof {
                    assert(number@.subrange(0, number@.len() as int) =~= number@);
                }
                match read_int(&number, 0, number.len()) {
                    Some(n) => {
                        settings = settings.with(limit, n);
                    },
                    None => {
                        return None;
                    },
                }
                i += 2;
            } else if words[i] == String::from_str("nodes") {
                match read_u64(&number) {
                    Some(n) => {
                        settings.nodes = Some(n);
                    },
                    None => {
                        return None;
                    },
                }
                i += 2;
            } else {
                i += 1;
            }
        }
    }

    proof {
        assert(all.skip(i as int).len() == 0);
    }
    Some(settings)
}

/// The text of a limit that is left out.
pub open spec fn none_text() -> Seq<char> {
    "None"@
}

/// The text of a limit with a sign.
pub open spec fn limit_text(limit: Option<i32>) -> Seq<char> {
    match limit {
        Some(n) => int_text(n as int),
        None => none_text(),
    }
}

impl GoSettings {
    /// The settings in words: the kind of command, then each limit by name
    /// with its number, or with `None` where it is left out.
    pub open spec fn spec_text(&self) -> Seq<char> {
        (match self.kind {
            GoKind::Search => "search"@,
            GoKind::Perft => "perft"@,
            GoKind::SplitPerft => "split"@,
        }) + " p1time "@ + limit_text(self.p1time) + " p2time "@ + limit_text(self.p2time)
            + " p1inc "@ + limit_text(self.p1inc) + " p2inc "@ + limit_text(self.p2inc)
            + " depth "@ + limit_text(self.depth) + " nodes "@ + (match self.nodes {
            Some(n) => digits_text(n as nat),
            None => none_text(),
        }) + " movetime "@ + limit_text(self.movetime) + " movestogo "@ + limit_text(
            self.movestogo,
        )
    }

    /// The settings in words.
    pub fn to_string(&self) -> (text: String)
        ensures
            text@ == self.spec_text(),
    {
        let mut text = String::new();
        match self.kind {
            GoKind::Search => text.append("search"),
            GoKind::Perft => text.append("perft"),
            GoKind::SplitPerft => text.append("split"),
        }
        text.append(" p1time ");
        push_limit(&mut text, self.p1time);
        text.append(" p2time ");
        push_limit(&mut text, self.p2time);
        text.append(" p1inc ");
        push_limit(&mut text, self.p1inc);
        text.append(" p2inc ");
        push_limit(&mut text, self.p2inc);
        text.append(" depth ");
        push_limit(&mut text, self.depth);
        text.append(" nodes ");
        match self.nodes {
            Some(n) => push_digits(&mut text, n),
            None => text.append("None"),
        }
        text.append(" movetime ");
        push_limit(&mut text, self.movetime);
        text.append(" movestogo ");
        push_limit(&mut text, self.movestogo);
        proof {
            assert(text@ =~= self.spec_text());
        }
        text
    }
}

/// Appends the text of a limit with a sign.
fn push_limit(out: &mut String, limit: Option<i32>)
    ensures
        final(out)@ == old(out)@ + limit_text(limit),
{
    match limit {
        Some(n) => push_int(out, n),
        None => out.append("None"),
    }
}

} // verus!
