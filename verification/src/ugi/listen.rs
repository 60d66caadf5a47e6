use crate::ugi::go::{go_from, GoSettings};
use crate::ugi::position::{position_len, position_of};
use crate::ugi::setoption::setoption_of;
use crate::ugi::words::texts;
use vstd::prelude::*;

verus! {

/// What a line asks an engine to do.
#[derive(Debug, PartialEq, Eq)]
pub enum Command {
    NewGame,
    IsReady,
    /// Set the option of the first name to the second word.
    SetOption(String, String),
    QueryP1Turn,
    QueryGameover,
    QueryResult,
    /// Take up the position of the text.
    Position(String),
    /// Play the move of the text.
    Move(String),
    Print,
    Options,
    Go(GoSettings),
    Stop,
    Quit,
    /// A word of a `go` command that has to be a number is none: the line
    /// cannot be followed further.
    BadNumber,
}

/// A command with its texts as sequences of characters.
pub enum CommandView {
    NewGame,
    IsReady,
    SetOption(Seq<char>, Seq<char>),
    QueryP1Turn,
    QueryGameover,
    QueryResult,
    Position(Seq<char>),
    Move(Seq<char>),
    Print,
    Options,
    Go(GoSettings),
    Stop,
    Quit,
    BadNumber,
}

impl View for Command {
    type V = CommandView;

    open spec fn view(&self) -> CommandView {
        match *self {
            Command::NewGame => CommandView::NewGame,
            Command::IsReady => CommandView::IsReady,
            Command::SetOption(name, value) => CommandView::SetOption(name@, value@),
            Command::QueryP1Turn => CommandView::QueryP1Turn,
            Command::QueryGameover => CommandView::QueryGameover,
            Command::QueryResult => CommandView::QueryResult,
            Command::Position(fen) => CommandView::Position(fen@),
            Command::Move(text) => CommandView::Move(text@),
            Command::Print => CommandView::Print,
            Command::Options => CommandView::Options,
            Command::Go(settings) => CommandView::Go(settings),
            Command::Stop => CommandView::Stop,
            Command::Quit => CommandView::Quit,
            Command::BadNumber => CommandView::BadNumber,
        }
    }
}

/// The views of a list of commands.
pub open spec fn views(commands: Seq<Command>) -> Seq<CommandView> {
    Seq::new(commands.len(), |i: int| commands[i]@)
}

/// The command that a word stands for by itself.
pub open spec fn plain_command(word: Seq<char>) -> Option<CommandView> {
    if word == "uginewgame"@ {
        Some(CommandView::NewGame)
    } else if word == "isready"@ {
        Some(CommandView::IsReady)
    } else if word == "print"@ {
        Some(CommandView::Print)
    } else if word == "options"@ {
        Some(CommandView::Options)
    } else if word == "stop"@ {
        Some(CommandView::Stop)
    } else {
        None
    }
}

/// The question that a word after `query` asks.
pub open spec fn query_command(word: Seq<char>) -> Option<CommandView> {
    if word == "p1turn"@ {
        Some(CommandView::QueryP1Turn)
    } else if word == "gameover"@ {
        Some(CommandView::QueryGameover)
    } else if word == "result"@ {
        Some(CommandView::QueryResult)
    } else {
        None
    }
}

/// The commands that the words of a line give from the word at `i` on. A word
/// that is no command is passed over. `quit` ends the line, `moves` and `go`
/// take all words that are left.
pub open spec fn commands_from(words: Seq<Seq<char>>, i: int) -> Seq<CommandView>
    decreases
            if i < words.len() {
                words.len() - i
            } else {
                0
            },
{
    if i < 0 || i >= words.len() {
        Seq::empty()
    } else if let Some(command) = plain_command(words[i]) {
        seq![command] + commands_from(words, i + 1)
    } else if words[i] == "setoption"@ {
        (match setoption_of(words.skip(i + 1)).0 {
            Some((name, value)) => seq![CommandView::SetOption(name, value)],
            None => Seq::empty(),
        }) + commands_from(words, i + 1 + setoption_of(words.skip(i + 1)).1)
    } else if words[i] == "query"@ {
        if i + 1 < words.len() {
            (match query_command(words[i + 1]) {
                Some(command) => seq![command],
                None => Seq::empty(),
            }) + commands_from(words, i + 2)
        } else {
            Seq::empty()
        }
    } else if words[i] == "position"@ {
        seq![CommandView::Position(position_of(words.skip(i + 1)))] + commands_from(
            words,
            i + 1 + position_len(words.skip(i + 1)),
        )
    } else if words[i] == "moves"@ {
        Seq::new((words.len() - i - 1) as nat, |j: int| CommandView::Move(words[i + 1 + j]))
    } else if words[i] == "go"@ {
        match go_from(words.skip(i + 1), GoSettings::unlimited()) {
            Some(settings) => seq![CommandView::Go(settings)],
            None => seq![CommandView::BadNumber],
        }
    } else if words[i] == "quit"@ {
        seq![CommandView::Quit]
    } else {
        commands_from(words, i + 1)
    }
}

/// The command that `word` stands for by itself.
fn plain(word: &String) -> (r: Option<Command>)
    ensures
        match r {
            Some(command) => plain_command(word@) == Some(command@),
            None => plain_command(word@) is None,
        },
{
    if *word == String::from_str("uginewgame") {
        Some(Command::NewGame)
    } else if *word == String::from_str("isready") {
        Some(Command::IsReady)
    } else if *word == String::from_str("print") {
        Some(Command::Print)
    } else if *word == String::from_str("options") {
        Some(Command::Options)
    } else if *word == String::from_str("stop") {
        Some(Command::Stop)
    } else {
        None
    }
}

/// The question that `word` asks.
fn query(word: &String) -> (r: Option<Command>)
    ensures
        match r {
            Some(command) => query_command(word@) == Some(command@),
            None => query_command(word@) is None,
        },
{
    if *word == String::from_str("p1turn") {
        Some(Command::QueryP1Turn)
    } else if *word == String::from_str("gameover") {
        Some(Command::QueryGameover)
    } else if *word == String::from_str("result") {
        Some(Command::QueryResult)
    } else {
        None
    }
}

/// The commands that the words of a line give, in their order.
pub fn commands(words: &Vec<String>) -> (found: Vec<Command>)
    ensures
        views(found@) == commands_from(texts(words@), 0),
{
    let mut found: Vec<Command> = Vec::new();
    let mut i: usize = 0;
    let ghost all = texts(words@);
    proof {
        assert(views(found@) =~= Seq::<CommandView>::empty());
    }
    while i < words.len()
        invariant
            0 <= i <= words.len(),
            all == texts(words@),
            views(found@) + commands_from(all, i as int) == commands_from(all, 0),
        decreases words.len() - i,
    {
        let ghost before = found@;
        let ghost rest = commands_from(all, i as int);
        proof {
            assert(all[i as int] == words@[i as int]@);
        }
        let word: &String = &words[i];
        if let Some(command) = plain(word) {
            found.push(command);
            i += 1;
            proof {
                assert(views(found@) =~= views(before) + seq![command@]);
                assert(views(found@) + commands_from(all, i as int) =~= views(before) + rest);
            }
        } else if *word == String::from_str("setoption") {
            let (option, next) = crate::ugi::setoption::parse(words, i + 1);
            if let Some((name, value)) = option {
                let command = Command::SetOption(name, value);
                found.push(command);
                proof {
                    assert(views(found@) =~= views(before) + seq![command@]);
                }
            }
            i = next;
            proof {
                assert(views(found@) + commands_from(all, i as int) =~= views(before) + rest);
            }
        } else if *word == String::from_str("query") {
            if i + 1 < words.len() {
                proof {
                    assert(all[i + 1] == words@[i + 1]@);
                }
                if let Some(command) = query(&words[i + 1]) {
                    found.push(command);
                    proof {
                        assert(views(found@) =~= views(before) + seq![command@]);
                    }
                }
                i += 2;
            } else {
                i += 1;
            }
            proof {
                assert(views(found@) + commands_from(all, i as int) =~= views(before) + rest);
            }
        } else if *word == String::from_str("position") {
            let (fen, next) = crate::ugi::position::parse(words, i + 1);
            let command = Command::Position(fen);
            found.push(command);
            i = next;
            proof {
                assert(views(found@) =~= views(before) + seq![command@]);
                assert(views(found@) + commands_from(all, i as int) =~= views(before) + rest);
            }
        } else if *word == String::from_str("moves") {
            let moves = crate::ugi::moves::parse(words, i + 1);
            let mut j: usize = 0;
            proof {
                assert(texts(moves@).len() == moves@.len());
                assert(rest.take(0) =~= Seq::<CommandView>::empty());
                assert(views(before) + rest.take(0) =~= views(before));
            }
            while j < moves.len()
                invariant
                    0 <= j <= moves.len(),
                    moves@.len() == all.len() - i - 1,
                    i < words.len(),
                    all == texts(words@),
                    texts(moves@) == all.skip(i + 1),
                    views(found@) == views(before) + rest.take(j as int),
                    rest == Seq::new(
                        (all.len() - i - 1) as nat,
                        |k: int| CommandView::Move(all[i + 1 + k]),
                    ),
                decreases moves.len() - j,
            {
                let text: &String = &moves[j];
                let command = Command::Move(text.clone());
                let ghost so_far = found@;
                found.push(command);
                proof {
                    assert(texts(moves@)[j as int] == moves@[j as int]@);
                    assert(views(found@) =~= views(so_far) + seq![command@]);
                    assert(rest.take(j + 1) =~= rest.take(j as int) + seq![rest[j as int]]);
                }
                j += 1;
            }
            proof {
                assert(texts(moves@).len() == moves@.len());
                assert(rest.take(j as int) =~= rest);
            }
            return found;
        } else if *word == String::from_str("go") {
            let command = match crate::ugi::go::parse(words, i + 1) {
                Some(settings) => Command::Go(settings),
                None => Command::BadNumber,
            };
            found.push(command);
            proof {
                assert(views(found@) =~= views(before) + seq![command@]);
            }
            return found;
        } else if *word == String::from_str("quit") {
            found.push(Command::Quit);
            proof {
                assert(views(found@) =~= views(before) + seq![CommandView::Quit]);
            }
            return found;
        } else {
            i += 1;
        }
    }
    proof {
        assert(views(found@) + Seq::<CommandView>::empty() =~= views(found@));
    }
    found
}

/// What a line asks before the engine is set up.
#[derive(Debug, PartialEq, Eq)]
pub enum Setup {
    /// Set the option of the first name to the second word, where the line
    /// gives both; the rest of the line is not read.
    SetOption(Option<(String, String)>),
    Quit,
    /// Set the engine up, and read the line again as commands.
    Begin,
}

/// What a line asks before the engine is set up, with its texts as sequences
/// of characters.
pub enum SetupView {
    SetOption(Option<(Seq<char>, Seq<char>)>),
    Quit,
    Begin,
}

impl View for Setup {
    type V = SetupView;

    open spec fn view(&self) -> SetupView {
        match *self {
            Setup::SetOption(Some((name, value))) => SetupView::SetOption(Some((name@, value@))),
            Setup::SetOption(None) => SetupView::SetOption(None),
            Setup::Quit => SetupView::Quit,
            Setup::Begin => SetupView::Begin,
        }
    }
}

/// What the words of a line ask before the engine is set up: to set an option,
/// to quit, or, with any other first word and with none, to begin.
pub open spec fn setup_of(words: Seq<Seq<char>>) -> SetupView {
    if words.len() == 0 {
        SetupView::Begin
    } else if words[0] == "setoption"@ {
        SetupView::SetOption(setoption_of(words.skip(1)).0)
    } else if words[0] == "quit"@ {
        SetupView::Quit
    } else {
        SetupView::Begin
    }
}

/// What the words of a line ask before the engine is set up.
pub fn setup(words: &Vec<String>) -> (r: Setup)
    ensures
        r@ == setup_of(texts(words@)),
{
    if words.len() == 0 {
        return Setup::Begin;
    }
    proof {
        assert(texts(words@)[0] == words@[0]@);
    }
    if words[0] == String::from_str("setoption") {
        let (option, _) = crate::ugi::setoption::parse(words, 1);
        Setup::SetOption(option)
    } else if words[0] == String::from_str("quit") {
        Setup::Quit
    } else {
        Setup::Begin
    }
}

} // verus!
