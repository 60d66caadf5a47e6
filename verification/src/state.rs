use crate::position::{Board, Position};
use crate::set_fen::parse_fen;
use crate::ugi::options::{Check, Combo};
use crate::ugi::result::UGIResult;
use vstd::prelude::*;

verus! {

/// The searches that an engine offers.
#[derive(Clone, Copy, Debug, PartialEq, Eq, Structural)]
pub enum Search {
    Random,
    Negamax,
    AlphaBeta,
}

impl Search {
    /// The search that `word` names.
    pub open spec fn named(word: Seq<char>) -> Option<Search> {
        if word == "random"@ {
            Some(Search::Random)
        } else if word == "negamax"@ {
            Some(Search::Negamax)
        } else if word == "alphabeta"@ {
            Some(Search::AlphaBeta)
        } else {
            None
        }
    }
}

/// What an engine keeps between the commands of the protocol.
#[derive(Debug)]
pub struct EngineState {
    pub pos: Position,
    // Options
    pub debug: Check,
    pub search: Combo,
}

impl EngineState {
    /// The state of an engine that has not been given a position: the empty
    /// board, the alpha-beta search chosen among the three searches, and
    /// `debug` on or off as asked.
    pub fn new(debug: bool) -> (state: Self)
        ensures
            state.pos.wf(),
            state.debug.name@ == "debug"@,
            state.debug.value == debug,
            state.search.name@ == "search"@,
            state.search.value@ == "alphabeta"@,
            state.search.options@.len() == 3,
            state.search.options@[0]@ == "random"@,
            state.search.options@[1]@ == "negamax"@,
            state.search.options@[2]@ == "alphabeta"@,
    {
        let mut options: Vec<String> = Vec::new();
        options.push(String::from_str("random"));
        options.push(String::from_str("negamax"));
        options.push(String::from_str("alphabeta"));
        Self {
            pos: Position::default(),
            debug: Check { name: String::from_str("debug"), value: debug },
            search: Combo {
                name: String::from_str("search"),
                value: String::from_str("alphabeta"),
                options,
            },
        }
    }

    /// Takes up the position from which a game starts.
    pub fn uginewgame(&mut self)
        ensures
            final(self).pos.wf(),
            final(self).pos@ == Board::start(),
            final(self).debug == old(self).debug,
            final(self).search == old(self).search,
    {
        self.pos = Position::startpos();
    }

    /// The result of the game by the names of the protocol.
    pub fn result(&self) -> (r: Option<UGIResult>)
        ensures
            r == match self.pos.spec_result() {
                Some(result) => Some(UGIResult::spec_of(result)),
                None => None,
            },
    {
        match self.pos.result() {
            Some(result) => Some(UGIResult::of(result)),
            None => None,
        }
    }

    /// Takes up the position that `fen` describes.
    pub fn position(&mut self, fen: &str)
        requires
            parse_fen(fen@) is Some,
        ensures
            final(self).pos.wf(),
            Some(final(self).pos@) == parse_fen(fen@),
            final(self).debug == old(self).debug,
            final(self).search == old(self).search,
    {
        self.pos.set_fen(fen);
    }

    /// Plays the legal move that `movestr` names, if it names one.
    pub fn moves(&mut self, movestr: &str)
        requires
            old(self).pos.wf(),
            old(self).pos.halfmoves < i32::MAX,
        ensures
            final(self).pos.wf(),
            final(self).pos@ == match old(self).pos@.find_move(movestr@) {
                Some(mv) => old(self).pos@.apply(mv),
                None => old(self).pos@,
            },
            final(self).debug == old(self).debug,
            final(self).search == old(self).search,
    {
        if let Some(mv) = self.pos.find_move(movestr) {
            proof {
                self.pos.lemma_cells();
                self.pos@.lemma_legal_move_keeps_wf(mv);
            }
            self.pos.makemove(&mv);
        }
    }

    /// Sets an option: `debug` to `true` or `false`, `search` to one of its
    /// words. Any other name and any other value changes nothing.
    pub fn set_option(&mut self, name: &str, value: &str)
        ensures
            final(self).pos == old(self).pos,
            final(self).debug.name == old(self).debug.name,
            final(self).debug.value == if name@ == "debug"@ && value@ == "true"@ {
                true
            } else if name@ == "debug"@ && value@ == "false"@ {
                false
            } else {
                old(self).debug.value
            },
            final(self).search.name == old(self).search.name,
            final(self).search.options == old(self).search.options,
            final(self).search.value@ == if name@ == "search"@ && exists|i: int|
                0 <= i < old(self).search.options@.len() && (#[trigger] old(
                    self,
                ).search.options@[i])@ == value@ {
                value@
            } else {
                old(self).search.value@
            },
    {
        proof {
            reveal_strlit("debug");
            reveal_strlit("search");
            assert("debug"@.len() == 5 && "search"@.len() == 6);
        }
        let name_text = String::from_str(name);
        let value_text = String::from_str(value);
        let is_debug = name_text == String::from_str("debug");
        if is_debug && value_text == String::from_str("true") {
            self.debug.value = true;
        } else if is_debug && value_text == String::from_str("false") {
            self.debug.value = false;
        } else if name_text == String::from_str("search") {
            self.search.select(value);
        }
    }

    /// The search that is chosen, where the value of the option names one.
    pub fn chosen_search(&self) -> (search: Option<Search>)
        ensures
            search == Search::named(self.search.value@),
    {
        if self.search.value == String::from_str("random") {
            Some(Search::Random)
        } else if self.search.value == String::from_str("negamax") {
            Some(Search::Negamax)
        } else if self.search.value == String::from_str("alphabeta") {
            Some(Search::AlphaBeta)
        } else {
            None
        }
    }
}

} // verus!
