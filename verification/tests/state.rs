use pijersi::mv::Mv;
use pijersi::position::Position;
use pijersi::searchresult::SearchResult;
use pijersi::square::Square;
use pijersi::state::{EngineState, Search};
use pijersi::ugi::result::UGIResult;

#[test]
fn a_new_engine() {
    let state = EngineState::new(true);
    assert!(state.debug.value);
    assert_eq!(state.debug.name, "debug");
    assert_eq!(state.search.name, "search");
    assert_eq!(state.search.value, "alphabeta");
    assert_eq!(state.search.options, ["random", "negamax", "alphabeta"]);
    assert_eq!(state.pos.get_fen(), "6/7/6/7/6/7/6 w 0 0");
    assert!(!EngineState::new(false).debug.value);
}

#[test]
fn the_starting_position() {
    let text = "s-p-r-s-p-r-/p-r-s-wwr-s-p-/6/7/6/P-S-R-WWS-R-P-/R-P-S-R-P-S- w 0 1";
    assert_eq!(Position::startpos().get_fen(), text);
    let mut state = EngineState::new(false);
    state.uginewgame();
    assert_eq!(state.pos.get_fen(), text);
    assert_eq!(state.result(), None);
}

#[test]
fn positions_and_moves_by_their_text() {
    let mut state = EngineState::new(false);
    state.position("6/7/6/7/6/s-6/R-5 w 0 1");
    assert_eq!(state.result(), None);
    state.moves("a1b3");
    assert_eq!(state.pos.get_fen(), "6/7/6/7/6/s-6/R-5 w 0 1");
    state.moves("a1a2");
    assert_eq!(state.pos.get_fen(), "6/7/6/7/6/s-6/1R-4 b 1 1");
    state.moves("b1a1");
    assert_eq!(state.pos.get_fen(), "6/7/6/7/6/7/s-R-4 w 2 1");
    assert_eq!(state.result(), Some(UGIResult::P2win));
    state.position("startpos");
    state.moves("b3c2");
    assert_eq!(
        state.pos.get_fen(),
        "s-p-r-s-p-r-/p-r-s-wwr-s-p-/6/7/1R-4/P-S-1WWS-R-P-/R-P-S-R-P-S- b 1 1"
    );
    state.position("6/7/6/7/6/7/R-5 w 0 1");
    assert_eq!(state.result(), Some(UGIResult::P1win));
    state.position("r-5/7/6/7/6/7/R-5 w 20 1");
    assert_eq!(state.result(), Some(UGIResult::Draw));
}

#[test]
fn options_are_set_by_name() {
    let mut state = EngineState::new(false);
    state.set_option("debug", "true");
    assert!(state.debug.value);
    state.set_option("debug", "yes");
    assert!(state.debug.value);
    state.set_option("debug", "false");
    assert!(!state.debug.value);
    state.set_option("search", "random");
    assert_eq!(state.search.value, "random");
    state.set_option("search", "true");
    assert_eq!(state.search.value, "random");
    state.set_option("search", "negamax");
    assert_eq!(state.search.value, "negamax");
    state.set_option("depth", "alphabeta");
    assert_eq!(state.search.value, "negamax");
    assert_eq!(state.search.options.len(), 3);
}

#[test]
fn the_chosen_search() {
    let mut state = EngineState::new(false);
    assert_eq!(state.chosen_search(), Some(Search::AlphaBeta));
    state.set_option("search", "random");
    assert_eq!(state.chosen_search(), Some(Search::Random));
    state.set_option("search", "negamax");
    assert_eq!(state.chosen_search(), Some(Search::Negamax));
    state.search.value = "other".to_string();
    assert_eq!(state.chosen_search(), None);
}

#[test]
fn the_line_of_the_move_to_play() {
    let best = Mv::SoloMove(Square(8), Square(14));
    let reply = Mv::StackMove(Square(35), Square(22));
    let result = SearchResult { bestmove: Some(best), ponder: Some(reply), nodes: 5 };
    assert_eq!(result.to_string(), "bestmove b3c2 ponder f4d4d4");
    let result = SearchResult { bestmove: Some(best), ponder: None, nodes: 5 };
    assert_eq!(result.to_string(), "bestmove b3c2");
    let result = SearchResult { bestmove: None, ponder: None, nodes: 5 };
    assert_eq!(result.to_string(), "bestmove 0000");
}
