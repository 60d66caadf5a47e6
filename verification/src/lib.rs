pub mod after_move;
pub mod alphabeta;
pub mod bitboard;
pub mod bits;
pub mod count_moves;
pub mod is_gameover;
pub mod is_valid;
pub mod layer;
pub mod legal_moves;
pub mod legality;
pub mod makemove;
pub mod move_generator;
pub mod mv;
pub mod number;
pub mod perft;
pub mod picture;
pub mod position;
pub mod random;
pub mod result;
pub mod round_trip;
pub mod searchresult;
pub mod searchstats;
pub mod set_fen;
pub mod side;
pub mod split;
pub mod square;
pub mod startpos;
pub mod state;
pub mod ugi;
