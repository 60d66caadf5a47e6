pub mod go;
pub mod listen;
pub mod moves;
pub mod options;
pub mod position;
pub mod result;
pub mod setoption;
pub mod words;
