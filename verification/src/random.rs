pub mod root;
