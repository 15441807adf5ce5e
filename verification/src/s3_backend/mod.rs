pub mod bootstrap;
pub mod entries;
pub mod filesystem;
pub mod metadata;
pub mod model;
pub mod moving;
pub mod partial_open_file;
pub mod parts;
pub mod protocol;
pub mod round_trip;
pub mod simple_open_file;
pub mod steps;
pub mod tree_move;
