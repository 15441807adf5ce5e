pub mod below;
pub mod carried;
pub mod deep_move;
pub mod ends;
pub mod follows;
pub mod found;
pub mod once;
pub mod ordered;
pub mod succeeds;
pub mod walked;
