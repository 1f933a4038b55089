//! Loads and move costs that partitions report.

pub mod load_or_move_cost;
