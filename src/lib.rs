//! Width-constrained wrapping of table cells and redistribution of column
//! widths, with the contracts of every step checked by Verus.

pub mod allocate;
pub mod layout;
pub mod peaker;
pub mod render;
pub mod rewrap;
pub mod segment;
pub mod select;
pub mod text;
pub mod width;
pub mod wrap;

pub use allocate::decrease_widths;
pub use peaker::{Peaker, PriorityMax, PriorityMin, PriorityNone};
pub use select::get_decrease_cell_list;
pub use wrap::{Wrap, build_link_prefix_suffix, wrap_spans, wrap_text};
