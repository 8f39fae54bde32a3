//! What the three-pane interface shows and decides, apart from drawing:
//! the rows of the panes, colours, key bindings and widths of text.

pub mod rows;
pub mod menu;
pub mod theme;
pub mod panes;
pub mod keymap;
pub mod control;
pub mod highlight;
pub mod art;
pub mod cells;
pub mod header;
pub mod syntax;
