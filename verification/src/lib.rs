//! Verified core of a virtualized data grid: selection geometry, context-menu
//! snapshots, the filter panel's working state, grid-wide search navigation,
//! and the keyboard / mouse / grouping state machine of the grid.

pub mod data;
pub mod selection;
pub mod menu;
pub mod context_menu;
pub mod text;
pub mod text_input;
pub mod filter;
pub mod filter_panel;
pub mod search;
pub mod grouping;
pub mod state;
pub mod navigation;
pub mod find;
pub mod clipboard;
pub mod panel_ops;
pub mod commands;
pub mod request;
pub mod status;
pub mod tabs;
pub mod drill;
pub mod rows;
pub mod right_click;
pub mod order;
pub mod cell_order;
pub mod numeric;
