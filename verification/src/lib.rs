//! Showing the desktop: one press puts every window on the current workspace
//! away, the next brings back exactly those.

mod seq_facts;
pub mod show_desktop;
pub mod state_file;
pub mod compositor;
pub mod toggle;
pub mod panel;
