//! Restoring a saved session.

pub mod columns;
pub mod dry;
pub mod laws;
pub mod live;
pub mod messages;
pub mod plan;
pub mod protocol;
pub mod reorder;
pub mod run;
pub mod stray;
pub mod sweep;
pub mod tally;

pub use columns::{columns_match, plan_column_swaps, plan_width_assignments, LiveWindow};
pub use dry::run_dry;
pub use live::{count_class, live_width_ratios, live_windows, resolve_launch_command};
pub use plan::{plan_workspace, select_workspaces, ClassPlan};
pub use run::run;
pub use stray::stray_target;
