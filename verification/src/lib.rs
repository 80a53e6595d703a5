//! A terminal process-listing helper library.
//!
//! The heart of the crate is the column-width allocation algorithm in
//! [`layout`]: given a target output width and a reserved width for the
//! expandable command-line column, it decides which columns of a fixed
//! catalog to include, how much space the expandable column gets, and in
//! what order the columns appear. The remaining modules hold the pure
//! parts of the surrounding tool: matching process-table lines against
//! query strings ([`query`]), truncating and highlighting output lines
//! ([`render`]), and interpreting command-line arguments ([`cli`]).

pub mod cli;
pub mod layout;
pub mod numfmt;
pub mod query;
pub mod render;

pub use cli::CliConfig;
pub use cli::parse_args;
pub use layout::PlanEntry;
pub use layout::format_string;
pub use layout::plan;
pub use numfmt::u64_to_string;
pub use query::find_matching_pids;
pub use query::line_matches;
pub use render::render_line;
pub use render::summary_line;
pub use render::truncate_line;
