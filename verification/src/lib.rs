pub mod cgroup;
pub mod collector;
pub mod events;
pub mod groups;
pub mod hist;
pub mod listing;
pub mod pattern;
pub mod perf;
pub mod records;
pub mod run_loop;
pub mod session;
pub mod text;
pub mod trace;
