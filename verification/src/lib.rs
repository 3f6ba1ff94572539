pub mod event_executable;
pub mod prelude;
