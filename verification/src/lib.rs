pub mod calendar;
pub mod control;
pub mod delivery;
pub mod placement;
pub mod protocol;
pub mod records;
pub mod session;
pub mod setup;
pub mod text;
pub mod transfer;
pub mod upload;
pub mod upload_flow;
pub mod walk;
