pub mod auction;
pub mod context;
pub mod group;
pub mod index;
pub mod loader;
pub mod queue;
pub mod reward_center;
pub mod upsert;
