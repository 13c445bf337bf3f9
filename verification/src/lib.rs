pub mod text;
pub mod scanner;
pub mod selector;
pub mod transform;
pub mod model;
pub mod plan;
pub mod layout;
pub mod relation;
pub mod render;
pub mod planner;
pub mod analysis;
pub mod banner;
pub mod discovery;
pub mod output;
pub mod wizard;
pub mod screens;
pub mod listing;
