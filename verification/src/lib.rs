pub mod cli;
pub mod detect;
pub mod plan;
pub mod run;
pub mod text;
pub mod ui;
