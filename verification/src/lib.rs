pub mod text;
pub mod matcher;
pub mod document;
pub mod index;
pub mod resolver;
pub mod format;
pub mod planner;
pub mod paths;
pub mod outcome;
pub mod settings;
pub mod machine;
pub mod run;
