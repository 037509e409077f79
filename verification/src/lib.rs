//! Browsing GitHub Actions workflows: the logic of an interactive terminal view.
pub mod text;
pub mod repository;
pub mod cache;
pub mod github;
pub mod response;
pub mod runs;
pub mod fetch;
pub mod lit;
pub mod triage;
pub mod query;
pub mod layout;
pub mod state;
pub mod command;
pub mod paths;
pub mod report;
pub mod view;
pub mod tui;
pub mod actions;
pub mod editing;
pub mod panes;
pub mod tabs;
pub mod keys;
pub mod screen;
pub mod readings;
pub mod laws;
pub mod continuity;
pub mod history;
pub mod counting;
pub mod selecting;
pub mod moving;
pub mod finding;
pub mod matching;
pub mod expressions;
pub mod steering;
pub mod texts;
pub mod replies;
pub mod logs;
pub mod arranging;
pub mod showing;
pub mod keeping;
pub mod loading;
pub mod scheduling;
pub mod typing;
pub mod staying;
pub mod touching;
