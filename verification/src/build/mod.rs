//! What the engine builder computes from an application's source: the
//! scheduling graph, component and task maps, and archetypes.

pub mod dependency;
pub mod schedule;
pub mod merge;
pub mod leaves;
pub mod graph_checks;
pub mod conditions;
pub mod package;
pub mod grammar;
pub mod paths;
pub mod directory;
pub mod scanning;
pub mod tasks_scan;
pub mod components_scan;
pub mod tasks;
pub mod components;
pub mod archetypes;
pub mod declarations;
pub mod reach;
pub mod entities;
pub mod wiring;
pub mod numbering;
pub mod builder;
pub mod task_plan;
pub mod view_plan;
pub mod source;
pub mod lexing;
