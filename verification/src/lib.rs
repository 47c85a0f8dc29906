pub mod background;
pub mod bytes;
pub mod catalog;
pub mod cells;
pub mod checks;
pub mod clock;
pub mod dashboard;
pub mod fingerprint;
pub mod job;
pub mod json;
pub mod layout;
pub mod marker;
pub mod model;
pub mod number;
pub mod options;
pub mod paths;
pub mod plain;
pub mod process;
pub mod program;
pub mod report;
pub mod row;
pub mod schedule;
pub mod screen;
pub mod selfupdate;
pub mod startup;
pub mod terminal;
pub mod text;
