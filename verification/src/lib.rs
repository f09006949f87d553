//! A local kanban board: boards, their columns and the cards of the columns,
//! kept in a store whose rules are proved, with the statements that keep a
//! database in step with it, the order in which its schema is migrated, and
//! the naming and thinning of its backups.

pub mod backup;
pub mod boards;
pub mod cards;
pub mod columns;
pub mod error;
pub mod laws;
pub mod migrations;
pub mod order;
pub mod ranking;
pub mod rows;
pub mod sources;
pub mod statements;
pub mod store;
pub mod text;
