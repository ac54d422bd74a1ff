//! The simulation core of an arena-combat game: the table of entities, the
//! combat and clean-up rules, the seeding of the arena and the order of a
//! tick. The rigid-body engine and the transport stay outside; the core
//! hands them requests and takes their reports as plain values.

pub mod body;
pub mod game;
pub mod init;
pub mod physics_world;
pub mod rules;
pub mod scheduler;
pub mod user_input;
