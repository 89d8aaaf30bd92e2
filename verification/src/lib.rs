//! Rule engines for two hexagonal- and square-grid board games together with
//! the pure parts of the client protocol that carries their snapshots.

pub mod blokus;
pub mod error;
pub mod game;
pub mod client;
pub mod plugin;
pub mod protocol;
pub mod strings;
pub mod util;
pub mod xml_node;
