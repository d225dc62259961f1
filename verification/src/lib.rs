pub mod dispatcher;
pub mod graph;
pub mod graph_laws;
pub mod models;
pub mod protocol;
pub mod registry;
pub mod session;
pub mod tables;
pub mod text;
pub mod transport;
