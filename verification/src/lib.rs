//! Verified core of a server that coordinates mining turtles: world
//! coordinates and chunk storage, the barrier map and neighbour rules
//! used by path search, path-to-instruction encoding, turtle records,
//! API keys and the turtle connection registry.

pub mod coordinates;
pub mod text;
pub mod chunks;
pub mod astar;
pub mod turtle_data;
pub mod server;
pub mod api_key;
pub mod connections;
pub mod extractor;
