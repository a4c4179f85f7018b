//! Game-logic core of a small multiplayer tank shooter: packet framing and
//! obfuscation, the encrypted client/server channel, the server's tank
//! component store and levelling rules, the tank-definition tree, and the
//! client's chat and upgrade-panel state.

pub mod packets;
pub mod tanks;
pub mod rules;
pub mod channel;
pub mod tank_tree;
pub mod text;
pub mod tank_gen;
pub mod chat;
pub mod tank_options;
pub mod ip_lookup;
pub mod controls;
pub mod scores;
pub mod events;
pub mod collisions;
pub mod tank_script;
pub mod world;
pub mod session;
