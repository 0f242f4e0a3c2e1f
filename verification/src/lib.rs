//! DynaMaze, a multiplayer game about traversing a shifting maze.
//!
//! This crate holds the game's rules: tiles and their connections, the board
//! with its sliding rows and columns, reachability through the maze, turn
//! handling, lobby and network state transitions, and the relay server's
//! routing. Rendering, input devices and sockets live in the program around it.

pub mod anim;
pub mod board;
pub mod controller;
pub mod demo;
pub mod gamepad;
pub mod generate;
pub mod inventory;
pub mod item;
pub mod menu;
pub mod meta_net;
pub mod net;
pub mod parse;
pub mod options;
pub mod player;
pub mod reach;
pub mod server;
mod rng;
pub mod targets;
pub mod tile;
pub mod tutorial;
