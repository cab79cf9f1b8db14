//! Verified core of a local mod manager for a BepInEx-based game.

pub mod text;
pub mod sorting;
pub mod mods;
pub mod config;
pub mod bepinex;
pub mod progress;
pub mod game;
pub mod resource;
pub mod archive;
