//! An interactive text-adventure engine: world model, command parser,
//! system dispatch, event bus, quest tracking and adventure validation.

pub mod adventure;
pub mod adventure_game;
pub mod chain;
pub mod command;
pub mod config_service;
pub mod data_service;
pub mod editor;
pub mod engine;
pub mod event_bus;
pub mod game_state;
pub mod idmap;
pub mod io_service;
pub mod json;
pub mod priorities;
pub mod quests;
pub mod services;
pub mod strmap;
pub mod system_registry;
pub mod systems;
pub mod text;
