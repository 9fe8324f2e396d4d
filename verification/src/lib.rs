//! Simulation core of an isometric city-building strategy game: resources,
//! buildings, citizens and their daily routine, jobs, production chains,
//! the research tree, quests and a few software-rendering helpers.

pub mod types;
pub mod research;
pub mod world;
pub mod path;
pub mod config;
pub mod game;
pub mod citizen_state;
pub mod building_production;
pub mod jobs;
pub mod game_loop;
pub mod input;
pub mod menu;
pub mod text;
pub mod console;
pub mod quests;
pub mod notifications;
pub mod commands;
pub mod palette;
pub mod atlas;
pub mod tiles;
pub mod glyphs;
pub mod structures;
pub mod controls;
pub mod minimap;
pub mod terrain;
pub mod playlist;
