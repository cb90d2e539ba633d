//! Core of an entity component system.

pub mod archetype;
pub mod change_detection;
pub mod component;
pub mod entity;
pub mod executor;
pub mod identifier;
pub mod index;
pub mod layout;
pub mod lifecycle;
pub mod observer;
pub mod query;
pub mod storage;
pub mod system;
pub mod text;
pub mod world;
