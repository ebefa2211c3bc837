pub mod component;
pub mod entity;
pub mod registry;
pub mod resource;
pub mod tags;
pub mod world;
