pub mod geom;
mod random;
pub mod terrain;
pub mod world;
pub mod visibility;
pub mod game;
pub mod session;
