pub mod board;
pub mod codec;
pub mod color;
pub mod game;
pub mod messages;
pub mod piece;
pub mod position;
pub mod reactor;
pub mod registry;
pub mod retry;
pub mod router;
pub mod rng;
pub mod scene;
pub mod session;
