pub mod event;
pub mod game;
pub mod game_lemmas;
pub mod message;
pub mod server;
pub mod server_lemmas;
pub mod server_model;
