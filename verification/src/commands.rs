//! What the application's commands decide: which models there are and
//! whether they are present, how a model is loaded, what a chat message
//! becomes, and which settings suit the machine.
pub mod chat;
pub mod models;
pub mod system;
