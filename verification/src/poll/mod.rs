pub mod state;
pub mod queue;
pub mod registration;
pub mod laws;
pub mod ids;
pub mod lock;
