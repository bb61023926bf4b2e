pub mod content;
pub mod events;
pub mod naming;
pub mod pipeline;
