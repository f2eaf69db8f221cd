//! Ternary multi-agent collaboration: agents emit decisions in {-1, 0, +1},
//! consensus strategies mix them, and a work session drives the whole loop
//! tick by tick while recording harmony metrics.

pub mod trit;
pub mod rule;
pub mod collaborator;
pub mod progression;
pub mod sync;
pub mod consensus;
pub mod harmony;
pub mod session;

pub use trit::Trit;
pub use rule::CollabRule;
pub use collaborator::{Collaborator, Role};
pub use progression::{Phase, TaskProgression};
pub use sync::WorkSync;
pub use consensus::ConsensusMix;
pub use harmony::CognitiveHarmony;
pub use session::WorkSession;
