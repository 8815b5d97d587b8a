//! The names that most callers need.

pub use crate::config::{Attribute, ConfigError, EventModifierArg};
pub use crate::context::{derive_spawn_context, DeriveInput, SpawnContextPlan};
pub use crate::pipeline::{Modifier, ModifierPipeline};
pub use crate::spawn::{SpawnContextDispatcher, SpawnDispatcher, SpawnEvent};
pub use crate::store::Sighting;
