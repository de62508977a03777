//! The newbound agent's decision core: the registries, the executive's
//! tick, the tool loop's bookkeeping, the settings file, the message
//! store's identities and the text formats the agent writes, each with a
//! contract that Verus checks.

pub mod text;
pub mod fnv;
pub mod registry;
pub mod toolloop;
pub mod executive;
pub mod settings;
pub mod json;
pub mod jsonread;
pub mod curriculum;
pub mod bench;
pub mod inspect;
pub mod archivist;
pub mod service;
pub mod messages;
pub mod sensor;
pub mod llm;
pub mod command;
