//! Verified core of an animation graph plugin: the resource map that graph
//! nodes read, the graph clip source format and its loader decisions, the
//! resolution of clips whose curves wait on a glTF file, and the order of
//! the plugin's system sets.
pub mod node_resources;
pub mod animation_clip;
pub mod pending_clips;
pub mod plugin;
