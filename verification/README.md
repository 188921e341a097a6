# bevy_animation_graph_core (verified core)

The logic of the animation graph plugin's core, proved with Verus:

- `src/node_resources.rs`: the type-erased resource map that graph nodes read
  (`GraphNodeResources`), verified as a map from type identities to erased
  values in which each value has the type it is stored under; the typed
  `insert`, `get`, `remove` and `contains` are stated at the identity of their
  type, with the read-after-write, replace and remove laws.  The entries
  are kept in a vector with distinct type identities and searched linearly,
  so that the contents can be stated as a map over opaque `TypeId` keys.
- `src/animation_clip.rs`: the `*.anim.ron` clip format (`GraphClipSource`,
  `GraphClipSerial`, `PendingGltfSource`) and the loader's decisions
  (`GraphClipLoader`): its extension, what a load asks for, what a loaded clip
  records, and when a clip can be written back.
- `src/pending_clips.rs`: the resolution of clips whose curves wait on a glTF
  file, as a plan of actions computed from plain models of the asset stores.
- `src/plugin.rs`: the plugin's system sets and their chain order.

`app/` holds the Bevy glue: RON parsing through serde, the asynchronous file
read and asset-server requests of the loader, the ECS resource, the system that
reads the asset stores and applies the resolution plan, and the system-set
labels.
