use bevy_animation_graph_core::animation_clip::{
    GraphClipLoader, GraphClipParts, GraphClipSerial, GraphClipSource,
};

fn source(path: &str, name: &str) -> GraphClipSource {
    GraphClipSource::GltfNamed { path: path.to_string(), animation_name: name.to_string() }
}

fn source_parts(s: &GraphClipSource) -> (String, String) {
    match s {
        GraphClipSource::GltfNamed { path, animation_name } => (path.clone(), animation_name.clone()),
    }
}

#[test]
fn loader_claims_anim_ron_only() {
    let loader = GraphClipLoader::default();
    assert_eq!(loader.extensions(), &["anim.ron"]);
}

#[test]
fn load_plan_asks_for_skeleton_and_gltf() {
    let loader = GraphClipLoader;
    let serial = GraphClipSerial {
        source: source("models/fox.glb", "Run"),
        skeleton: "skeletons/fox.skn.ron".to_string(),
        event_tracks: vec![("footsteps".to_string(), 2usize)],
    };
    let plan = loader.load_plan(&serial);
    assert_eq!(plan.skeleton_path, "skeletons/fox.skn.ron");
    assert_eq!(plan.gltf_path, "models/fox.glb");
    assert_eq!(plan.pending_animation_name, "Run");
    assert_eq!(source_parts(&plan.source), ("models/fox.glb".to_string(), "Run".to_string()));
}

#[test]
fn pending_source_keeps_handle_and_name() {
    let loader = GraphClipLoader;
    let serial = GraphClipSerial {
        source: source("a.gltf", "Walk"),
        skeleton: "s.skn.ron".to_string(),
        event_tracks: (),
    };
    let plan = loader.load_plan(&serial);
    let pending = GraphClipLoader::pending_source(&plan, 42u64);
    assert_eq!(pending.gltf_handle, 42);
    assert_eq!(pending.animation_name, "Walk");
}

#[test]
fn try_from_parts_without_source_fails() {
    let parts = GraphClipParts {
        source: None,
        skeleton_path: Some("s.skn.ron".to_string()),
        event_tracks: 1u8,
    };
    assert!(GraphClipSerial::try_from_parts(parts, |p: String| p).is_err());
}

#[test]
fn try_from_parts_without_skeleton_path_fails() {
    let parts = GraphClipParts {
        source: Some(source("a.glb", "Idle")),
        skeleton_path: None,
        event_tracks: 1u8,
    };
    assert!(GraphClipSerial::try_from_parts(parts, |p: String| p).is_err());
}

#[test]
fn try_from_parts_without_either_fails() {
    let parts: GraphClipParts<u8> =
        GraphClipParts { source: None, skeleton_path: None, event_tracks: 0 };
    assert_eq!(GraphClipSerial::try_from_parts(parts, |p: String| p).err(), Some(()));
}

#[test]
fn try_from_parts_normalizes_skeleton_and_keeps_the_rest() {
    let parts = GraphClipParts {
        source: Some(source("models/fox.glb", "Run")),
        skeleton_path: Some("skeletons\\fox.skn.ron".to_string()),
        event_tracks: vec![3u32, 4u32],
    };
    let serial = GraphClipSerial::try_from_parts(parts, |p: String| p.replace('\\', "/"))
        .ok()
        .unwrap();
    assert_eq!(serial.skeleton, "skeletons/fox.skn.ron");
    assert_eq!(serial.event_tracks, vec![3u32, 4u32]);
    assert_eq!(source_parts(&serial.source), ("models/fox.glb".to_string(), "Run".to_string()));
}

#[test]
fn source_clone_is_equal() {
    let s = source("x.glb", "Jump");
    assert_eq!(source_parts(&s.clone()), source_parts(&s));
}

#[test]
fn load_then_write_back_round_trip() {
    let loader = GraphClipLoader;
    let serial = GraphClipSerial {
        source: source("models/fox.glb", "Run"),
        skeleton: "skeletons\\fox.skn.ron".to_string(),
        event_tracks: vec![("steps".to_string(), 1u8)],
    };
    let plan = loader.load_plan(&serial);
    let parts = GraphClipParts {
        source: Some(plan.source.clone()),
        skeleton_path: Some(plan.skeleton_path.clone()),
        event_tracks: serial.event_tracks.clone(),
    };
    let back = GraphClipSerial::try_from_parts(parts, |p: String| p.replace('\\', "/"))
        .ok()
        .unwrap();
    assert_eq!(source_parts(&back.source), source_parts(&serial.source));
    assert_eq!(back.skeleton, "skeletons/fox.skn.ron");
    assert_eq!(back.event_tracks, serial.event_tracks);
}
