use bevy_animation_graph_core::animation_clip::PendingGltfSource;
use bevy_animation_graph_core::pending_clips::{
    any_gltf_loaded, plan_pending_resolution, resolve_clip, AssetEventKind, ClipEntry,
    LoadedGltf, NamedAnimation, PendingAction,
};

fn waiting(clip: u64, gltf: u64, name: &str) -> ClipEntry {
    ClipEntry {
        clip,
        pending: Some(PendingGltfSource { gltf_handle: gltf, animation_name: name.to_string() }),
    }
}

fn gltf(id: u64, named: &[(&str, u64)]) -> LoadedGltf {
    LoadedGltf {
        id,
        named_animations: named
            .iter()
            .map(|(n, c)| NamedAnimation { name: n.to_string(), clip: *c })
            .collect(),
    }
}

fn describe(actions: &[PendingAction]) -> Vec<(char, u64, u64)> {
    actions
        .iter()
        .map(|a| match a {
            PendingAction::Resolve { clip, animation } => ('r', *clip, *animation),
            PendingAction::Abandon { clip } => ('a', *clip, 0),
        })
        .collect()
}

#[test]
fn load_signals() {
    assert!(!any_gltf_loaded(&vec![]));
    assert!(!any_gltf_loaded(&vec![
        AssetEventKind::Modified,
        AssetEventKind::Removed,
        AssetEventKind::Unused
    ]));
    assert!(any_gltf_loaded(&vec![AssetEventKind::Modified, AssetEventKind::Added]));
    assert!(any_gltf_loaded(&vec![AssetEventKind::LoadedWithDependencies]));
}

#[test]
fn nothing_happens_without_a_load_event() {
    let clips = vec![waiting(1, 10, "Run")];
    let gltfs = vec![gltf(10, &[("Run", 100)])];
    let actions =
        plan_pending_resolution(&vec![AssetEventKind::Modified], &clips, &gltfs, &vec![100]);
    assert!(actions.is_empty());
}

#[test]
fn resolves_when_gltf_and_animation_are_loaded() {
    let clips = vec![waiting(1, 10, "Run")];
    let gltfs = vec![gltf(10, &[("Walk", 99), ("Run", 100)])];
    let actions = plan_pending_resolution(&vec![AssetEventKind::Added], &clips, &gltfs, &vec![100]);
    assert_eq!(describe(&actions), vec![('r', 1, 100)]);
}

#[test]
fn abandons_when_animation_name_is_missing() {
    let clips = vec![waiting(2, 10, "Fly")];
    let gltfs = vec![gltf(10, &[("Run", 100)])];
    let actions = plan_pending_resolution(
        &vec![AssetEventKind::LoadedWithDependencies],
        &clips,
        &gltfs,
        &vec![100],
    );
    assert_eq!(describe(&actions), vec![('a', 2, 0)]);
}

#[test]
fn waits_while_gltf_not_loaded() {
    let clips = vec![waiting(3, 11, "Run")];
    let gltfs = vec![gltf(10, &[("Run", 100)])];
    let actions = plan_pending_resolution(&vec![AssetEventKind::Added], &clips, &gltfs, &vec![100]);
    assert!(actions.is_empty());
}

#[test]
fn waits_while_animation_clip_not_loaded() {
    let clips = vec![waiting(4, 10, "Run")];
    let gltfs = vec![gltf(10, &[("Run", 100)])];
    let actions = plan_pending_resolution(&vec![AssetEventKind::Added], &clips, &gltfs, &vec![7]);
    assert!(actions.is_empty());
}

#[test]
fn clips_that_do_not_wait_are_left_alone() {
    let clips = vec![ClipEntry { clip: 5, pending: None }];
    let gltfs = vec![gltf(10, &[("Run", 100)])];
    let actions = plan_pending_resolution(&vec![AssetEventKind::Added], &clips, &gltfs, &vec![100]);
    assert!(actions.is_empty());
}

#[test]
fn several_clips_keep_their_order() {
    let clips = vec![
        waiting(1, 10, "Run"),
        ClipEntry { clip: 2, pending: None },
        waiting(3, 20, "Missing"),
        waiting(4, 30, "Idle"),
        waiting(5, 10, "Walk"),
    ];
    let gltfs = vec![gltf(10, &[("Run", 100), ("Walk", 101)]), gltf(20, &[("Run", 200)])];
    let actions = plan_pending_resolution(
        &vec![AssetEventKind::Removed, AssetEventKind::Added],
        &clips,
        &gltfs,
        &vec![101, 100],
    );
    assert_eq!(describe(&actions), vec![('r', 1, 100), ('a', 3, 0), ('r', 5, 101)]);
}

#[test]
fn resolve_clip_single_cases() {
    let gltfs = vec![gltf(10, &[("Run", 100)])];
    assert_eq!(
        resolve_clip(&waiting(1, 10, "Run"), &gltfs, &vec![100]).map(|a| describe(&[a])),
        Some(vec![('r', 1, 100)])
    );
    assert!(resolve_clip(&waiting(1, 10, "Run"), &gltfs, &vec![]).is_none());
    assert_eq!(
        resolve_clip(&waiting(1, 10, "Jump"), &gltfs, &vec![]).map(|a| describe(&[a])),
        Some(vec![('a', 1, 0)])
    );
}

fn apply(clips: &[ClipEntry], actions: &[PendingAction]) -> Vec<ClipEntry> {
    clips
        .iter()
        .map(|c| {
            let targeted = actions.iter().any(|a| match a {
                PendingAction::Resolve { clip, .. } => *clip == c.clip,
                PendingAction::Abandon { clip } => *clip == c.clip,
            });
            if targeted {
                ClipEntry { clip: c.clip, pending: None }
            } else {
                ClipEntry {
                    clip: c.clip,
                    pending: c.pending.as_ref().map(|p| PendingGltfSource {
                        gltf_handle: p.gltf_handle,
                        animation_name: p.animation_name.clone(),
                    }),
                }
            }
        })
        .collect()
}

#[test]
fn second_resolution_run_plans_nothing() {
    let clips = vec![
        waiting(1, 10, "Run"),
        waiting(2, 10, "Missing"),
        waiting(3, 30, "Idle"),
        waiting(4, 10, "Walk"),
    ];
    let gltfs = vec![gltf(10, &[("Run", 100), ("Walk", 101)])];
    let loaded = vec![100];
    let events = vec![AssetEventKind::Added];
    let first = plan_pending_resolution(&events, &clips, &gltfs, &loaded);
    assert_eq!(describe(&first), vec![('r', 1, 100), ('a', 2, 0)]);
    let after = apply(&clips, &first);
    let second = plan_pending_resolution(&events, &after, &gltfs, &loaded);
    assert!(second.is_empty());
}

#[test]
fn event_kinds_that_signal_a_load() {
    assert!(AssetEventKind::Added.signals_gltf_load());
    assert!(AssetEventKind::LoadedWithDependencies.signals_gltf_load());
    assert!(!AssetEventKind::Modified.signals_gltf_load());
    assert!(!AssetEventKind::Removed.signals_gltf_load());
    assert!(!AssetEventKind::Unused.signals_gltf_load());
}
