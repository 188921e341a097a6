//! Resolution of graph clips whose curves were deferred at load time.
//!
//! A clip loaded from a `GltfNamed` source records the glTF file it waits
//! for and the name of the animation inside it.  Whenever a glTF file has
//! newly finished loading, each waiting clip is looked at once more: if its
//! glTF file is loaded and names the animation, and that animation clip is
//! loaded too, the clip takes over the animation's curves and stops waiting;
//! if the glTF file is loaded but has no animation of that name, the clip
//! stops waiting (so that it is not retried for ever); otherwise it waits for
//! the next load.
//!
//! Assets are identified here by integer keys; the glTF files and animation
//! clips that are loaded are given as plain lists.
use crate::animation_clip::PendingGltfSource;
use vstd::prelude::*;

verus! {

/// The kind of an asset event about glTF files.
pub enum AssetEventKind {
    Added,
    Modified,
    Removed,
    Unused,
    LoadedWithDependencies,
}

impl AssetEventKind {
    /// Whether the event says that a glTF file has newly finished loading.
    pub open spec fn signals_load(self) -> bool {
        self is Added || self is LoadedWithDependencies
    }

    /// Whether the event says that a glTF file has newly finished loading:
    /// it was added, or loaded with all its dependencies.
    pub fn signals_gltf_load(&self) -> (r: bool)
        ensures
            r == self.signals_load(),
    {
        match self {
            AssetEventKind::Added => true,
            AssetEventKind::LoadedWithDependencies => true,
            _ => false,
        }
    }
}

/// Whether some event of the list says that a glTF file has finished loading.
pub open spec fn any_load_signalled(events: Seq<AssetEventKind>) -> bool {
    exists|i: int| 0 <= i < events.len() && #[trigger] events[i].signals_load()
}

/// A named animation of a loaded glTF file: its name and the key of its
/// animation clip.
pub struct NamedAnimation {
    pub name: String,
    pub clip: u64,
}

/// A loaded glTF file: its key and its named animations.
pub struct LoadedGltf {
    pub id: u64,
    pub named_animations: Vec<NamedAnimation>,
}

/// A graph clip: its key and, while it waits, the glTF source it waits for.
pub struct ClipEntry {
    pub clip: u64,
    pub pending: Option<PendingGltfSource<u64>>,
}

/// What is done to one graph clip.
pub enum PendingAction {
    /// The clip takes the curves and duration of animation clip `animation`
    /// and stops waiting.
    Resolve { clip: u64, animation: u64 },
    /// The glTF file has no animation of the awaited name: the clip stops
    /// waiting.
    Abandon { clip: u64 },
}

impl PendingAction {
    /// The graph clip that the action is about.
    pub open spec fn target(self) -> u64 {
        match self {
            PendingAction::Resolve { clip, .. } => clip,
            PendingAction::Abandon { clip } => clip,
        }
    }
}

/// The loaded glTF file with key `id` (the first one listed with it).
pub open spec fn find_gltf(gltfs: Seq<LoadedGltf>, id: u64) -> Option<LoadedGltf>
    decreases gltfs.len(),
{
    if gltfs.len() == 0 {
        None
    } else if gltfs[0].id == id {
        Some(gltfs[0])
    } else {
        find_gltf(gltfs.drop_first(), id)
    }
}

/// The animation clip that a glTF file lists under `name` (the first one).
pub open spec fn find_animation(named: Seq<NamedAnimation>, name: Seq<char>) -> Option<u64>
    decreases named.len(),
{
    if named.len() == 0 {
        None
    } else if named[0].name@ == name {
        Some(named[0].clip)
    } else {
        find_animation(named.drop_first(), name)
    }
}

/// What is done to one graph clip, given the loaded glTF files and the keys
/// of the loaded animation clips.
pub open spec fn action_for(clip: ClipEntry, gltfs: Seq<LoadedGltf>, loaded: Seq<u64>) -> Option<
    PendingAction,
> {
    match clip.pending {
        None => None,
        Some(pending) => match find_gltf(gltfs, pending.gltf_handle) {
            None => None,
            Some(gltf) => match find_animation(gltf.named_animations@, pending.animation_name@) {
                None => Some(PendingAction::Abandon { clip: clip.clip }),
                Some(animation) => if loaded.contains(animation) {
                    Some(PendingAction::Resolve { clip: clip.clip, animation })
                } else {
                    None
                },
            },
        },
    }
}

/// The actions for a list of graph clips, in the order of the list.
pub open spec fn planned_actions(
    clips: Seq<ClipEntry>,
    gltfs: Seq<LoadedGltf>,
    loaded: Seq<u64>,
) -> Seq<PendingAction>
    decreases clips.len(),
{
    if clips.len() == 0 {
        Seq::empty()
    } else {
        let before = planned_actions(clips.drop_last(), gltfs, loaded);
        match action_for(clips.last(), gltfs, loaded) {
            Some(action) => before.push(action),
            None => before,
        }
    }
}

/// Whether some event of the list says that a glTF file has finished
/// loading (it was added, or loaded with all its dependencies).
pub fn any_gltf_loaded(events: &Vec<AssetEventKind>) -> (r: bool)
    ensures
        r == any_load_signalled(events@),
{
    let mut i: usize = 0;
    while i < events.len()
        invariant
            i <= events@.len(),
            forall|j: int| 0 <= j < i ==> !(#[trigger] events@[j]).signals_load(),
        decreases events.len() - i,
    {
        if events[i].signals_gltf_load() {
            return true;
        }
        i = i + 1;
    }
    false
}

fn find_gltf_index(gltfs: &Vec<LoadedGltf>, id: u64) -> (r: Option<usize>)
    ensures
        r is None ==> find_gltf(gltfs@, id) is None,
        r matches Some(i) ==> i < gltfs@.len() && find_gltf(gltfs@, id) == Some(gltfs@[i as int]),
{
    let mut i: usize = 0;
    assert(gltfs@.skip(0) =~= gltfs@);
    while i < gltfs.len()
        invariant
            i <= gltfs@.len(),
            find_gltf(gltfs@, id) == find_gltf(gltfs@.skip(i as int), id),
        decreases gltfs.len() - i,
    {
        assert(gltfs@.skip(i as int)[0] == gltfs@[i as int]);
        if gltfs[i].id == id {
            return Some(i);
        }
        assert(gltfs@.skip(i as int).drop_first() =~= gltfs@.skip(i + 1));
        i = i + 1;
    }
    assert(gltfs@.skip(i as int) =~= Seq::<LoadedGltf>::empty());
    None
}

fn find_animation_clip(named: &Vec<NamedAnimation>, name: &String) -> (r: Option<u64>)
    ensures
        r == find_animation(named@, name@),
{
    let mut i: usize = 0;
    assert(named@.skip(0) =~= named@);
    while i < named.len()
        invariant
            i <= named@.len(),
            find_animation(named@, name@) == find_animation(named@.skip(i as int), name@),
        decreases named.len() - i,
    {
        assert(named@.skip(i as int)[0] == named@[i as int]);
        if named[i].name == *name {
            return Some(named[i].clip);
        }
        assert(named@.skip(i as int).drop_first() =~= named@.skip(i + 1));
        i = i + 1;
    }
    assert(named@.skip(i as int) =~= Seq::<NamedAnimation>::empty());
    None
}

fn is_loaded(loaded: &Vec<u64>, animation: u64) -> (r: bool)
    ensures
        r == loaded@.contains(animation),
{
    let mut i: usize = 0;
    while i < loaded.len()
        invariant
            i <= loaded@.len(),
            forall|j: int| 0 <= j < i ==> loaded@[j] != animation,
        decreases loaded.len() - i,
    {
        if loaded[i] == animation {
            assert(loaded@[i as int] == animation);
            return true;
        }
        i = i + 1;
    }
    false
}

/// What is done to one graph clip: nothing if it does not wait or its glTF
/// file is not loaded; `Abandon` if that file has no animation of the awaited
/// name; `Resolve` if it has and that animation clip is loaded; nothing if
/// the animation clip is not loaded yet.
pub fn resolve_clip(clip: &ClipEntry, gltfs: &Vec<LoadedGltf>, loaded_animations: &Vec<u64>) -> (r:
    Option<PendingAction>)
    ensures
        r == action_for(*clip, gltfs@, loaded_animations@),
{
    match &clip.pending {
        None => None,
        Some(pending) => match find_gltf_index(gltfs, pending.gltf_handle) {
            None => None,
            Some(g) => match find_animation_clip(&gltfs[g].named_animations, &pending.animation_name) {
                None => Some(PendingAction::Abandon { clip: clip.clip }),
                Some(animation) => {
                    if is_loaded(loaded_animations, animation) {
                        Some(PendingAction::Resolve { clip: clip.clip, animation })
                    } else {
                        None
                    }
                },
            },
        },
    }
}

/// The actions of one run of the resolution: none at all unless some event
/// says a glTF file has newly finished loading; otherwise the action of each
/// graph clip that gets one, in the order of `clips`.
pub fn plan_pending_resolution(
    events: &Vec<AssetEventKind>,
    clips: &Vec<ClipEntry>,
    gltfs: &Vec<LoadedGltf>,
    loaded_animations: &Vec<u64>,
) -> (r: Vec<PendingAction>)
    ensures
        r@ == (if any_load_signalled(events@) {
            planned_actions(clips@, gltfs@, loaded_animations@)
        } else {
            Seq::empty()
        }),
{
    let mut actions: Vec<PendingAction> = Vec::new();
    if !any_gltf_loaded(events) {
        return actions;
    }
    let mut i: usize = 0;
    while i < clips.len()
        invariant
            i <= clips@.len(),
            actions@ == planned_actions(clips@.take(i as int), gltfs@, loaded_animations@),
        decreases clips.len() - i,
    {
        assert(clips@.take(i + 1).drop_last() =~= clips@.take(i as int));
        assert(clips@.take(i + 1).last() == clips@[i as int]);
        match resolve_clip(&clips[i], gltfs, loaded_animations) {
            Some(action) => actions.push(action),
            None => {},
        }
        i = i + 1;
    }
    assert(clips@.take(clips@.len() as int) =~= clips@);
    actions
}

/// Every planned action is about a clip of the list that waits for a glTF
/// file that is loaded; a `Resolve` names an animation clip that is loaded
/// and that the glTF file lists under the awaited name; an `Abandon` is for a
/// clip whose loaded glTF file has no animation of that name; and there are
/// never more actions than clips.
pub proof fn lemma_planned_actions(
    clips: Seq<ClipEntry>,
    gltfs: Seq<LoadedGltf>,
    loaded: Seq<u64>,
    k: int,
)
    requires
        0 <= k < planned_actions(clips, gltfs, loaded).len(),
    ensures
        planned_actions(clips, gltfs, loaded).len() <= clips.len(),
        exists|j: int|
            0 <= j < clips.len() && #[trigger] action_for(clips[j], gltfs, loaded) == Some(
                planned_actions(clips, gltfs, loaded)[k],
            ) && planned_actions(clips, gltfs, loaded)[k].target() == clips[j].clip,
    decreases clips.len(),
{
    lemma_planned_len(clips, gltfs, loaded);
    let before = planned_actions(clips.drop_last(), gltfs, loaded);
    let n = clips.len() - 1;
    if k < before.len() {
        lemma_planned_actions(clips.drop_last(), gltfs, loaded, k);
        let j = choose|j: int|
            0 <= j < clips.drop_last().len() && #[trigger] action_for(
                clips.drop_last()[j],
                gltfs,
                loaded,
            ) == Some(before[k]) && before[k].target() == clips.drop_last()[j].clip;
        assert(clips.drop_last()[j] == clips[j]);
        assert(action_for(clips[j], gltfs, loaded) == Some(
            planned_actions(clips, gltfs, loaded)[k],
        ));
    } else {
        assert(action_for(clips[n], gltfs, loaded) == Some(
            planned_actions(clips, gltfs, loaded)[k],
        ));
    }
}

/// There are never more planned actions than clips.
pub proof fn lemma_planned_len(clips: Seq<ClipEntry>, gltfs: Seq<LoadedGltf>, loaded: Seq<u64>)
    ensures
        planned_actions(clips, gltfs, loaded).len() <= clips.len(),
    decreases clips.len(),
{
    if clips.len() > 0 {
        lemma_planned_len(clips.drop_last(), gltfs, loaded);
    }
}

/// What an action says about its clip: a `Resolve` names a loaded animation
/// clip that the clip's loaded glTF file lists under the awaited name; an
/// `Abandon` means the clip's glTF file is loaded and lists no animation of
/// that name.  A clip that does not wait, or whose glTF file is not loaded,
/// gets no action.
pub proof fn lemma_action_meaning(clip: ClipEntry, gltfs: Seq<LoadedGltf>, loaded: Seq<u64>)
    ensures
        clip.pending is None ==> action_for(clip, gltfs, loaded) is None,
        clip.pending matches Some(p) && find_gltf(gltfs, p.gltf_handle) is None ==> action_for(
            clip,
            gltfs,
            loaded,
        ) is None,
        action_for(clip, gltfs, loaded) matches Some(PendingAction::Resolve { clip: c, animation }) ==> {
            &&& c == clip.clip
            &&& loaded.contains(animation)
            &&& clip.pending matches Some(p) && find_gltf(gltfs, p.gltf_handle) matches Some(g)
                && find_animation(g.named_animations@, p.animation_name@) == Some(animation)
        },
        action_for(clip, gltfs, loaded) matches Some(PendingAction::Abandon { clip: c }) ==> {
            &&& c == clip.clip
            &&& clip.pending matches Some(p) && find_gltf(gltfs, p.gltf_handle) matches Some(g)
                && find_animation(g.named_animations@, p.animation_name@) is None
        },
{
}

/// Whether some action of the list is about graph clip `clip`.
pub open spec fn is_targeted(actions: Seq<PendingAction>, clip: u64) -> bool {
    exists|i: int| 0 <= i < actions.len() && #[trigger] actions[i].target() == clip
}

/// The graph clips after a plan is applied: every clip that an action is
/// about stops waiting (a resolved clip has taken its curves, an abandoned
/// one gives up); every other clip is left as it was.
pub open spec fn applied(clips: Seq<ClipEntry>, actions: Seq<PendingAction>) -> Seq<ClipEntry> {
    clips.map_values(
        |c: ClipEntry|
            if is_targeted(actions, c.clip) {
                ClipEntry { clip: c.clip, pending: None }
            } else {
                c
            },
    )
}

/// A list of clips none of which gets an action plans nothing.
proof fn lemma_no_action_plans_nothing(
    clips: Seq<ClipEntry>,
    gltfs: Seq<LoadedGltf>,
    loaded: Seq<u64>,
)
    requires
        forall|j: int| 0 <= j < clips.len() ==> (#[trigger] action_for(clips[j], gltfs, loaded)) is None,
    ensures
        planned_actions(clips, gltfs, loaded) == Seq::<PendingAction>::empty(),
    decreases clips.len(),
{
    if clips.len() > 0 {
        assert forall|j: int| 0 <= j < clips.drop_last().len() implies (#[trigger] action_for(
            clips.drop_last()[j],
            gltfs,
            loaded,
        )) is None by {
            assert(clips.drop_last()[j] == clips[j]);
        }
        lemma_no_action_plans_nothing(clips.drop_last(), gltfs, loaded);
        assert(action_for(clips[clips.len() - 1], gltfs, loaded) is None);
    }
}

/// The action of every clip that gets one is in the plan.
proof fn lemma_action_is_planned(
    clips: Seq<ClipEntry>,
    gltfs: Seq<LoadedGltf>,
    loaded: Seq<u64>,
    j: int,
)
    requires
        0 <= j < clips.len(),
        action_for(clips[j], gltfs, loaded) is Some,
    ensures
        planned_actions(clips, gltfs, loaded).contains(action_for(clips[j], gltfs, loaded)->0),
    decreases clips.len(),
{
    let before = planned_actions(clips.drop_last(), gltfs, loaded);
    let a = action_for(clips[j], gltfs, loaded)->0;
    if j == clips.len() - 1 {
        assert(planned_actions(clips, gltfs, loaded) == before.push(a));
        assert(planned_actions(clips, gltfs, loaded)[before.len() as int] == a);
    } else {
        assert(clips.drop_last()[j] == clips[j]);
        lemma_action_is_planned(clips.drop_last(), gltfs, loaded, j);
        let k = choose|k: int| 0 <= k < before.len() && before[k] == a;
        match action_for(clips.last(), gltfs, loaded) {
            Some(b) => {
                assert(planned_actions(clips, gltfs, loaded)[k] == a);
            },
            None => {
                assert(planned_actions(clips, gltfs, loaded)[k] == a);
            },
        }
    }
}

/// Resolution is idempotent: once a plan has been applied, planning again
/// with the same loaded glTF files and animation clips plans nothing, so a
/// second run (whatever its events) leaves every clip as the first left it.
pub proof fn lemma_resolution_idempotent(
    clips: Seq<ClipEntry>,
    gltfs: Seq<LoadedGltf>,
    loaded: Seq<u64>,
)
    ensures
        planned_actions(applied(clips, planned_actions(clips, gltfs, loaded)), gltfs, loaded)
            == Seq::<PendingAction>::empty(),
{
    let plan = planned_actions(clips, gltfs, loaded);
    let after = applied(clips, plan);
    assert forall|j: int| 0 <= j < after.len() implies (#[trigger] action_for(
        after[j],
        gltfs,
        loaded,
    )) is None by {
        if !is_targeted(plan, clips[j].clip) {
            if action_for(clips[j], gltfs, loaded) is Some {
                lemma_action_is_planned(clips, gltfs, loaded, j);
                let a = action_for(clips[j], gltfs, loaded)->0;
                let k = choose|k: int| 0 <= k < plan.len() && plan[k] == a;
                assert(plan[k].target() == clips[j].clip);
            }
        }
    }
    lemma_no_action_plans_nothing(after, gltfs, loaded);
}

/// A load is signalled exactly when some event of the list is an `Added` or
/// a `LoadedWithDependencies` event, wherever it stands; so one more event of
/// any kind never takes a signalled load away, and an `Added` or
/// `LoadedWithDependencies` event always brings one.
pub proof fn lemma_load_signal(events: Seq<AssetEventKind>, more: AssetEventKind)
    ensures
        any_load_signalled(events) <==> exists|i: int|
            0 <= i < events.len() && (#[trigger] events[i] is Added || events[i] is LoadedWithDependencies),
        any_load_signalled(events) ==> any_load_signalled(events.push(more)),
        (more is Added || more is LoadedWithDependencies) ==> any_load_signalled(events.push(more)),
        any_load_signalled(events.push(more)) ==> (any_load_signalled(events) || more is Added
            || more is LoadedWithDependencies),
{
    let pushed = events.push(more);
    if any_load_signalled(events) {
        let i = choose|i: int| 0 <= i < events.len() && #[trigger] events[i].signals_load();
        assert(events[i] is Added || events[i] is LoadedWithDependencies);
    }
    if exists|i: int|
        0 <= i < events.len() && (#[trigger] events[i] is Added || events[i] is LoadedWithDependencies) {
        let i = choose|i: int|
            0 <= i < events.len() && (#[trigger] events[i] is Added || events[i] is LoadedWithDependencies);
        assert(events[i].signals_load());
    }
    if any_load_signalled(events) {
        let i = choose|i: int| 0 <= i < events.len() && #[trigger] events[i].signals_load();
        assert(pushed[i] == events[i]);
        assert(pushed[i].signals_load());
    }
    if more is Added || more is LoadedWithDependencies {
        assert(pushed[events.len() as int] == more);
        assert(pushed[events.len() as int].signals_load());
    }
    if any_load_signalled(pushed) {
        let i = choose|i: int| 0 <= i < pushed.len() && #[trigger] pushed[i].signals_load();
        if i < events.len() {
            assert(pushed[i] == events[i]);
            assert(events[i].signals_load());
        }
    }
}

/// The glTF file found under key `id` is a listed file with exactly that
/// key, the first one listed with it; none is found exactly when no listed
/// file has that key.
pub proof fn lemma_find_gltf(gltfs: Seq<LoadedGltf>, id: u64)
    ensures
        find_gltf(gltfs, id) is None <==> (forall|i: int| 0 <= i < gltfs.len() ==> #[trigger] gltfs[i].id != id),
        find_gltf(gltfs, id) matches Some(g) ==> exists|i: int|
            0 <= i < gltfs.len() && #[trigger] gltfs[i] == g && g.id == id && (forall|j: int|
                0 <= j < i ==> #[trigger] gltfs[j].id != id),
    decreases gltfs.len(),
{
    if gltfs.len() > 0 {
        let rest = gltfs.drop_first();
        lemma_find_gltf(rest, id);
        if gltfs[0].id == id {
            assert(gltfs[0] == find_gltf(gltfs, id)->0);
        } else {
            assert forall|i: int| 0 <= i < rest.len() implies rest[i] == gltfs[i + 1] by {}
            if find_gltf(rest, id) is None {
                assert forall|i: int| 0 <= i < gltfs.len() implies #[trigger] gltfs[i].id != id by {
                    if i > 0 {
                        assert(rest[i - 1] == gltfs[i]);
                    }
                }
            } else {
                let g = find_gltf(rest, id)->0;
                let i = choose|i: int|
                    0 <= i < rest.len() && #[trigger] rest[i] == g && g.id == id && (forall|j: int|
                        0 <= j < i ==> #[trigger] rest[j].id != id);
                assert(gltfs[i + 1] == g);
                assert forall|j: int| 0 <= j < i + 1 implies #[trigger] gltfs[j].id != id by {
                    if j > 0 {
                        assert(rest[j - 1] == gltfs[j]);
                    }
                }
                assert(rest[i].id == id);
            }
        }
    }
}

/// The animation clip found under `name` is the clip of a listed named
/// animation whose name is exactly `name`, the first one listed with it; none
/// is found exactly when no listed animation has exactly that name.
pub proof fn lemma_find_animation(named: Seq<NamedAnimation>, name: Seq<char>)
    ensures
        find_animation(named, name) is None <==> (forall|i: int|
            0 <= i < named.len() ==> #[trigger] named[i].name@ != name),
        find_animation(named, name) matches Some(c) ==> exists|i: int|
            0 <= i < named.len() && #[trigger] named[i].name@ == name && named[i].clip == c && (
            forall|j: int| 0 <= j < i ==> #[trigger] named[j].name@ != name),
    decreases named.len(),
{
    if named.len() > 0 {
        let rest = named.drop_first();
        lemma_find_animation(rest, name);
        if named[0].name@ != name {
            assert forall|i: int| 0 <= i < rest.len() implies rest[i] == named[i + 1] by {}
            if find_animation(rest, name) is None {
                assert forall|i: int| 0 <= i < named.len() implies #[trigger] named[i].name@ != name by {
                    if i > 0 {
                        assert(rest[i - 1] == named[i]);
                    }
                }
            } else {
                let c = find_animation(rest, name)->0;
                let i = choose|i: int|
                    0 <= i < rest.len() && #[trigger] rest[i].name@ == name && rest[i].clip == c && (
                    forall|j: int| 0 <= j < i ==> #[trigger] rest[j].name@ != name);
                assert(named[i + 1] == rest[i]);
                assert(named[i + 1].name@ == name);
                assert forall|j: int| 0 <= j < i + 1 implies #[trigger] named[j].name@ != name by {
                    if j > 0 {
                        assert(rest[j - 1] == named[j]);
                    }
                }
            }
        }
    }
}

/// What is done to a clip, in terms of the inputs: a clip that waits for
/// glTF key `k` and animation name `n` gets no action while no listed glTF
/// file has key `k`; once one has (the first listed with it, `g`), it is
/// abandoned when `g` lists no animation named exactly `n`; otherwise, with
/// `a` the clip of the first animation that `g` lists under `n`, it is
/// resolved to `a` when `a` is loaded and gets no action while it is not.
pub proof fn lemma_action_from_inputs(clip: ClipEntry, gltfs: Seq<LoadedGltf>, loaded: Seq<u64>)
    ensures
        clip.pending is None ==> action_for(clip, gltfs, loaded) is None,
        clip.pending matches Some(p) ==> {
            &&& (forall|i: int| 0 <= i < gltfs.len() ==> #[trigger] gltfs[i].id != p.gltf_handle)
                ==> action_for(clip, gltfs, loaded) is None
            &&& forall|i: int|
                0 <= i < gltfs.len() && #[trigger] gltfs[i].id == p.gltf_handle && (forall|j: int|
                    0 <= j < i ==> #[trigger] gltfs[j].id != p.gltf_handle) ==> {
                    let g = gltfs[i];
                    &&& (forall|m: int|
                        0 <= m < g.named_animations@.len()
                            ==> #[trigger] g.named_animations@[m].name@ != p.animation_name@)
                        ==> action_for(clip, gltfs, loaded) == Some(
                        PendingAction::Abandon { clip: clip.clip },
                    )
                    &&& forall|m: int|
                        0 <= m < g.named_animations@.len() && #[trigger] g.named_animations@[m].name@
                            == p.animation_name@ && (forall|q: int|
                            0 <= q < m ==> #[trigger] g.named_animations@[q].name@
                                != p.animation_name@) ==> action_for(clip, gltfs, loaded) == (if loaded.contains(
                            g.named_animations@[m].clip,
                        ) {
                            Some(
                                PendingAction::Resolve {
                                    clip: clip.clip,
                                    animation: g.named_animations@[m].clip,
                                },
                            )
                        } else {
                            None
                        })
                }
        },
{
    if clip.pending is Some {
        let p = clip.pending->0;
        lemma_find_gltf(gltfs, p.gltf_handle);
        assert forall|i: int|
            0 <= i < gltfs.len() && #[trigger] gltfs[i].id == p.gltf_handle && (forall|j: int|
                0 <= j < i ==> #[trigger] gltfs[j].id != p.gltf_handle) implies find_gltf(
            gltfs,
            p.gltf_handle,
        ) == Some(gltfs[i]) by {
            let g = find_gltf(gltfs, p.gltf_handle)->0;
            let i2 = choose|i2: int|
                0 <= i2 < gltfs.len() && #[trigger] gltfs[i2] == g && g.id == p.gltf_handle && (
                forall|j: int| 0 <= j < i2 ==> #[trigger] gltfs[j].id != p.gltf_handle);
            if i2 < i {
                assert(gltfs[i2].id != p.gltf_handle);
            } else if i < i2 {
                assert(gltfs[i].id != p.gltf_handle);
            }
        }
        assert forall|i: int|
            0 <= i < gltfs.len() && #[trigger] gltfs[i].id == p.gltf_handle && (forall|j: int|
                0 <= j < i ==> #[trigger] gltfs[j].id != p.gltf_handle) implies {
            let g = gltfs[i];
            forall|m: int|
                0 <= m < g.named_animations@.len() && #[trigger] g.named_animations@[m].name@
                    == p.animation_name@ && (forall|q: int|
                    0 <= q < m ==> #[trigger] g.named_animations@[q].name@ != p.animation_name@)
                    ==> find_animation(g.named_animations@, p.animation_name@) == Some(
                    g.named_animations@[m].clip,
                )
        } by {
            let g = gltfs[i];
            let named = g.named_animations@;
            lemma_find_animation(named, p.animation_name@);
            assert forall|m: int|
                0 <= m < named.len() && #[trigger] named[m].name@ == p.animation_name@ && (forall|
                    q: int,
                | 0 <= q < m ==> #[trigger] named[q].name@ != p.animation_name@) implies find_animation(
                named,
                p.animation_name@,
            ) == Some(named[m].clip) by {
                let c = find_animation(named, p.animation_name@)->0;
                let m2 = choose|m2: int|
                    0 <= m2 < named.len() && #[trigger] named[m2].name@ == p.animation_name@
                        && named[m2].clip == c && (forall|q: int|
                        0 <= q < m2 ==> #[trigger] named[q].name@ != p.animation_name@);
                if m2 < m {
                    assert(named[m2].name@ != p.animation_name@);
                } else if m < m2 {
                    assert(named[m].name@ != p.animation_name@);
                }
            }
        }
        assert forall|i: int|
            0 <= i < gltfs.len() && #[trigger] gltfs[i].id == p.gltf_handle && (forall|j: int|
                0 <= j < i ==> #[trigger] gltfs[j].id != p.gltf_handle) implies ((forall|m: int|
            0 <= m < gltfs[i].named_animations@.len() ==> #[trigger] gltfs[i].named_animations@[m].name@
                != p.animation_name@) ==> find_animation(
            gltfs[i].named_animations@,
            p.animation_name@,
        ) is None) by {
            lemma_find_animation(gltfs[i].named_animations@, p.animation_name@);
        }
    }
}

} // verus!
