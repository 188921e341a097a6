//! The graph clip asset format (`*.anim.ron`) and the decisions its loader
//! makes: which assets a clip depends on, what a freshly loaded clip records
//! about the glTF animation it still waits for, and when a clip can be
//! written back into the serial format.
//!
//! Asset paths are held as the strings they are written with; the handles
//! that the asset server hands out for them are opaque type parameters here.
use vstd::prelude::*;

verus! {

/// Where a graph clip takes its curves from.
#[derive(Debug)]
pub enum GraphClipSource {
    /// The animation called `animation_name` inside the glTF file at `path`.
    GltfNamed { path: String, animation_name: String },
}

impl Clone for GraphClipSource {
    fn clone(&self) -> (r: Self)
        ensures
            r == *self,
    {
        match self {
            GraphClipSource::GltfNamed { path, animation_name } => GraphClipSource::GltfNamed {
                path: path.clone(),
                animation_name: animation_name.clone(),
            },
        }
    }
}

impl GraphClipSource {
    /// The glTF file that the source reads.
    pub open spec fn gltf_path(self) -> String {
        match self {
            GraphClipSource::GltfNamed { path, .. } => path,
        }
    }

    /// The animation that the source names inside its glTF file.
    pub open spec fn animation_name(self) -> String {
        match self {
            GraphClipSource::GltfNamed { animation_name, .. } => animation_name,
        }
    }
}

/// The serial form of a graph clip: its source, the path of its skeleton and
/// its event tracks (carried through untouched, of whatever type they are).
#[derive(Clone)]
pub struct GraphClipSerial<Tracks> {
    pub source: GraphClipSource,
    pub skeleton: String,
    pub event_tracks: Tracks,
}

/// A clip whose curves are still to be read from a glTF file: the handle of
/// that file and the name of the animation inside it.
#[derive(Clone, Debug)]
pub struct PendingGltfSource<Handle> {
    pub gltf_handle: Handle,
    pub animation_name: String,
}

/// What the loader of a clip asks the asset server for, and what the loaded
/// clip records about its source.
pub struct GraphClipLoadPlan {
    /// The skeleton to load (asked for first).
    pub skeleton_path: String,
    /// The glTF file to load as a deferred dependency (asked for second).
    pub gltf_path: String,
    /// The source the loaded clip keeps.
    pub source: GraphClipSource,
    /// The animation name the loaded clip waits for.
    pub pending_animation_name: String,
}

/// The parts of a loaded graph clip that writing it back to the serial form
/// reads: its source, if it has one, and the path of its skeleton, if the
/// skeleton's handle has one.
pub struct GraphClipParts<Tracks> {
    pub source: Option<GraphClipSource>,
    pub skeleton_path: Option<String>,
    pub event_tracks: Tracks,
}

/// `plan` is what loading `serial` does: the skeleton of the clip is asked
/// for, then the glTF file of its source; the source is kept; the animation
/// named by the source is the one the loaded clip waits for.
pub open spec fn is_load_plan<Tracks>(serial: GraphClipSerial<Tracks>, plan: GraphClipLoadPlan) -> bool {
    &&& plan.skeleton_path == serial.skeleton
    &&& plan.gltf_path == serial.source.gltf_path()
    &&& plan.source == serial.source
    &&& plan.pending_animation_name == serial.source.animation_name()
}

/// `r` is the serial form written back from `clip`: it fails exactly when
/// the clip has no source or its skeleton has no path; otherwise it holds
/// the source, the skeleton path passed through `normalize`, and the event
/// tracks.
pub open spec fn is_write_back<Tracks, F: Fn(String) -> String>(
    clip: GraphClipParts<Tracks>,
    normalize: F,
    r: Result<GraphClipSerial<Tracks>, ()>,
) -> bool {
    &&& r is Err <==> (clip.source is None || clip.skeleton_path is None)
    &&& r matches Ok(s) ==> {
        &&& clip.source == Some(s.source)
        &&& normalize.ensures((clip.skeleton_path->0,), s.skeleton)
        &&& s.event_tracks == clip.event_tracks
    }
}

/// The parts of a clip loaded by `plan` with event tracks `tracks`: its kept
/// source and the path its skeleton was loaded from.  Resolving the clip's
/// curves later changes none of these.
pub open spec fn loaded_clip_parts<Tracks>(plan: GraphClipLoadPlan, tracks: Tracks) -> GraphClipParts<
    Tracks,
> {
    GraphClipParts {
        source: Some(plan.source),
        skeleton_path: Some(plan.skeleton_path),
        event_tracks: tracks,
    }
}

/// Loading a serial clip and writing the loaded clip back gives back its
/// source, its skeleton path passed through the normalisation, and its
/// event tracks.
pub proof fn lemma_load_then_write_back<Tracks, F: Fn(String) -> String>(
    serial: GraphClipSerial<Tracks>,
    plan: GraphClipLoadPlan,
    normalize: F,
    r: Result<GraphClipSerial<Tracks>, ()>,
)
    requires
        is_load_plan(serial, plan),
        is_write_back(loaded_clip_parts(plan, serial.event_tracks), normalize, r),
    ensures
        r matches Ok(s) && s.source == serial.source && normalize.ensures(
            (serial.skeleton,),
            s.skeleton,
        ) && s.event_tracks == serial.event_tracks,
{
}

/// Loads graph clips from `*.anim.ron` files.
pub struct GraphClipLoader;

impl Default for GraphClipLoader {
    fn default() -> (r: Self)
        ensures
            r == GraphClipLoader,
    {
        GraphClipLoader
    }
}

/// The file extensions that the loader claims.
pub open spec fn loader_extensions() -> Seq<Seq<char>> {
    seq!["anim.ron"@]
}

impl GraphClipLoader {
    /// The file extensions that the loader claims: exactly `anim.ron`.
    pub fn extensions(&self) -> (r: &'static [&'static str])
        ensures
            r@.len() == loader_extensions().len(),
            forall|i: int| 0 <= i < r@.len() ==> #[trigger] r@[i]@ == loader_extensions()[i],
    {
        proof {
            reveal_strlit("anim.ron");
        }
        let r: &'static [&'static str] = &["anim.ron"];
        r
    }

    /// What loading a parsed clip does: it asks for the skeleton, then for
    /// the glTF file named by the source, keeps the source, and records the
    /// named animation as the one the clip waits for.  The loaded clip starts
    /// with no curves and a zero duration until that animation is resolved.
    pub fn load_plan<Tracks>(&self, serial: &GraphClipSerial<Tracks>) -> (r: GraphClipLoadPlan)
        ensures
            is_load_plan(*serial, r),
    {
        let skeleton_path = serial.skeleton.clone();
        match &serial.source {
            GraphClipSource::GltfNamed { path, animation_name } => GraphClipLoadPlan {
                skeleton_path,
                gltf_path: path.clone(),
                source: serial.source.clone(),
                pending_animation_name: animation_name.clone(),
            },
        }
    }

    /// The pending source that a loaded clip records, given the handle the
    /// asset server returned for the glTF file of the plan.
    pub fn pending_source<Handle>(plan: &GraphClipLoadPlan, gltf_handle: Handle) -> (r:
        PendingGltfSource<Handle>)
        ensures
            r.gltf_handle == gltf_handle,
            r.animation_name == plan.pending_animation_name,
    {
        PendingGltfSource { gltf_handle, animation_name: plan.pending_animation_name.clone() }
    }
}

impl<Tracks> GraphClipSerial<Tracks> {
    /// Writes a loaded clip back to its serial form.  This fails, with `()`,
    /// exactly when the clip has no source or its skeleton has no path; the
    /// skeleton path is passed through `normalize` (the project's asset path
    /// normalisation) and the event tracks are kept as given.
    pub fn try_from_parts<F: Fn(String) -> String>(clip: GraphClipParts<Tracks>, normalize: F) -> (r:
        Result<Self, ()>)
        requires
            forall|p: String| #[trigger] normalize.requires((p,)),
        ensures
            is_write_back(clip, normalize, r),
    {
        let GraphClipParts { source, skeleton_path, event_tracks } = clip;
        let source = match source {
            Some(s) => s,
            None => {
                return Err(());
            },
        };
        let path = match skeleton_path {
            Some(p) => p,
            None => {
                return Err(());
            },
        };
        let skeleton = normalize(path);
        Ok(GraphClipSerial { source, skeleton, event_tracks })
    }
}

} // verus!
