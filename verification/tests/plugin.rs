use bevy_animation_graph_core::plugin::AnimationGraphSet;

#[test]
fn sets_are_chained_pre_physics_post_physics_final() {
    assert_eq!(
        AnimationGraphSet::chain(),
        [AnimationGraphSet::PrePhysics, AnimationGraphSet::PostPhysics, AnimationGraphSet::Final]
    );
}
