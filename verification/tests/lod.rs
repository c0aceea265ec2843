use veldera::lod::culling::{cull_mesh, CullOutcome, MeshVisibility};
use veldera::lod::model::{BulkMetadata, FrameView, NodeMetadata, NodeVerdict};
use veldera::lod::physics::{physics_bfs_traversal, PhysicsBfsResult};
use veldera::lod::render::{bfs_traversal, BfsResult};
use veldera::lod::requests::{update_lod_requests, LodActions, LodScratch};
use veldera::lod::retention::unload_obsolete;
use veldera::lod::snapshot::{LodSnapshot, LodSnapshotRequest, SnapshotNodeState};
use veldera::lod::state::LodState;
use veldera::lod::tuning::{
    effective_distance, is_forced_visible, is_low_altitude, LodTuning,
};
use veldera::path_map::{PathMap, PathSet};

type State = LodState<u32, &'static str>;

fn meta(path: &str, obb: u32) -> NodeMetadata<u32> {
    NodeMetadata {
        path: path.to_string(),
        epoch: 7,
        texture_format: 6,
        imagery_epoch: None,
        has_data: true,
        obb,
    }
}

fn bulk(nodes: Vec<NodeMetadata<u32>>, children: &[(&str, u32)]) -> BulkMetadata<u32> {
    let mut child_bulk_paths = PathMap::new();
    for (path, epoch) in children {
        child_bulk_paths.insert(path.to_string(), *epoch);
    }
    BulkMetadata { nodes, child_bulk_paths }
}

const SEEN: NodeVerdict =
    NodeVerdict { in_frustum: true, nearby: false, refine: true, physics_depth: None };

fn view(verdicts: Vec<NodeVerdict>) -> FrameView {
    let mut map = PathMap::new();
    map.insert(String::new(), verdicts);
    FrameView { low_altitude: false, verdicts: map }
}

fn paths(set: &PathSet) -> Vec<String> {
    let mut list: Vec<String> = (0..set.len()).map(|i| set.key_at(i).clone()).collect();
    list.sort();
    list
}

fn set(list: &[&str]) -> PathSet {
    let mut set = PathSet::new();
    for path in list {
        set.insert(path.to_string());
    }
    set
}

/// The root bulk with the nodes 0, 01, 3 and a chain down to the bulk below 0000.
fn rooted() -> State {
    let mut state = State::new();
    state.cache_root_bulk(bulk(
        vec![meta("0", 10), meta("01", 11), meta("3", 12), meta("00", 13), meta("000", 14), meta("0000", 15)],
        &[("0000", 99)],
    ));
    state
}

#[test]
fn the_render_walk_goes_level_by_level() {
    let state = rooted();
    let mut result = BfsResult::new();
    bfs_traversal(&state, &view(vec![SEEN; 6]), &mut result);
    let order: Vec<&str> = result.nodes_to_load.iter().map(|n| n.path.as_str()).collect();
    assert_eq!(order, ["0", "3", "00", "01", "000", "0000"]);
    assert_eq!(result.bulks_to_load, vec![("0000".to_string(), 99)]);
    assert_eq!(paths(&result.potential_bulks), ["", "0000"]);
    let found: Vec<u32> = result.discovered_obbs.iter().map(|o| o.1).collect();
    assert_eq!(found, [10, 12, 13, 11, 14, 15]);
}

#[test]
fn coarse_enough_nodes_are_met_but_not_loaded() {
    let state = rooted();
    let mut result = BfsResult::new();
    let fine = NodeVerdict { refine: false, ..SEEN };
    bfs_traversal(&state, &view(vec![fine, SEEN, SEEN, SEEN, SEEN, SEEN]), &mut result);
    assert_eq!(paths(&result.potential_nodes), ["3"]);
    let met: Vec<&str> = result.discovered_obbs.iter().map(|o| o.0.as_str()).collect();
    assert_eq!(met, ["0", "3"]);
}

#[test]
fn nearby_nodes_are_kept_at_low_altitude() {
    let state = rooted();
    let behind = NodeVerdict { in_frustum: false, nearby: true, ..SEEN };
    let mut seen = view(vec![behind; 6]);
    let mut result = BfsResult::new();
    bfs_traversal(&state, &seen, &mut result);
    assert_eq!(result.nodes_to_load.len(), 0);
    seen.low_altitude = true;
    bfs_traversal(&state, &seen, &mut result);
    assert_eq!(result.nodes_to_load.len(), 6);
}

#[test]
fn loaded_and_loading_nodes_are_not_asked_for() {
    let mut state = rooted();
    state.loaded_nodes.insert("0".to_string());
    state.loading_nodes.insert("3".to_string());
    state.failed_bulks.insert("0000".to_string());
    let mut result = BfsResult::new();
    bfs_traversal(&state, &view(vec![SEEN; 6]), &mut result);
    let order: Vec<&str> = result.nodes_to_load.iter().map(|n| n.path.as_str()).collect();
    assert_eq!(order, ["00", "01", "000", "0000"]);
    assert_eq!(result.bulks_to_load, vec![]);
    assert_eq!(result.potential_nodes.len(), 6);
}

fn at_depth(depth: Option<usize>) -> NodeVerdict {
    NodeVerdict { in_frustum: false, nearby: false, refine: false, physics_depth: depth }
}

#[test]
fn colliders_sit_at_the_depth_that_physics_wants() {
    let mut state = rooted();
    state.node_data.insert("01".to_string(), "mesh");
    state.node_data.insert("0".to_string(), "mesh");
    let mut result = PhysicsBfsResult::new();
    let verdicts = vec![
        at_depth(Some(2)),
        at_depth(Some(2)),
        at_depth(None),
        at_depth(None),
        at_depth(None),
        at_depth(None),
    ];
    physics_bfs_traversal(&state, &view(verdicts), &mut result);
    assert_eq!(paths(&result.collider_paths), ["01"]);
}

#[test]
fn missing_data_falls_back_to_the_nearest_ancestor() {
    let mut state = rooted();
    state.node_data.insert("0".to_string(), "mesh");
    let mut result = PhysicsBfsResult::new();
    let verdicts = vec![
        at_depth(Some(2)),
        at_depth(Some(2)),
        at_depth(None),
        at_depth(None),
        at_depth(None),
        at_depth(None),
    ];
    physics_bfs_traversal(&state, &view(verdicts), &mut result);
    assert_eq!(paths(&result.collider_paths), ["0"]);
    assert!(result.nodes_to_load.iter().any(|n| n.path == "01"));
}

#[test]
fn without_data_there_is_no_collider() {
    let state = rooted();
    let mut result = PhysicsBfsResult::new();
    physics_bfs_traversal(&state, &view(vec![at_depth(Some(2)); 6]), &mut result);
    assert_eq!(result.collider_paths.len(), 0);
    assert!(result.potential_nodes.len() > 0);
}

#[test]
fn a_fallback_covers_the_finer_collider_below_it() {
    let mut state = rooted();
    state.node_data.insert("0".to_string(), "mesh");
    state.node_data.insert("00".to_string(), "mesh");
    let mut result = PhysicsBfsResult::new();
    let verdicts = vec![
        at_depth(Some(2)),
        at_depth(Some(2)),
        at_depth(None),
        at_depth(Some(2)),
        at_depth(None),
        at_depth(None),
    ];
    physics_bfs_traversal(&state, &view(verdicts), &mut result);
    assert_eq!(paths(&result.collider_paths), ["0"]);
    state.node_data.insert("01".to_string(), "mesh");
    let verdicts = vec![
        at_depth(Some(2)),
        at_depth(Some(2)),
        at_depth(None),
        at_depth(Some(2)),
        at_depth(None),
        at_depth(None),
    ];
    physics_bfs_traversal(&state, &view(verdicts), &mut result);
    assert_eq!(paths(&result.collider_paths), ["00", "01"]);
}

fn update(state: &mut State, seen: &FrameView, now: u64) -> LodActions {
    let mut scratch = LodScratch::new();
    let mut request = LodSnapshotRequest { wanted: false };
    let mut snapshot = LodSnapshot::new();
    update_lod_requests(state, &mut scratch, seen, now, 10, 21, &mut request, &mut snapshot)
}

#[test]
fn an_update_uses_up_the_lists_of_what_to_load() {
    let mut state = rooted();
    let mut scratch = LodScratch::new();
    let mut request = LodSnapshotRequest { wanted: false };
    let mut snapshot = LodSnapshot::new();
    let seen = view(vec![NodeVerdict { physics_depth: Some(2), ..SEEN }; 6]);
    let actions =
        update_lod_requests(&mut state, &mut scratch, &seen, 0, 10, 21, &mut request, &mut snapshot);
    assert!(!actions.node_requests.is_empty() && !actions.bulk_requests.is_empty());
    assert!(scratch.render_result.nodes_to_load.is_empty());
    assert!(scratch.render_result.bulks_to_load.is_empty());
    assert!(scratch.physics_result.nodes_to_load.is_empty());
    assert!(scratch.physics_result.bulks_to_load.is_empty());
    assert!(scratch.render_result.potential_nodes.len() > 0);
    assert!(scratch.physics_result.potential_nodes.len() > 0);
}

#[test]
fn each_node_is_asked_for_once() {
    let mut state = rooted();
    let seen = view(vec![SEEN; 6]);
    let first = update(&mut state, &seen, 0);
    assert_eq!(first.node_requests.len(), 6);
    assert_eq!(first.node_requests[0].path, "0");
    assert_eq!(first.node_requests[0].epoch, 7);
    assert_eq!(first.bulk_requests.len(), 1);
    assert_eq!((first.bulk_requests[0].path.as_str(), first.bulk_requests[0].epoch), ("0000", 99));
    let second = update(&mut state, &seen, 1);
    assert!(second.node_requests.is_empty() && second.bulk_requests.is_empty());
}

#[test]
fn requests_stop_at_the_limit() {
    let mut state = State::new();
    let nodes: Vec<NodeMetadata<u32>> = (0..8)
        .flat_map(|a| {
            let mut list = vec![meta(&format!("{a}"), 1)];
            list.extend((0..8).map(|b| meta(&format!("{a}{b}"), 2)));
            list
        })
        .collect();
    let n = nodes.len();
    state.cache_root_bulk(bulk(nodes, &[]));
    let actions = update(&mut state, &view(vec![SEEN; n]), 0);
    assert_eq!(actions.node_requests.len(), 20);
    assert_eq!(state.loading_nodes.len(), 20);
    let more = update(&mut state, &view(vec![SEEN; n]), 1);
    assert_eq!(more.node_requests.len(), 0);
}

#[test]
fn nodes_outlive_their_last_frame_by_the_grace_period() {
    let mut state = rooted();
    let seen = view(vec![SEEN; 6]);
    let away = view(vec![at_depth(None); 6]);
    update(&mut state, &seen, 100);
    let spawn = state.finish_node("3".to_string(), "3", Some(("mesh", 12)));
    assert_eq!(spawn, Some(12));
    state.record_entity("3", 500);
    assert!(state.is_node_loaded("3"));
    assert!(update(&mut state, &away, 110).despawn.is_empty());
    assert!(state.is_node_loaded("3"));
    assert_eq!(update(&mut state, &away, 111).despawn, vec![500]);
    assert!(!state.is_node_loaded("3"));
    assert!(!state.node_data.contains_key("3"));
    assert!(state.bulks.contains_key(""));
}

#[test]
fn unloading_spares_the_root_bulk() {
    let mut state = rooted();
    state.finish_bulk("0000".to_string(), Some(bulk(vec![], &[])));
    assert!(state.bulks.contains_key("0000"));
    unload_obsolete(&mut state, &PathSet::new(), &PathSet::new(), &PathSet::new());
    assert!(state.bulks.contains_key(""));
    assert!(!state.bulks.contains_key("0000"));
}

#[test]
fn failed_bulks_are_remembered() {
    let mut state = rooted();
    state.loading_bulks.insert("0000".to_string());
    state.finish_bulk("0000".to_string(), None);
    assert!(!state.loading_bulks.contains("0000"));
    assert!(state.failed_bulks.contains("0000"));
}

#[test]
fn colliders_come_and_go_with_their_hosts() {
    let mut state = rooted();
    state.node_data.insert("01".to_string(), "mesh");
    state.physics_target_paths = set(&["01", "3"]);
    assert_eq!(state.colliders_to_spawn(), vec!["01".to_string()]);
    state.record_collider("01", 77);
    assert_eq!(state.physics_collider_count(), 1);
    assert!(state.colliders_to_spawn().is_empty());
    assert!(state.retire_colliders().is_empty());
    state.physics_target_paths = set(&["3"]);
    assert_eq!(state.retire_colliders(), vec![77]);
    assert_eq!(state.physics_collider_count(), 0);
}

#[test]
fn children_cover_their_parent() {
    let mut state = rooted();
    for octant in 0..8 {
        state.loaded_nodes.insert(format!("0{octant}"));
    }
    state.loaded_nodes.insert("31".to_string());
    let masks = state.octant_masks();
    assert_eq!(masks.get("0"), Some(&0xff));
    assert_eq!(masks.get("3"), Some(&0b10));
}

#[test]
fn covered_and_unseen_meshes_are_hidden() {
    let outcome = |visibility, octant_mask| CullOutcome { visibility, octant_mask };
    assert_eq!(cull_mesh(false, false, 3, MeshVisibility::Inherited, Some(0)), outcome(Some(MeshVisibility::Hidden), None));
    assert_eq!(cull_mesh(false, true, 3, MeshVisibility::Hidden, Some(0)), outcome(Some(MeshVisibility::Inherited), Some(3)));
    assert_eq!(cull_mesh(true, false, 0xff, MeshVisibility::Inherited, Some(0xff)), outcome(Some(MeshVisibility::Hidden), None));
    assert_eq!(cull_mesh(true, false, 0, MeshVisibility::Inherited, None), outcome(None, None));
    assert_eq!(
        cull_mesh(true, false, 0, MeshVisibility::Visible, Some(1)),
        outcome(Some(MeshVisibility::Inherited), Some(0))
    );
}

#[test]
fn a_snapshot_is_taken_on_request() {
    let mut state = rooted();
    state.loaded_nodes.insert("0".to_string());
    state.node_data.insert("0".to_string(), "mesh");
    state.loading_nodes.insert("3".to_string());
    let seen = view(vec![SEEN; 6]);
    let mut scratch = LodScratch::new();
    let mut request = LodSnapshotRequest { wanted: true };
    let mut snapshot = LodSnapshot::new();
    update_lod_requests(&mut state, &mut scratch, &seen, 0, 10, 21, &mut request, &mut snapshot);
    assert_eq!(snapshot.nodes.len(), 6);
    let first = snapshot.nodes.iter().find(|n| n.path == "0").unwrap();
    assert_eq!(first.depth, 1);
    assert!(first.sources.render && !first.sources.physics);
    assert!(matches!(first.state, SnapshotNodeState::Loaded));
    assert_eq!(snapshot.counters.render_loaded, 1);
    assert_eq!(snapshot.counters.bulks_cached, 1);
    assert_eq!(snapshot.counters.render_loaded_by_depth[1], 1);
}

#[test]
fn motion_brings_nodes_ahead_closer() {
    assert_eq!(effective_distance(1_000, 0, 200), 800);
    assert_eq!(effective_distance(1_000, 300, 200), 500);
    assert_eq!(effective_distance(1_000, -300, 200), 800);
    assert_eq!(effective_distance(1_000, 900, 200), 0);
    assert_eq!(effective_distance(100, 0, 200), 0);
}

#[test]
fn the_tuning_has_its_defaults() {
    let tuning = LodTuning::new();
    assert_eq!((tuning.keep_loaded_radius, tuning.unload_grace_period), (250_000, 3_000_000_000));
    assert!(tuning.is_nearby(250_000));
    assert!(!tuning.is_nearby(250_001));
    assert!(is_low_altitude(1_000_000));
    assert!(!is_low_altitude(1_000_001));
    assert!(is_forced_visible(-5, 50_000));
    assert!(!is_forced_visible(-5, 50_001));
    assert!(!is_forced_visible(1_000_001, 0));
}

#[test]
fn maps_forget_what_is_taken_out() {
    let mut map: PathMap<u8> = PathMap::new();
    for (i, key) in ["a", "b", "c"].iter().enumerate() {
        map.insert(key.to_string(), i as u8);
    }
    map.insert("a".to_string(), 9);
    assert_eq!(map.len(), 3);
    assert_eq!(map.remove("a"), Some(9));
    assert_eq!(map.remove("a"), None);
    assert_eq!(map.get("c"), Some(&2));
    assert!(map.contains_key("b") && !map.contains_key("a"));
    map.remove_all(&vec!["b".to_string(), "x".to_string()]);
    assert_eq!((map.len(), map.key_at(0).as_str(), *map.value_at(0)), (1, "c", 2));
    let mut copy = set(&["p", "q"]).duplicate();
    assert!(!copy.insert("p".to_string()));
    assert!(copy.remove("p"));
    copy.clear();
    assert_eq!(copy.len(), 0);
}
