use sandstone::hierarchy::{Hierarchy, Keys, ScriptContext};
use sandstone::node::Transform;
use sandstone::pool::{Handle, Pool};
use sandstone::prefab::{
    saved_prefabs_wf_check, SavedNode, SavedNodeExtension, SavedNodeGraph, SavedPrefabs,
    SavedTransform, SpriteSize,
};
use sandstone::script::{BulletScript, MenuScript, PlayerScript};

fn saved_node(
    child: Option<u32>,
    parent: Option<u32>,
    sibling: Option<u32>,
    name: &str,
    script: Option<u32>,
) -> SavedNode {
    SavedNode {
        child_index: child,
        parent_index: parent,
        sibling_index: sibling,
        name: name.to_owned(),
        transform: SavedTransform { x: 0, y: 0 },
        node_extension: SavedNodeExtension::Empty,
        script_type_id: script,
        enabled: true,
    }
}

fn no_keys() -> ScriptContext {
    ScriptContext {
        keys: Keys { up: false, down: false, left: false, right: false, a: false, start: false },
        hit_hostile: false,
    }
}

/// Player template at index 0, bullet template at index 1.
fn demo_prefabs() -> SavedPrefabs {
    SavedPrefabs {
        graphs: vec![
            SavedNodeGraph { nodes: vec![saved_node(None, None, None, "Player", Some(1))] },
            SavedNodeGraph { nodes: vec![saved_node(None, None, None, "Bullet", Some(2))] },
        ],
        graphics: vec![],
    }
}

#[test]
fn pool_add_is_valid_immediately() {
    let mut p: Pool<u32> = Pool::new();
    let h = p.add(7);
    assert!(p.is_valid(h));
    assert_eq!(*p.borrow(h), 7);
    assert_eq!(p.vec_len(), 1);
}

#[test]
fn pool_handle_invalid_after_destroy() {
    let mut p: Pool<u32> = Pool::new();
    let h = p.add(7);
    p.destroy(h);
    assert!(!p.is_valid(h));
    assert!(p.try_borrow(h).is_none());
}

#[test]
fn pool_reuse_bumps_generation() {
    let mut p: Pool<u32> = Pool::new();
    let a = p.add(1);
    let b = p.add(2);
    p.destroy(a);
    let c = p.add(3);
    // the most recently freed slot is reused, at a strictly greater generation
    assert_eq!(c.index, a.index);
    assert!(c.generation > a.generation);
    assert_eq!(c.generation, a.generation + 1);
    // the stale handle never matches the new occupant
    assert!(!p.is_valid(a));
    assert!(p.try_borrow(a).is_none());
    assert_eq!(*p.borrow(c), 3);
    assert_eq!(*p.borrow(b), 2);
    assert_eq!(p.vec_len(), 2);
}

#[test]
fn pool_take_and_put_back() {
    let mut p: Pool<u32> = Pool::new();
    let h = p.add(5);
    let (ticket, v) = p.take(h);
    assert_eq!(v, 5);
    assert!(!p.is_valid(h));
    p.put_back(ticket, 6);
    assert!(p.is_valid(h));
    assert_eq!(*p.borrow(h), 6);
}

#[test]
fn pool_try_take_and_try_borrow_mut() {
    let mut p: Pool<u32> = Pool::new();
    let h = p.add(9);
    // expected-absence variants succeed on a live handle
    if let Some(v) = p.try_borrow_mut(h) {
        *v = 10;
    } else {
        panic!("live handle");
    }
    assert_eq!(*p.borrow(h), 10);
    let (ticket, v) = p.try_take(h).expect("live handle");
    assert_eq!(v, 10);
    p.put_back(ticket, 11);
    // and return absence, untouched, on a stale one
    p.destroy(h);
    assert!(p.try_take(h).is_none());
    assert!(p.try_borrow_mut(h).is_none());
}

#[test]
fn hierarchy_try_borrow_mut() {
    let mut h = Hierarchy::new(demo_prefabs());
    let root = h.root;
    let player = h.spawn_prefab(0, root);
    if let Some(node) = h.try_borrow_mut(player) {
        node.transform = Transform { x: 4, y: 5 };
    } else {
        panic!("live handle");
    }
    assert_eq!(h.borrow(player).transform, Transform { x: 4, y: 5 });
    h.destroy_node(player);
    assert!(h.try_borrow_mut(player).is_none());
}

#[test]
fn backward_child_links_are_well_formed() {
    // the parent record comes after its child in the flat sequence; the
    // two-phase instantiation resolves the backward reference
    let prefabs = SavedPrefabs {
        graphs: vec![SavedNodeGraph {
            nodes: vec![
                saved_node(None, Some(1), None, "kid", None),
                saved_node(Some(0), None, None, "root0", None),
            ],
        }],
        graphics: vec![],
    };
    assert!(saved_prefabs_wf_check(&prefabs));
    let mut h = Hierarchy::new(prefabs);
    let root = h.root;
    let sub = h.spawn_prefab(0, root);
    assert_eq!(h.borrow(sub).name.as_str(), "root0");
    let kid = h.find_by_name(sub, "kid").expect("resolved backward link");
    assert_eq!(h.borrow(kid).parent_handle, Some(sub));
}

#[test]
fn pool_handle_from_index_uses_current_generation() {
    let mut p: Pool<u32> = Pool::new();
    let a = p.add(1);
    p.destroy(a);
    let b = p.add(2);
    let h = p.handle_from_index(0);
    assert_eq!(h, b);
    assert!(h != a);
}

#[test]
fn prefabs_wf_check_accepts_demo_catalog() {
    assert!(saved_prefabs_wf_check(&demo_prefabs()));
}

#[test]
fn prefabs_wf_check_rejects_malformed_templates() {
    // empty graph
    let p = SavedPrefabs { graphs: vec![SavedNodeGraph { nodes: vec![] }], graphics: vec![] };
    assert!(!saved_prefabs_wf_check(&p));
    // two roots
    let p = SavedPrefabs {
        graphs: vec![SavedNodeGraph {
            nodes: vec![saved_node(None, None, None, "a", None), saved_node(None, None, None, "b", None)],
        }],
        graphics: vec![],
    };
    assert!(!saved_prefabs_wf_check(&p));
    // out-of-range child link
    let p = SavedPrefabs {
        graphs: vec![SavedNodeGraph {
            nodes: vec![saved_node(None, None, None, "a", None), saved_node(Some(5), Some(0), None, "b", None)],
        }],
        graphics: vec![],
    };
    assert!(!saved_prefabs_wf_check(&p));
    // unknown script type id
    let p = SavedPrefabs {
        graphs: vec![SavedNodeGraph { nodes: vec![saved_node(None, None, None, "a", Some(99))] }],
        graphics: vec![],
    };
    assert!(!saved_prefabs_wf_check(&p));
    // duplicate graphic names
    let mut p = demo_prefabs();
    p.graphics.push((
        "g".to_owned(),
        sandstone::prefab::SavedGraphic { tiles: vec![], palette: vec![], size: SpriteSize::_8x8 },
    ));
    p.graphics.push((
        "g".to_owned(),
        sandstone::prefab::SavedGraphic { tiles: vec![], palette: vec![], size: SpriteSize::_16x16 },
    ));
    assert!(!saved_prefabs_wf_check(&p));
}

#[test]
fn spawn_prefab_two_node_template() {
    // a one-graph catalog: node0 is the root (all links absent), node1 has
    // parent 0 and nothing else
    let prefabs = SavedPrefabs {
        graphs: vec![SavedNodeGraph {
            nodes: vec![
                saved_node(None, None, None, "node0", None),
                saved_node(None, Some(0), None, "node1", None),
            ],
        }],
        graphics: vec![],
    };
    assert!(saved_prefabs_wf_check(&prefabs));
    let mut h = Hierarchy::new(prefabs);
    let root = h.root;
    assert_eq!(h.vec_len(), 1);

    let node0 = h.spawn_prefab(0, root);
    // exactly two new nodes
    assert_eq!(h.vec_len(), 3);
    // node0 hangs under the given parent, node1 under node0
    assert_eq!(h.borrow(node0).parent_handle, Some(root));
    assert_eq!(h.borrow(root).child_handle, Some(node0));
    let node1 = h.handle_from_index(2);
    assert!(h.is_valid(node1));
    assert_eq!(h.borrow(node1).parent_handle, Some(node0));
    assert_eq!(h.borrow(node1).name.as_str(), "node1");
    // both handles are on the start queue before the call returns
    assert_eq!(h.pending_start_count(), 2);
    assert!(h.is_pending_start(node0));
    assert!(h.is_pending_start(node1));
}

#[test]
fn find_scans_direct_children_only() {
    // root0 with children named A, B, C (in list order) and a grandchild
    // named D under A
    let prefabs = SavedPrefabs {
        graphs: vec![SavedNodeGraph {
            nodes: vec![
                saved_node(Some(1), None, None, "root0", None),
                saved_node(Some(4), Some(0), Some(2), "A", None),
                saved_node(None, Some(0), Some(3), "B", None),
                saved_node(None, Some(0), None, "C", None),
                saved_node(None, Some(1), None, "D", None),
            ],
        }],
        graphics: vec![],
    };
    assert!(saved_prefabs_wf_check(&prefabs));
    let mut h = Hierarchy::new(prefabs);
    let root = h.root;
    let sub = h.spawn_prefab(0, root);

    let a = h.find_by_name(sub, "A").expect("A is a direct child");
    assert_eq!(h.borrow(a).name.as_str(), "A");
    assert!(h.find_by_name(sub, "B").is_some());
    assert!(h.find_by_name(sub, "C").is_some());
    // D exists, but only as a grandchild: the single-level search misses it
    assert!(h.find_by_name(sub, "D").is_none());
    assert!(h.find_by_name(a, "D").is_some());
}

#[test]
fn destroy_node_unlinks_head_and_middle() {
    let prefabs = SavedPrefabs {
        graphs: vec![SavedNodeGraph {
            nodes: vec![
                saved_node(Some(1), None, None, "root0", None),
                saved_node(None, Some(0), Some(2), "A", None),
                saved_node(None, Some(0), Some(3), "B", None),
                saved_node(None, Some(0), None, "C", None),
            ],
        }],
        graphics: vec![],
    };
    let mut h = Hierarchy::new(prefabs);
    let root = h.root;
    let sub = h.spawn_prefab(0, root);

    // middle of the chain
    let b = h.find_by_name(sub, "B").unwrap();
    h.destroy_node(b);
    assert!(!h.is_valid(b));
    assert!(h.find_by_name(sub, "B").is_none());
    assert!(h.find_by_name(sub, "A").is_some());
    assert!(h.find_by_name(sub, "C").is_some());

    // head of the chain
    let a = h.find_by_name(sub, "A").unwrap();
    h.destroy_node(a);
    assert!(h.find_by_name(sub, "A").is_none());
    assert!(h.find_by_name(sub, "C").is_some());
}

#[test]
fn start_runs_once_and_before_first_update() {
    let mut h = Hierarchy::new(demo_prefabs());
    let root = h.root;
    let player = h.spawn_prefab(0, root);
    let mut ctx = no_keys();
    ctx.keys.down = true;

    // the update pass never reaches a script before its start callback ran
    h.run_script_update(&ctx);
    assert_eq!(h.borrow(player).transform, Transform { x: 0, y: 0 });
    assert_eq!(h.borrow(player).cast_script::<PlayerScript>().shoot_cooldown, 0);
    assert!(h.is_pending_start(player));

    // drain the start queue: exactly one pending start, run exactly once
    h.run_pending_script_starts(&ctx);
    assert_eq!(h.pending_start_count(), 0);
    assert!(!h.is_pending_start(player));

    // now updates reach the script
    h.run_script_update(&ctx);
    assert_eq!(h.borrow(player).transform, Transform { x: 0, y: 1 });
    assert_eq!(h.borrow(player).cast_script::<PlayerScript>().shoot_cooldown, 1);
    h.run_script_update(&ctx);
    assert_eq!(h.borrow(player).transform, Transform { x: 0, y: 2 });
    assert_eq!(h.borrow(player).cast_script::<PlayerScript>().shoot_cooldown, 2);
}

#[test]
fn player_fires_after_cooldown() {
    let mut h = Hierarchy::new(demo_prefabs());
    let root = h.root;
    let player = h.spawn_prefab(0, root);
    let ctx = no_keys();
    h.run_pending_script_starts(&ctx);

    // let the cooldown elapse
    for _ in 0..12 {
        h.run_script_update(&ctx);
    }
    assert_eq!(h.vec_len(), 2);

    let mut fire = no_keys();
    fire.keys.a = true;
    h.run_script_update(&fire);

    // one bullet spawned under the root, pending its start callback
    assert_eq!(h.vec_len(), 3);
    assert_eq!(h.pending_start_count(), 1);
    assert_eq!(h.borrow(player).cast_script::<PlayerScript>().shoot_cooldown, 1);
    let bullet = h.find_by_name(root, "Bullet").expect("bullet under root");
    // centred on the player
    assert_eq!(h.borrow(bullet).transform, Transform { x: 12, y: 0 });
}

#[test]
fn bullet_destroys_itself_without_corrupting_the_pass() {
    let mut h = Hierarchy::new(demo_prefabs());
    let root = h.root;
    let player = h.spawn_prefab(0, root);
    let bullet = h.spawn_prefab(1, root);
    let ctx = no_keys();
    h.run_pending_script_starts(&ctx);

    let mut hit = no_keys();
    hit.keys.down = true;
    hit.hit_hostile = true;
    h.run_script_update(&hit);

    // the bullet destroyed its own node during its update; the rest of the
    // pass still ran (the player moved and counted its update)
    assert!(!h.is_valid(bullet));
    assert!(h.try_borrow(bullet).is_none());
    assert!(h.is_valid(player));
    assert_eq!(h.borrow(player).transform, Transform { x: 0, y: 1 });
    assert_eq!(h.borrow(player).cast_script::<PlayerScript>().shoot_cooldown, 1);
    // the bullet is gone from the root's child list
    assert!(h.find_by_name(root, "Bullet").is_none());

    // later passes keep working
    h.run_script_update(&hit);
    assert_eq!(h.borrow(player).transform, Transform { x: 0, y: 2 });
}

#[test]
fn bullet_drifts_upward() {
    let mut h = Hierarchy::new(demo_prefabs());
    let root = h.root;
    let bullet = h.spawn_prefab(1, root);
    let ctx = no_keys();
    h.run_pending_script_starts(&ctx);
    {
        let node = h.borrow_mut(bullet);
        node.transform = Transform { x: 3, y: 100 };
    }
    h.run_script_update(&ctx);
    assert_eq!(h.borrow(bullet).transform, Transform { x: 3, y: 95 });
    h.run_script_update(&ctx);
    assert_eq!(h.borrow(bullet).transform, Transform { x: 3, y: 90 });
}

#[test]
fn menu_records_dismissal() {
    let prefabs = SavedPrefabs {
        graphs: vec![SavedNodeGraph { nodes: vec![saved_node(None, None, None, "Menu", Some(3))] }],
        graphics: vec![],
    };
    let mut h = Hierarchy::new(prefabs);
    let root = h.root;
    let menu = h.spawn_prefab(0, root);
    let ctx = no_keys();
    h.run_pending_script_starts(&ctx);

    h.run_script_update(&ctx);
    assert!(!h.borrow(menu).cast_script::<MenuScript>().dismissed);

    let mut confirm = no_keys();
    confirm.keys.start = true;
    h.run_script_update(&confirm);
    assert!(h.borrow(menu).cast_script::<MenuScript>().dismissed);
}

#[test]
fn cast_script_mut_replaces_in_place() {
    let mut h = Hierarchy::new(demo_prefabs());
    let root = h.root;
    let bullet = h.spawn_prefab(1, root);
    {
        let node = h.borrow_mut(bullet);
        let b: &mut BulletScript = node.cast_script_mut::<BulletScript>();
        let _ = b;
    }
    assert!(h.borrow(bullet).script_data.is_some());
}

#[test]
fn sprite_size_labels() {
    assert_eq!(SpriteSize::_8x8.label(), "8x8");
    assert_eq!(SpriteSize::_32x16.label(), "32x16");
    assert_eq!(SpriteSize::_64x64.label(), "64x64");
    assert_eq!(SpriteSize::default(), SpriteSize::_8x8);
}

#[test]
fn stale_handles_are_absent_not_fatal() {
    let mut h = Hierarchy::new(demo_prefabs());
    let root = h.root;
    let player = h.spawn_prefab(0, root);
    h.destroy_node(player);
    assert!(h.try_borrow(player).is_none());
    assert!(h.try_borrow(root).is_some());
    // a node destroyed before its queued start is skipped silently
    let ctx = no_keys();
    h.run_pending_script_starts(&ctx);
    assert_eq!(h.pending_start_count(), 0);
}

#[test]
fn handle_equality_needs_both_fields() {
    let a = Handle { index: 1, generation: 0 };
    let b = Handle { index: 1, generation: 1 };
    let c = Handle { index: 1, generation: 0 };
    assert_ne!(a, b);
    assert_eq!(a, c);
}
