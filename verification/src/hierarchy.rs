//! The scene graph: a pool of nodes threaded into a tree, a LIFO stack of
//! nodes awaiting their one-time start callback, and the prefab catalog
//! used to instantiate new subtrees.
//!
//! Well-formedness maintained by every operation:
//! - the backing pool's slot/free-stack consistency;
//! - the root handle is valid and the root has no parent;
//! - every graph of the catalog is a well-formed template;
//! - pending-start entries address slots at no more than their current
//!   generation (so a fresh handle can never collide with an old entry),
//!   and are pairwise distinct;
//! - type-tag fidelity of every attached script, and the start discipline:
//!   a live node's script has run its start callback exactly when the node
//!   is no longer on the pending-start stack.

use vstd::prelude::*;

use crate::node::{Node, NodeScriptData, Transform};
use crate::pool::{Handle, Pool};
use crate::prefab::{catalog_view, catalog_wf, root_count, saved_graph_wf, saved_node_links_wf, SavedNodeView, SavedPrefabs};
use crate::script::{
    script_from_type_id, spec_script_from_type_id, BulletScript, HasTypeId, MenuScript,
    PlayerScript, Script,
};

verus! {

/// Units the player moves per held direction key, per frame.
pub const PLAYER_SPEED: u32 = 1;

/// Horizontal nudge that centres a spawned bullet on the player.
pub const PLAYER_CENTER_OFFSET: u32 = 12;

/// Units a bullet drifts upward per frame.
pub const BULLET_SPEED: u32 = 5;

/// Frames that must elapse between two shots.
pub const SHOOT_COOLDOWN_RELOAD: u32 = 10;

/// Catalog convention: the bullet template sits at this index.
pub const BULLET_PREFAB_INDEX: u32 = 1;

/// Pressed-state of the pad keys, polled once per frame by the frame
/// driver; the core itself never touches hardware.
#[derive(Clone, Copy, Debug, PartialEq, Eq, Structural)]
pub struct Keys {
    pub up: bool,
    pub down: bool,
    pub left: bool,
    pub right: bool,
    pub a: bool,
    pub start: bool,
}

/// Per-call context handed to every script callback beside the hierarchy:
/// the polled input, and whether the collision layer reported the node
/// struck a hostile since the last pass.
#[derive(Clone, Copy, Debug, PartialEq, Eq, Structural)]
pub struct ScriptContext {
    pub keys: Keys,
    pub hit_hostile: bool,
}

/// One frame of player movement: a unit step for each held direction,
/// clamped at the edges of the coordinate range.
pub open spec fn moved_transform(t: Transform, keys: Keys) -> Transform {
    let y1 = if keys.up {
        if t.y >= PLAYER_SPEED {
            (t.y - PLAYER_SPEED) as u32
        } else {
            0u32
        }
    } else {
        t.y
    };
    let y2 = if keys.down {
        if y1 <= u32::MAX - PLAYER_SPEED {
            (y1 + PLAYER_SPEED) as u32
        } else {
            u32::MAX
        }
    } else {
        y1
    };
    let x1 = if keys.left {
        if t.x >= PLAYER_SPEED {
            (t.x - PLAYER_SPEED) as u32
        } else {
            0u32
        }
    } else {
        t.x
    };
    let x2 = if keys.right {
        if x1 <= u32::MAX - PLAYER_SPEED {
            (x1 + PLAYER_SPEED) as u32
        } else {
            u32::MAX
        }
    } else {
        x1
    };
    Transform { x: x2, y: y2 }
}

/// One frame of bullet drift: upward, clamped at the top edge.
pub open spec fn bullet_moved(t: Transform) -> Transform {
    Transform {
        x: t.x,
        y: if t.y >= BULLET_SPEED {
            (t.y - BULLET_SPEED) as u32
        } else {
            0u32
        },
    }
}

/// A node with its attached script (if any) marked started; the identity
/// on scriptless nodes.  The start drain moves every node it visits to
/// this form and changes nothing else.
pub open spec fn started_node(n: Node) -> Node {
    match n.script_data {
        Some(sd) => Node { script_data: Some(NodeScriptData { started: true, ..sd }), ..n },
        None => n,
    }
}

/// Whether the player fires this frame: fire key held, cooldown elapsed,
/// and a catalog and pool that can accommodate the bullet template.
pub open spec fn player_fires(pre: Hierarchy, cooldown: u32, keys: Keys) -> bool {
    &&& keys.a
    &&& cooldown > SHOOT_COOLDOWN_RELOAD
    &&& (BULLET_PREFAB_INDEX as int) < pre.catalog().len()
    &&& pre.slot_count() + pre.catalog()[BULLET_PREFAB_INDEX as int].len() < u32::MAX as nat
}

/// Where a freshly fired bullet is placed horizontally: the player's
/// position nudged to its centre, clamped at the edge.
pub open spec fn bullet_spawn_x(x: u32) -> u32 {
    if x <= u32::MAX - PLAYER_CENTER_OFFSET {
        (x + PLAYER_CENTER_OFFSET) as u32
    } else {
        u32::MAX
    }
}

/// Contract of one player update, as a relation between the detached
/// script values and the hierarchy before and after the callback.
pub open spec fn player_update_rel(
    s1: PlayerScript,
    s2: PlayerScript,
    pre: Hierarchy,
    post: Hierarchy,
    own: Handle,
    ctx: ScriptContext,
) -> bool {
    &&& post.wf()
    &&& Hierarchy::frame_step(pre, post)
    &&& post.valid(own)
    &&& post.node_at(own).script_data is None
    &&& post.node_at(own).transform == moved_transform(pre.node_at(own).transform, ctx.keys)
    &&& s2.shoot_cooldown == (if player_fires(pre, s1.shoot_cooldown, ctx.keys) {
        1u32
    } else if s1.shoot_cooldown < u32::MAX {
        (s1.shoot_cooldown + 1) as u32
    } else {
        u32::MAX
    })
    &&& (player_fires(pre, s1.shoot_cooldown, ctx.keys) ==> ({
        let moved = moved_transform(pre.node_at(own).transform, ctx.keys);
        &&& post.live_count() == pre.live_count() + pre.catalog()[BULLET_PREFAB_INDEX as int].len()
        &&& post.node_at(post.spec_root()).child_handle matches Some(b) && post.valid(b)
            && !pre.valid(b) && post.node_at(b).transform == (Transform {
            x: bullet_spawn_x(moved.x),
            y: moved.y,
        })
    }))
    &&& (!player_fires(pre, s1.shoot_cooldown, ctx.keys) ==> post.live_count() == pre.live_count()
        && post.start_stack() == pre.start_stack())
}

/// Contract of one bullet update: drift, then self-destruction when the
/// collision layer reported a hostile (never the tree root).
pub open spec fn bullet_update_rel(
    s1: BulletScript,
    s2: BulletScript,
    pre: Hierarchy,
    post: Hierarchy,
    own: Handle,
    ctx: ScriptContext,
) -> bool {
    &&& post.wf()
    &&& Hierarchy::frame_step(pre, post)
    &&& s2 == s1
    &&& post.start_stack() == pre.start_stack()
    &&& ((ctx.hit_hostile && own != pre.spec_root()) ==> !post.valid(own))
    &&& (!(ctx.hit_hostile && own != pre.spec_root()) ==> post.valid(own) && post.node_at(own)
        == (Node { transform: bullet_moved(pre.node_at(own).transform), ..pre.node_at(own) }))
}

/// Contract of one menu update: the hierarchy is untouched; the script
/// records whether a confirm key dismissed the menu.
pub open spec fn menu_update_rel(
    s1: MenuScript,
    s2: MenuScript,
    pre: Hierarchy,
    post: Hierarchy,
    own: Handle,
    ctx: ScriptContext,
) -> bool {
    &&& post == pre
    &&& s2.dismissed == (s1.dismissed || ctx.keys.a || ctx.keys.start)
}

/// Contract of one dispatched update callback, by tag: the erased values
/// before and after hold the same behaviour variant, related by that
/// behaviour's contract.
pub open spec fn script_update_rel(
    s1: Script,
    s2: Script,
    pre: Hierarchy,
    post: Hierarchy,
    own: Handle,
    ctx: ScriptContext,
) -> bool {
    match (s1, s2) {
        (Script::Player(p1), Script::Player(p2)) => player_update_rel(p1, p2, pre, post, own, ctx),
        (Script::Bullet(b1), Script::Bullet(b2)) => bullet_update_rel(b1, b2, pre, post, own, ctx),
        (Script::Menu(m1), Script::Menu(m2)) => menu_update_rel(m1, m2, pre, post, own, ctx),
        _ => false,
    }
}

/// The scene graph and its scheduling state.
pub struct Hierarchy {
    pub root: Handle,
    object_pool: Pool<Node>,
    to_start_stack: Vec<Handle>,
    saved_prefab_data: SavedPrefabs,
}

impl Hierarchy {
    /// The backing pool, for specification purposes.
    pub closed spec fn pool(self) -> Pool<Node> {
        self.object_pool
    }

    /// The root handle, for specification purposes.
    pub closed spec fn spec_root(self) -> Handle {
        self.root
    }

    /// The pending-start stack; the last element is started next.
    pub closed spec fn start_stack(self) -> Seq<Handle> {
        self.to_start_stack@
    }

    /// The prefab catalog.
    pub closed spec fn catalog(self) -> Seq<Seq<SavedNodeView>> {
        catalog_view(self.saved_prefab_data.graphs@)
    }

    pub open spec fn valid(self, h: Handle) -> bool {
        self.pool().valid(h)
    }

    pub open spec fn node_at(self, h: Handle) -> Node
        recommends
            self.valid(h),
    {
        self.pool().value_at(h)
    }

    pub open spec fn slot_count(self) -> nat {
        self.pool().slot_count()
    }

    /// Number of live nodes.
    pub open spec fn live_count(self) -> int {
        self.pool().live_count()
    }

    /// Whether a handle is on the pending-start stack.
    pub open spec fn on_start_stack(self, h: Handle) -> bool {
        exists|k: int| 0 <= k < self.start_stack().len() && self.start_stack()[k] == h
    }

    /// A pending-start entry never addresses a slot beyond its current
    /// generation, and addresses the current generation only while the
    /// slot is not free.  Together with the strict generation bump on
    /// destroy, this keeps every fresh handle distinct from every entry.
    pub open spec fn stack_entry_ok(self, e: Handle) -> bool {
        &&& (e.index as int) < self.pool().slot_count()
        &&& e.generation < u32::MAX
        &&& e.generation <= self.pool().slot_at(e.index as int).generation_of()
        &&& (e.generation == self.pool().slot_at(e.index as int).generation_of() ==> !(self.pool().slot_at(
            e.index as int,
        ) is Free))
    }

    pub open spec fn stack_wf(self) -> bool {
        &&& forall|k: int|
            0 <= k < self.start_stack().len() ==> self.stack_entry_ok(#[trigger] self.start_stack()[k])
        &&& forall|k1: int, k2: int|
            0 <= k1 < k2 < self.start_stack().len() ==> self.start_stack()[k1]
                != self.start_stack()[k2]
    }

    /// Tag fidelity and the start discipline for every live node.
    pub open spec fn nodes_wf(self) -> bool {
        forall|h: Handle|
            self.valid(h) ==> {
                &&& (#[trigger] self.node_at(h)).wf()
                &&& (self.node_at(h).script_data matches Some(sd) ==> (sd.started <==> !self.on_start_stack(
                    h,
                )))
            }
    }

    pub open spec fn wf(self) -> bool {
        &&& self.pool().wf()
        &&& self.valid(self.spec_root())
        &&& self.node_at(self.spec_root()).parent_handle is None
        &&& catalog_wf(self.catalog())
        &&& self.stack_wf()
        &&& self.nodes_wf()
    }

    /// How one script callback, or one whole scheduling pass, may change
    /// the hierarchy: the root and the catalog stay; slots are never
    /// removed; the pending-start stack only grows, and only by handles
    /// that were not valid before (freshly allocated nodes); and no
    /// surviving node's attached-script field is replaced behind the
    /// scheduler's back.
    pub open spec fn frame_step(pre: Hierarchy, post: Hierarchy) -> bool {
        &&& post.spec_root() == pre.spec_root()
        &&& post.catalog() == pre.catalog()
        &&& pre.slot_count() <= post.slot_count()
        &&& pre.start_stack().is_prefix_of(post.start_stack())
        &&& forall|k: int|
            pre.start_stack().len() <= k < post.start_stack().len() ==> !pre.valid(
                #[trigger] post.start_stack()[k],
            )
        &&& forall|h2: Handle|
            pre.valid(h2) && post.valid(h2) ==> (#[trigger] post.node_at(h2)).script_data
                == pre.node_at(h2).script_data
    }

    /// A new hierarchy owning the given prefab data: one live node, the
    /// parentless tree root, and nothing pending.
    pub fn new(saved_prefab_data: SavedPrefabs) -> (r: Hierarchy)
        requires
            saved_prefab_data.wf(),
        ensures
            r.wf(),
            r.slot_count() == 1,
            r.spec_root() == (Handle { index: 0, generation: 0 }),
            r.valid(r.spec_root()),
            r.node_at(r.spec_root()) == (Node {
                child_handle: None,
                parent_handle: None,
                sibling_handle: None,
                name: r.node_at(r.spec_root()).name,
                transform: Transform { x: 0, y: 0 },
                script_data: None,
                enabled: true,
            }),
            r.node_at(r.spec_root()).name@ == Seq::<char>::empty(),
            r.start_stack() == Seq::<Handle>::empty(),
            r.pool().free_view() == Seq::<u32>::empty(),
            r.catalog() == catalog_view(saved_prefab_data.graphs@),
    {
        let mut object_pool: Pool<Node> = Pool::new();
        let root = object_pool.add(
            Node {
                child_handle: None,
                parent_handle: None,
                sibling_handle: None,
                name: String::new(),
                transform: Transform { x: 0, y: 0 },
                script_data: None,
                enabled: true,
            },
        );
        Hierarchy { root, object_pool, to_start_stack: Vec::new(), saved_prefab_data }
    }

    /// Number of pool slots, live or not; the bound for index-ordered
    /// iteration.
    #[inline(always)]
    pub fn vec_len(&self) -> (n: usize)
        ensures
            n == self.slot_count(),
    {
        self.object_pool.vec_len()
    }

    /// Number of templates in the catalog.
    pub fn prefab_count(&self) -> (n: usize)
        ensures
            n == self.catalog().len(),
    {
        self.saved_prefab_data.graphs.len()
    }

    /// Whether a handle currently refers to a live node.
    pub fn is_valid(&self, h: Handle) -> (b: bool)
        ensures
            b == self.valid(h),
    {
        self.object_pool.is_valid(h)
    }

    /// Reconstructs a handle for a pool index at the slot's current
    /// generation, so index-ordered iteration never aliases a stale handle.
    #[inline]
    pub fn handle_from_index(&self, index: usize) -> (h: Handle)
        requires
            index < self.slot_count(),
            self.slot_count() <= u32::MAX as nat,
        ensures
            h.index as int == index,
            h.generation == self.pool().slot_at(index as int).generation_of(),
            self.valid(h) <==> self.pool().slot_at(index as int) is Occupied,
            self.valid(h) || !(exists|h2: Handle| self.valid(h2) && h2.index as int == index),
    {
        self.object_pool.handle_from_index(index)
    }

    /// Consequences of freeing one slot: the stack and every survivor stay
    /// consistent, so the hierarchy invariants survive.
    proof fn lemma_destroy_step(pre: Hierarchy, post: Hierarchy, h: Handle)
        requires
            pre.wf(),
            pre.valid(h),
            h != pre.spec_root(),
            post.spec_root() == pre.spec_root(),
            post.start_stack() == pre.start_stack(),
            post.catalog() == pre.catalog(),
            post.pool().wf(),
            forall|h2: Handle| post.valid(h2) <==> (pre.valid(h2) && h2 != h),
            forall|h2: Handle|
                h2 != h && pre.valid(h2) ==> post.node_at(h2) == pre.node_at(h2),
            post.slot_count() == pre.slot_count(),
            forall|j: int|
                0 <= j < pre.slot_count() && j != h.index as int ==> post.pool().slot_at(j)
                    == pre.pool().slot_at(j),
            post.pool().slot_at(h.index as int).generation_of() == (if h.generation < u32::MAX {
                (h.generation + 1) as u32
            } else {
                u32::MAX
            }),
        ensures
            post.wf(),
    {
        assert(post.valid(post.spec_root()));
        assert forall|h2: Handle| post.valid(h2) implies {
            &&& (#[trigger] post.node_at(h2)).wf()
            &&& (post.node_at(h2).script_data matches Some(sd) ==> (sd.started
                <==> !post.on_start_stack(h2)))
        } by {
            assert(pre.valid(h2) && h2 != h);
            assert(pre.node_at(h2).wf());
            assert(post.on_start_stack(h2) == pre.on_start_stack(h2));
        }
        assert forall|k: int| 0 <= k < post.start_stack().len() implies post.stack_entry_ok(
            #[trigger] post.start_stack()[k],
        ) by {
            let e = pre.start_stack()[k];
            assert(pre.stack_entry_ok(e));
            assert(post.start_stack()[k] == e);
            if e.index == h.index {
                assert(pre.pool().slot_at(h.index as int).generation_of() == h.generation);
                assert(e.generation <= h.generation);
            } else {
                assert(post.pool().slot_at(e.index as int) == pre.pool().slot_at(e.index as int));
            }
        }
    }

    /// Removes a live node from the pool, unlinking it from its parent's
    /// child list first (the head link or the preceding sibling's link is
    /// repaired, as the contract states) so the remaining tree stays
    /// traversable, and bumps the slot's generation, invalidating every
    /// outstanding handle to the node.  Policy for descendants: they are
    /// not destroyed; they stay allocated behind their own handles, merely
    /// detached from the tree.  Recursive destruction of the subtree would
    /// also be a defensible policy — it keeps every parent link live — but
    /// the flat policy is chosen here because generation checks already
    /// make the orphans' stale parent links harmless, and a caller that
    /// wants the subtree gone can walk and destroy it explicitly.  The
    /// tree root cannot be destroyed.
    pub fn destroy_node(&mut self, handle: Handle)
        requires
            old(self).wf(),
            old(self).valid(handle),
            handle != old(self).spec_root(),
        ensures
            final(self).wf(),
            !final(self).valid(handle),
            final(self).spec_root() == old(self).spec_root(),
            final(self).catalog() == old(self).catalog(),
            final(self).start_stack() == old(self).start_stack(),
            final(self).slot_count() == old(self).slot_count(),
            final(self).live_count() == old(self).live_count() - 1,
            forall|h2: Handle| final(self).valid(h2) <==> (old(self).valid(h2) && h2 != handle),
            forall|h2: Handle|
                h2 != handle && old(self).valid(h2) ==> {
                    let pre_n = old(self).node_at(h2);
                    let post_n = #[trigger] final(self).node_at(h2);
                    &&& post_n.script_data == pre_n.script_data
                    &&& post_n.name == pre_n.name
                    &&& post_n.transform == pre_n.transform
                    &&& post_n.enabled == pre_n.enabled
                    &&& post_n.parent_handle == pre_n.parent_handle
                },
            ({
                let n = old(self).node_at(handle);
                match n.parent_handle {
                    Some(p) => old(self).valid(p) && p != handle ==> {
                        &&& (old(self).node_at(p).child_handle == Some(handle)
                            ==> final(self).node_at(p).child_handle == n.sibling_handle)
                        &&& (old(self).node_at(p).child_handle != Some(handle)
                            && old(self).children_ok(p) ==> ({
                            let c = old(self).children_of(p);
                            forall|k: int|
                                0 < k < c.len() && #[trigger] c[k] == handle && (forall|j: int|
                                    0 <= j < k ==> c[j] != handle)
                                    ==> final(self).node_at(c[k - 1]).sibling_handle
                                    == n.sibling_handle
                        }))
                    },
                    None => true,
                }
            }),
            Hierarchy::frame_step(*old(self), *final(self)),
    {
        let ghost pre = *old(self);
        let parent_opt = self.object_pool.borrow(handle).parent_handle;
        let sibling_opt = self.object_pool.borrow(handle).sibling_handle;

        // Unlink: either the node heads its parent's child list, or some
        // preceding sibling links to it; repair whichever link is found.
        match parent_opt {
            Some(p) => {
                if self.object_pool.is_valid(p) && !(p == handle) {
                    let p_child = self.object_pool.borrow(p).child_handle;
                    let mut pred: Option<Handle> = None;
                    let mut head_is_node = false;
                    match p_child {
                        Some(c0) => {
                            if c0 == handle {
                                head_is_node = true;
                            } else {
                                let mut cur = c0;
                                let mut fuel = self.object_pool.vec_len();
                                let ghost c = pre.children_of(p);
                                let ghost mut kpos: int = 0;
                                loop
                                    invariant_except_break
                                        *self == pre,
                                        pred is None,
                                        pre.valid(p),
                                        pre.node_at(p).child_handle == Some(c0),
                                        c0 != handle,
                                        c == pre.children_of(p),
                                        pre.children_ok(p) ==> {
                                            &&& 0 <= kpos < c.len()
                                            &&& cur == c[kpos]
                                            &&& fuel as int == pre.slot_count() - kpos
                                            &&& forall|j: int| 0 <= j <= kpos ==> c[j] != handle
                                        },
                                    ensures
                                        *self == pre,
                                        pred matches Some(q) ==> self.valid(q)
                                            && self.node_at(q).sibling_handle == Some(handle),
                                        pre.children_ok(p) ==> forall|k: int|
                                            0 < k < c.len() && #[trigger] c[k] == handle && (
                                            forall|j: int| 0 <= j < k ==> c[j] != handle)
                                                ==> pred == Some(c[k - 1]) && c[k - 1] != handle,
                                    decreases fuel,
                                {
                                    proof {
                                        if pre.children_ok(p) {
                                            pre.lemma_chain_properties(
                                                pre.node_at(p).child_handle,
                                                pre.slot_count(),
                                            );
                                        }
                                    }
                                    if fuel == 0 {
                                        break ;
                                    }
                                    if !self.object_pool.is_valid(cur) {
                                        break ;
                                    }
                                    let sib = self.object_pool.borrow(cur).sibling_handle;
                                    match sib {
                                        Some(s2) => {
                                            if s2 == handle {
                                                pred = Some(cur);
                                                break ;
                                            }
                                            cur = s2;
                                            proof {
                                                kpos = kpos + 1;
                                            }
                                        },
                                        None => {
                                            break ;
                                        },
                                    }
                                    fuel = fuel - 1;
                                }
                            }
                        },
                        None => {},
                    }
                    if head_is_node {
                        let ghost st0 = *self;
                        let pn = self.object_pool.borrow_mut(p);
                        pn.child_handle = sibling_opt;
                        proof {
                            Hierarchy::lemma_node_replace_preserves_wf(
                                st0,
                                *self,
                                p,
                                Node { child_handle: sibling_opt, ..st0.node_at(p) },
                            );
                        }
                    } else {
                        match pred {
                            Some(q) => {
                                let ghost st0 = *self;
                                let qn = self.object_pool.borrow_mut(q);
                                qn.sibling_handle = sibling_opt;
                                proof {
                                    Hierarchy::lemma_node_replace_preserves_wf(
                                        st0,
                                        *self,
                                        q,
                                        Node { sibling_handle: sibling_opt, ..st0.node_at(q) },
                                    );
                                }
                            },
                            None => {},
                        }
                        proof {
                            if pre.children_ok(p) {
                                assert forall|k: int|
                                    0 < k < pre.children_of(p).len()
                                        && #[trigger] pre.children_of(p)[k] == handle && (
                                    forall|j: int|
                                        0 <= j < k ==> pre.children_of(p)[j] != handle) implies
                                    self.node_at(pre.children_of(p)[k - 1]).sibling_handle
                                        == pre.node_at(handle).sibling_handle by {
                                    assert(pred == Some(pre.children_of(p)[k - 1]));
                                }
                            }
                        }
                    }
                }
            },
            None => {},
        }

        let ghost unlinked = *self;
        self.object_pool.destroy(handle);
        proof {
            Hierarchy::lemma_destroy_step(unlinked, *self, handle);
            assert forall|h2: Handle|
                h2 != handle && pre.valid(h2) implies {
                    let pre_n = pre.node_at(h2);
                    let post_n = #[trigger] self.node_at(h2);
                    &&& post_n.script_data == pre_n.script_data
                    &&& post_n.name == pre_n.name
                    &&& post_n.transform == pre_n.transform
                    &&& post_n.enabled == pre_n.enabled
                    &&& post_n.parent_handle == pre_n.parent_handle
                } by {
                assert(unlinked.valid(h2));
                assert(self.node_at(h2) == unlinked.node_at(h2));
            }
        }
    }

    /// Fatal-on-misuse access to a live node.
    #[inline]
    pub fn borrow(&self, handle: Handle) -> (r: &Node)
        requires
            self.valid(handle),
        ensures
            *r == self.node_at(handle),
    {
        self.object_pool.borrow(handle)
    }

    /// The node if the handle is still valid, absence otherwise.
    #[inline]
    pub fn try_borrow(&self, handle: Handle) -> (r: Option<&Node>)
        ensures
            match r {
                Some(n) => self.valid(handle) && *n == self.node_at(handle),
                None => !self.valid(handle),
            },
    {
        self.object_pool.try_borrow(handle)
    }

    /// Fatal-on-misuse mutable access to a live node.  The final hierarchy
    /// holds whatever the caller leaves behind the reference; if the caller
    /// keeps the node's attached-script field (and a parentless root), all
    /// hierarchy invariants survive.
    #[inline]
    pub fn borrow_mut(&mut self, handle: Handle) -> (r: &mut Node)
        requires
            old(self).valid(handle),
        ensures
            *r == old(self).node_at(handle),
            final(self).valid(handle),
            final(self).node_at(handle) == *final(r),
            final(self).spec_root() == old(self).spec_root(),
            final(self).catalog() == old(self).catalog(),
            final(self).start_stack() == old(self).start_stack(),
            final(self).slot_count() == old(self).slot_count(),
            forall|h2: Handle| final(self).valid(h2) == old(self).valid(h2),
            forall|h2: Handle|
                h2 != handle && old(self).valid(h2) ==> final(self).node_at(h2) == old(
                    self,
                ).node_at(h2),
            final(self).pool().slots_view() == old(self).pool().slots_view().update(
                handle.index as int,
                crate::pool::Slot::Occupied { generation: handle.generation, value: *final(r) },
            ),
            final(self).pool().free_view() == old(self).pool().free_view(),
            old(self).pool().wf() ==> final(self).pool().wf(),
            final(self).live_count() == old(self).live_count(),
    {
        self.object_pool.borrow_mut(handle)
    }

    /// The attached-script field a replacement node may carry without
    /// breaking tag fidelity or the start discipline: the old record
    /// unchanged, no record, or a well-tagged record whose started flag
    /// agrees with the node's pending-start membership.
    pub open spec fn script_replace_ok(pre: Hierarchy, h: Handle, n: Node) -> bool {
        ||| n.script_data == pre.node_at(h).script_data
        ||| n.script_data is None
        ||| (n.script_data matches Some(sd) && sd.wf() && (sd.started <==> !pre.on_start_stack(
            h,
        )))
    }

    /// Replacing the value of one live slot preserves every hierarchy
    /// invariant, provided the new node's attached-script field is an
    /// allowed replacement and the root stays parentless.  This is the
    /// frame rule for mutation through [`Self::borrow_mut`].
    pub proof fn lemma_node_replace_preserves_wf(
        pre: Hierarchy,
        post: Hierarchy,
        h: Handle,
        n: Node,
    )
        requires
            pre.wf(),
            pre.valid(h),
            Hierarchy::script_replace_ok(pre, h, n),
            h == pre.spec_root() ==> n.parent_handle is None,
            post.pool().slots_view() == pre.pool().slots_view().update(
                h.index as int,
                crate::pool::Slot::Occupied { generation: h.generation, value: n },
            ),
            post.pool().free_view() == pre.pool().free_view(),
            post.pool().wf(),
            post.spec_root() == pre.spec_root(),
            post.start_stack() == pre.start_stack(),
            post.catalog() == pre.catalog(),
        ensures
            post.wf(),
            forall|h2: Handle| post.valid(h2) == pre.valid(h2),
            post.node_at(h) == n,
            forall|h2: Handle|
                h2 != h && pre.valid(h2) ==> post.node_at(h2) == pre.node_at(h2),
    {
        assert forall|h2: Handle| post.valid(h2) == pre.valid(h2) by {
            if h2.index != h.index && (h2.index as int) < pre.pool().slot_count() {
                assert(post.pool().slot_at(h2.index as int) == pre.pool().slot_at(
                    h2.index as int,
                ));
            }
        }
        assert forall|h2: Handle| h2 != h && pre.valid(h2) implies post.node_at(h2)
            == pre.node_at(h2) by {
            if h2.index == h.index {
                assert(h2.generation == h.generation);
                assert(h2 == h);
            }
        }
        assert forall|h2: Handle| post.valid(h2) implies {
            &&& (#[trigger] post.node_at(h2)).wf()
            &&& (post.node_at(h2).script_data matches Some(sd) ==> (sd.started
                <==> !post.on_start_stack(h2)))
        } by {
            assert(pre.valid(h2));
            assert(pre.node_at(h2).wf());
            assert(post.on_start_stack(h2) == pre.on_start_stack(h2));
            if h2 == h {
                assert(Hierarchy::script_replace_ok(pre, h, n));
            } else {
                assert(post.node_at(h2) == pre.node_at(h2));
            }
        }
        assert forall|k: int| 0 <= k < post.start_stack().len() implies post.stack_entry_ok(
            #[trigger] post.start_stack()[k],
        ) by {
            let e = pre.start_stack()[k];
            assert(pre.stack_entry_ok(e));
            if e.index == h.index {
                assert(post.pool().slot_at(e.index as int).generation_of() == h.generation);
                assert(pre.pool().slot_at(h.index as int).generation_of() == h.generation);
            } else {
                assert(post.pool().slot_at(e.index as int) == pre.pool().slot_at(
                    e.index as int,
                ));
            }
        }
    }

    /// Mutable access to a live node, absence for a stale handle; the
    /// hierarchy is untouched in that case.
    #[inline]
    pub fn try_borrow_mut(&mut self, handle: Handle) -> (r: Option<&mut Node>)
        ensures
            r is Some <==> old(self).valid(handle),
            final(self).spec_root() == old(self).spec_root(),
            final(self).catalog() == old(self).catalog(),
            final(self).start_stack() == old(self).start_stack(),
            final(self).slot_count() == old(self).slot_count(),
            match r {
                Some(v) => {
                    &&& *v == old(self).node_at(handle)
                    &&& final(self).pool().slots_view() == old(self).pool().slots_view().update(
                        handle.index as int,
                        crate::pool::Slot::Occupied {
                            generation: handle.generation,
                            value: *final(v),
                        },
                    )
                    &&& final(self).pool().free_view() == old(self).pool().free_view()
                },
                None => *final(self) == *old(self),
            },
    {
        self.object_pool.try_borrow_mut(handle)
    }

    /// Detaches the attached-script record of the node `h` refers to, if
    /// the handle is live and a script is attached; the node itself stays
    /// live.  Used by the scheduler so a callback can mutate its own node
    /// while it runs.
    pub(crate) fn detach_script(&mut self, h: Handle) -> (r: Option<NodeScriptData>)
        requires
            old(self).wf(),
        ensures
            final(self).wf(),
            final(self).spec_root() == old(self).spec_root(),
            final(self).catalog() == old(self).catalog(),
            final(self).start_stack() == old(self).start_stack(),
            final(self).slot_count() == old(self).slot_count(),
            final(self).live_count() == old(self).live_count(),
            final(self).pool().free_view() == old(self).pool().free_view(),
            forall|h2: Handle| final(self).valid(h2) == old(self).valid(h2),
            match r {
                Some(sd) => {
                    &&& old(self).valid(h)
                    &&& old(self).node_at(h).script_data == Some(sd)
                    &&& sd.wf()
                    &&& (sd.started <==> !old(self).on_start_stack(h))
                    &&& final(self).node_at(h) == (Node {
                        script_data: None,
                        ..old(self).node_at(h)
                    })
                    &&& final(self).pool().slots_view() == old(self).pool().slots_view().update(
                        h.index as int,
                        crate::pool::Slot::Occupied {
                            generation: h.generation,
                            value: Node { script_data: None, ..old(self).node_at(h) },
                        },
                    )
                    &&& forall|h2: Handle|
                        h2 != h && old(self).valid(h2) ==> final(self).node_at(h2) == old(
                            self,
                        ).node_at(h2)
                },
                None => {
                    &&& (old(self).valid(h) ==> old(self).node_at(h).script_data is None)
                    &&& final(self).pool().slots_view() == old(self).pool().slots_view()
                    &&& forall|h2: Handle|
                        old(self).valid(h2) ==> final(self).node_at(h2) == old(self).node_at(h2)
                },
            },
    {
        if !self.object_pool.is_valid(h) {
            return None;
        }
        let ghost pre = *old(self);
        let node = self.object_pool.borrow_mut(h);
        let sd = node.script_data.take();
        proof {
            assert(pre.node_at(h).wf());
            Hierarchy::lemma_node_replace_preserves_wf(
                pre,
                *self,
                h,
                Node { script_data: None, ..pre.node_at(h) },
            );
            if sd is None {
                assert(self.pool().slots_view() =~= pre.pool().slots_view());
            }
        }
        sd
    }

    /// Restores a detached script record to its node.  If the node was
    /// destroyed while the callback ran, the record is dropped silently.
    /// The record must respect the start discipline it is restored under.
    pub(crate) fn reattach_script(&mut self, h: Handle, sd: NodeScriptData)
        requires
            old(self).wf(),
            sd.wf(),
            old(self).valid(h) ==> (sd.started <==> !old(self).on_start_stack(h)),
        ensures
            final(self).wf(),
            final(self).spec_root() == old(self).spec_root(),
            final(self).catalog() == old(self).catalog(),
            final(self).start_stack() == old(self).start_stack(),
            final(self).slot_count() == old(self).slot_count(),
            final(self).live_count() == old(self).live_count(),
            forall|h2: Handle| final(self).valid(h2) == old(self).valid(h2),
            final(self).pool().free_view() == old(self).pool().free_view(),
            if old(self).valid(h) {
                &&& final(self).node_at(h) == (Node {
                    script_data: Some(sd),
                    ..old(self).node_at(h)
                })
                &&& final(self).pool().slots_view() == old(self).pool().slots_view().update(
                    h.index as int,
                    crate::pool::Slot::Occupied {
                        generation: h.generation,
                        value: Node { script_data: Some(sd), ..old(self).node_at(h) },
                    },
                )
                &&& forall|h2: Handle|
                    h2 != h && old(self).valid(h2) ==> final(self).node_at(h2) == old(
                        self,
                    ).node_at(h2)
            } else {
                *final(self) == *old(self)
            },
    {
        if !self.object_pool.is_valid(h) {
            return ;
        }
        let ghost pre = *old(self);
        let node = self.object_pool.borrow_mut(h);
        node.script_data = Some(sd);
        proof {
            Hierarchy::lemma_node_replace_preserves_wf(
                pre,
                *self,
                h,
                Node { script_data: Some(sd), ..pre.node_at(h) },
            );
        }
    }

    /// Links `child` in as the new head of `parent`'s child list; the
    /// previous head becomes `child`'s sibling.
    pub(crate) fn link_new_child(&mut self, parent: Handle, child: Handle)
        requires
            old(self).wf(),
            old(self).valid(parent),
            old(self).valid(child),
            parent != child,
            child != old(self).spec_root(),
        ensures
            final(self).wf(),
            final(self).spec_root() == old(self).spec_root(),
            final(self).catalog() == old(self).catalog(),
            final(self).start_stack() == old(self).start_stack(),
            final(self).slot_count() == old(self).slot_count(),
            final(self).live_count() == old(self).live_count(),
            final(self).pool().free_view() == old(self).pool().free_view(),
            forall|h2: Handle| final(self).valid(h2) == old(self).valid(h2),
            final(self).node_at(parent) == (Node {
                child_handle: Some(child),
                ..old(self).node_at(parent)
            }),
            final(self).node_at(child) == (Node {
                sibling_handle: old(self).node_at(parent).child_handle,
                ..old(self).node_at(child)
            }),
            forall|h2: Handle|
                h2 != parent && h2 != child && old(self).valid(h2) ==> final(self).node_at(h2)
                    == old(self).node_at(h2),
    {
        let ghost pre = *old(self);
        let prev_head = self.object_pool.borrow(parent).child_handle;
        let child_node = self.object_pool.borrow_mut(child);
        child_node.sibling_handle = prev_head;
        proof {
            Hierarchy::lemma_node_replace_preserves_wf(
                pre,
                *self,
                child,
                Node { sibling_handle: prev_head, ..pre.node_at(child) },
            );
        }
        let ghost mid = *self;
        let parent_node = self.object_pool.borrow_mut(parent);
        parent_node.child_handle = Some(child);
        proof {
            Hierarchy::lemma_node_replace_preserves_wf(
                mid,
                *self,
                parent,
                Node { child_handle: Some(child), ..mid.node_at(parent) },
            );
        }
    }

    /// The sibling chain beginning at `start`, within `fuel` steps.
    pub open spec fn chain_from(self, start: Option<Handle>, fuel: nat) -> Seq<Handle>
        decreases fuel,
    {
        match start {
            None => Seq::empty(),
            Some(h) => if fuel == 0 {
                Seq::empty()
            } else {
                seq![h] + self.chain_from(
                    if self.valid(h) {
                        self.node_at(h).sibling_handle
                    } else {
                        None
                    },
                    (fuel - 1) as nat,
                )
            },
        }
    }

    /// The chain consists of live nodes and reaches its end marker within
    /// `fuel` steps.  Since a deterministic successor chain that terminates
    /// cannot repeat a node, a fuel of one step per pool slot is enough for
    /// every terminating chain.
    pub open spec fn chain_ok(self, start: Option<Handle>, fuel: nat) -> bool
        decreases fuel,
    {
        match start {
            None => true,
            Some(h) => fuel > 0 && self.valid(h) && self.chain_ok(
                self.node_at(h).sibling_handle,
                (fuel - 1) as nat,
            ),
        }
    }

    /// The direct children of `parent`, head first.
    pub open spec fn children_of(self, parent: Handle) -> Seq<Handle>
        recommends
            self.valid(parent),
    {
        self.chain_from(self.node_at(parent).child_handle, self.slot_count())
    }

    /// The child list of `parent` is live and terminates.
    pub open spec fn children_ok(self, parent: Handle) -> bool {
        self.valid(parent) && self.chain_ok(self.node_at(parent).child_handle, self.slot_count())
    }

    /// Shape of a terminating chain: every entry is live, consecutive
    /// entries are linked by `sibling_handle`, and the last entry ends the
    /// list.
    pub proof fn lemma_chain_properties(self, start: Option<Handle>, fuel: nat)
        requires
            self.chain_ok(start, fuel),
        ensures
            ({
                let c = self.chain_from(start, fuel);
                &&& c.len() <= fuel
                &&& (start is None <==> c.len() == 0)
                &&& (start matches Some(h) ==> c.len() > 0 && c[0] == h)
                &&& forall|k: int| 0 <= k < c.len() ==> self.valid(#[trigger] c[k])
                &&& forall|k: int|
                    0 <= k < c.len() - 1 ==> self.node_at(#[trigger] c[k]).sibling_handle == Some(
                        c[k + 1],
                    )
                &&& (c.len() > 0 ==> self.node_at(c[c.len() - 1]).sibling_handle is None)
            }),
        decreases fuel,
    {
        match start {
            None => {},
            Some(h) => {
                self.lemma_chain_properties(self.node_at(h).sibling_handle, (fuel - 1) as nat);
            },
        }
    }

    /// Whether a node carries a script tagged with the given type id.
    pub open spec fn has_script_of_type(n: Node, id: u32) -> bool {
        n.script_data matches Some(sd) && sd.type_id == id
    }

    /// Scans only the direct children of `search_root` (never
    /// grandchildren), in list order, and returns the first child the
    /// predicate accepts, or absence.
    pub fn find<P: Fn(&Node) -> bool>(&mut self, search_root: Handle, predicate: P) -> (r: Option<
        Handle,
    >)
        requires
            old(self).children_ok(search_root),
            forall|n: Node| #[trigger] call_requires(predicate, (&n,)),
        ensures
            *final(self) == *old(self),
            ({
                let c = old(self).children_of(search_root);
                match r {
                    Some(hh) => exists|k: int|
                        0 <= k < c.len() && c[k] == hh && call_ensures(
                            predicate,
                            (&old(self).node_at(hh),),
                            true,
                        ) && (forall|j: int|
                            0 <= j < k ==> call_ensures(
                                predicate,
                                (&old(self).node_at(#[trigger] c[j]),),
                                false,
                            )),
                    None => forall|k: int|
                        0 <= k < c.len() ==> call_ensures(
                            predicate,
                            (&old(self).node_at(#[trigger] c[k]),),
                            false,
                        ),
                }
            }),
    {
        proof {
            self.lemma_chain_properties(self.node_at(search_root).child_handle, self.slot_count());
        }
        let ghost c = self.children_of(search_root);
        let mut cur_opt = self.borrow(search_root).child_handle;
        let ghost mut k: int = 0;
        loop
            invariant
                *self == *old(self),
                old(self).children_ok(search_root),
                c == old(self).children_of(search_root),
                0 <= k <= c.len(),
                (k < c.len() ==> cur_opt == Some(c[k])),
                (k == c.len() ==> cur_opt is None),
                forall|j: int| 0 <= j < c.len() ==> old(self).valid(#[trigger] c[j]),
                forall|j: int|
                    0 <= j < c.len() - 1 ==> old(self).node_at(#[trigger] c[j]).sibling_handle
                        == Some(c[j + 1]),
                (c.len() > 0 ==> old(self).node_at(c[c.len() - 1]).sibling_handle is None),
                forall|j: int|
                    0 <= j < k ==> call_ensures(
                        predicate,
                        (&old(self).node_at(#[trigger] c[j]),),
                        false,
                    ),
                forall|n: Node| #[trigger] call_requires(predicate, (&n,)),
            decreases c.len() - k,
        {
            match cur_opt {
                None => {
                    return None;
                },
                Some(cur) => {
                    let cur_node = self.borrow(cur);
                    if predicate(cur_node) {
                        return Some(cur);
                    }
                    cur_opt = cur_node.sibling_handle;
                    proof {
                        k = k + 1;
                    }
                },
            }
        }
    }

    /// First direct child of `search_root` whose name equals `name`;
    /// absence when no direct child is so named.  Grandchildren are never
    /// considered.
    pub fn find_by_name(&mut self, search_root: Handle, name: &str) -> (r: Option<Handle>)
        requires
            old(self).children_ok(search_root),
        ensures
            *final(self) == *old(self),
            ({
                let c = old(self).children_of(search_root);
                match r {
                    Some(hh) => exists|k: int|
                        0 <= k < c.len() && c[k] == hh && old(self).node_at(hh).name@ == name@ && (
                        forall|j: int|
                            0 <= j < k ==> old(self).node_at(#[trigger] c[j]).name@ != name@),
                    None => forall|k: int|
                        0 <= k < c.len() ==> old(self).node_at(#[trigger] c[k]).name@ != name@,
                }
            }),
    {
        let q = name.to_owned();
        self.find(
            search_root,
            (|x: &Node| -> (b: bool)
                ensures
                    b == (x.name@ == q@),
                { x.name.eq(&q) }),
        )
    }

    /// First direct child of `search_root` carrying a script of type `T`;
    /// absence when none does.
    pub fn find_by_script_type<T: HasTypeId>(&mut self, search_root: Handle) -> (r: Option<Handle>)
        requires
            old(self).children_ok(search_root),
        ensures
            *final(self) == *old(self),
            ({
                let c = old(self).children_of(search_root);
                match r {
                    Some(hh) => exists|k: int|
                        0 <= k < c.len() && c[k] == hh && Self::has_script_of_type(
                            old(self).node_at(hh),
                            T::spec_type_id(),
                        ) && (forall|j: int|
                            0 <= j < k ==> !Self::has_script_of_type(
                                old(self).node_at(#[trigger] c[j]),
                                T::spec_type_id(),
                            )),
                    None => forall|k: int|
                        0 <= k < c.len() ==> !Self::has_script_of_type(
                            old(self).node_at(#[trigger] c[k]),
                            T::spec_type_id(),
                        ),
                }
            }),
    {
        self.find(
            search_root,
            (|x: &Node| -> (b: bool)
                ensures
                    b == Self::has_script_of_type(*x, T::spec_type_id()),
                {
                    match &x.script_data {
                        Some(sd) => T::type_id() == sd.type_id,
                        None => false,
                    }
                }),
        )
    }

    /// The attached-script record a freshly instantiated template node
    /// carries for a serialized type id: a fresh, unstarted behaviour from
    /// the registry, or nothing.
    pub open spec fn spec_script_data_for(id: Option<u32>) -> Option<NodeScriptData> {
        match id {
            None => None,
            Some(i) => match spec_script_from_type_id(i) {
                Some(script) => Some(NodeScriptData { type_id: i, started: false, script }),
                None => None,
            },
        }
    }

    /// Consequences of one pool insertion for the scheduling state: the
    /// fresh handle collides with no pending-start entry, and the stack
    /// stays consistent.
    proof fn lemma_add_step(pre: Hierarchy, post: Hierarchy, h: Handle)
        requires
            pre.pool().wf(),
            pre.stack_wf(),
            post.valid(h),
            !pre.valid(h),
            post.start_stack() == pre.start_stack(),
            pre.slot_count() <= post.slot_count(),
            forall|j: int|
                0 <= j < pre.slot_count() && j != h.index as int ==> post.pool().slot_at(j)
                    == pre.pool().slot_at(j),
            (h.index as int) < pre.slot_count() ==> pre.pool().slot_at(h.index as int) is Free
                && h.generation == pre.pool().slot_at(h.index as int).generation_of(),
        ensures
            post.stack_wf(),
            forall|j: int|
                0 <= j < pre.start_stack().len() ==> #[trigger] pre.start_stack()[j] != h,
    {
        assert forall|j: int| 0 <= j < pre.start_stack().len() implies #[trigger] pre.start_stack()[j]
            != h by {
            let e = pre.start_stack()[j];
            assert(pre.stack_entry_ok(e));
            if e.index == h.index && (h.index as int) < pre.slot_count() {
                assert(pre.pool().slot_at(h.index as int) is Free);
                assert(e.generation != h.generation || !(pre.pool().slot_at(
                    e.index as int,
                ) is Free));
            }
        }
        assert forall|k: int| 0 <= k < post.start_stack().len() implies post.stack_entry_ok(
            #[trigger] post.start_stack()[k],
        ) by {
            let e = pre.start_stack()[k];
            assert(pre.stack_entry_ok(e));
            assert(post.start_stack()[k] == e);
            if e.index != h.index {
                assert(post.pool().slot_at(e.index as int) == pre.pool().slot_at(e.index as int));
            } else {
                assert(post.pool().slot_at(h.index as int).generation_of() == h.generation);
            }
        }
    }

    /// Consequences of replacing the value of one live slot: validity is
    /// untouched, every other node keeps its value, and the scheduling
    /// stack stays consistent.
    proof fn lemma_replace_step(pre: Hierarchy, post: Hierarchy, h: Handle, n: Node)
        requires
            pre.pool().wf(),
            pre.stack_wf(),
            pre.valid(h),
            post.start_stack() == pre.start_stack(),
            post.pool().slots_view() == pre.pool().slots_view().update(
                h.index as int,
                crate::pool::Slot::Occupied { generation: h.generation, value: n },
            ),
        ensures
            post.stack_wf(),
            post.valid(h),
            post.node_at(h) == n,
            forall|h2: Handle| post.valid(h2) == pre.valid(h2),
            forall|h2: Handle|
                h2 != h && pre.valid(h2) ==> #[trigger] post.node_at(h2) == pre.node_at(h2),
    {
        assert forall|h2: Handle| post.valid(h2) == pre.valid(h2) by {
            if h2.index != h.index && (h2.index as int) < pre.pool().slot_count() {
                assert(post.pool().slot_at(h2.index as int) == pre.pool().slot_at(
                    h2.index as int,
                ));
            }
        }
        assert forall|h2: Handle| h2 != h && pre.valid(h2) implies #[trigger] post.node_at(h2)
            == pre.node_at(h2) by {
            if h2.index == h.index {
                assert(h2.generation == h.generation);
            }
        }
        assert forall|k: int| 0 <= k < post.start_stack().len() implies post.stack_entry_ok(
            #[trigger] post.start_stack()[k],
        ) by {
            let e = pre.start_stack()[k];
            assert(pre.stack_entry_ok(e));
            assert(post.start_stack()[k] == e);
            if e.index != h.index {
                assert(post.pool().slot_at(e.index as int) == pre.pool().slot_at(e.index as int));
            }
        }
    }

    /// One phase-one allocation step: adds a node, leaving everything but
    /// the pool untouched.  The fresh handle differs from every handle that
    /// was valid before and from every pending-start entry.
    #[verifier::rlimit(100)]
    fn add_node_for_spawn(&mut self, node: Node) -> (h: Handle)
        requires
            old(self).pool().wf(),
            old(self).slot_count() < u32::MAX as nat,
            old(self).stack_wf(),
        ensures
            final(self).pool().wf(),
            final(self).stack_wf(),
            final(self).valid(h),
            !old(self).valid(h),
            h.generation < u32::MAX,
            final(self).node_at(h) == node,
            final(self).spec_root() == old(self).spec_root(),
            final(self).catalog() == old(self).catalog(),
            final(self).saved_prefab_data == old(self).saved_prefab_data,
            final(self).start_stack() == old(self).start_stack(),
            old(self).slot_count() <= final(self).slot_count(),
            final(self).slot_count() <= old(self).slot_count() + 1,
            old(self).pool().free_view().len() == 0 ==> final(self).pool().free_view().len() == 0
                && final(self).slot_count() == old(self).slot_count() + 1,
            final(self).live_count() == old(self).live_count() + 1,
            forall|h2: Handle| h2 != h ==> final(self).valid(h2) == old(self).valid(h2),
            forall|h2: Handle|
                h2 != h && old(self).valid(h2) ==> final(self).node_at(h2) == old(
                    self,
                ).node_at(h2),
            forall|j: int|
                0 <= j < final(self).slot_count() && (#[trigger] final(self).pool().slot_at(j)) is Free
                    ==> j < old(self).slot_count() && old(self).pool().slot_at(j)
                    == final(self).pool().slot_at(j),
            forall|j: int|
                0 <= j < old(self).start_stack().len() ==> #[trigger] old(self).start_stack()[j]
                    != h,
    {
        let ghost pre = *old(self);
        let h = self.object_pool.add(node);
        proof {
            Hierarchy::lemma_add_step(pre, *self, h);
        }
        h
    }

    /// One phase-two resolution step: rewrites the three link handles of a
    /// live node, leaving everything else untouched.
    #[verifier::rlimit(100)]
    fn set_links_for_spawn(
        &mut self,
        h: Handle,
        child_handle: Option<Handle>,
        parent_handle: Option<Handle>,
        sibling_handle: Option<Handle>,
    )
        requires
            old(self).pool().wf(),
            old(self).valid(h),
            old(self).stack_wf(),
        ensures
            final(self).pool().wf(),
            final(self).stack_wf(),
            final(self).valid(h),
            final(self).node_at(h) == (Node {
                child_handle,
                parent_handle,
                sibling_handle,
                ..old(self).node_at(h)
            }),
            final(self).spec_root() == old(self).spec_root(),
            final(self).catalog() == old(self).catalog(),
            final(self).saved_prefab_data == old(self).saved_prefab_data,
            final(self).start_stack() == old(self).start_stack(),
            final(self).slot_count() == old(self).slot_count(),
            final(self).live_count() == old(self).live_count(),
            final(self).pool().free_view() == old(self).pool().free_view(),
            forall|h2: Handle| final(self).valid(h2) == old(self).valid(h2),
            forall|h2: Handle|
                h2 != h && old(self).valid(h2) ==> final(self).node_at(h2) == old(
                    self,
                ).node_at(h2),
    {
        let ghost pre = *old(self);
        let node = self.object_pool.borrow_mut(h);
        node.child_handle = child_handle;
        node.parent_handle = parent_handle;
        node.sibling_handle = sibling_handle;
        proof {
            Hierarchy::lemma_replace_step(
                pre,
                *self,
                h,
                Node { child_handle, parent_handle, sibling_handle, ..pre.node_at(h) },
            );
        }
    }

    /// Instantiates template `index` of the catalog as a new subtree under
    /// `parent`.  Phase one allocates every record of the template with
    /// placeholder links — this is what resolves forward references; phase
    /// two resolves each record's self-relative indices into real handles
    /// and pushes every new node onto the pending-start stack, so the
    /// whole subtree receives its start callbacks at the next drain.  The
    /// template's root (its unique record without a parent link) is linked
    /// in as the new head of `parent`'s child list, displacing the old
    /// head to become its sibling, and its handle is returned.
    #[verifier::rlimit(100)]
    pub fn spawn_prefab(&mut self, index: u32, parent: Handle) -> (new_root: Handle)
        requires
            old(self).wf(),
            old(self).valid(parent),
            (index as int) < old(self).catalog().len(),
            old(self).slot_count() + old(self).catalog()[index as int].len() < u32::MAX as nat,
        ensures
            final(self).wf(),
            Hierarchy::frame_step(*old(self), *final(self)),
            final(self).live_count() == old(self).live_count() + old(self).catalog()[index as int].len(),
            final(self).slot_count() <= old(self).slot_count() + old(self).catalog()[index as int].len(),
            old(self).pool().free_view().len() == 0 ==> final(self).slot_count()
                == old(self).slot_count() + old(self).catalog()[index as int].len()
                && final(self).pool().free_view().len() == 0,
            final(self).valid(new_root),
            !old(self).valid(new_root),
            ({
                let g = old(self).catalog()[index as int];
                let n = g.len() as int;
                let hs = final(self).start_stack().skip(old(self).start_stack().len() as int);
                &&& final(self).start_stack().len() == old(self).start_stack().len() + n
                &&& (exists|ri: int|
                    0 <= ri < n && g[ri].parent_index is None && new_root == hs[ri])
                &&& forall|i: int|
                    0 <= i < n ==> final(self).valid(#[trigger] hs[i]) && !old(self).valid(hs[i])
                &&& forall|i: int, j: int| 0 <= i < j < n ==> hs[i] != hs[j]
                &&& forall|i: int|
                    0 <= i < n ==> {
                        let node = #[trigger] final(self).node_at(hs[i]);
                        &&& node.name@ == g[i].name
                        &&& node.transform == (Transform {
                            x: g[i].transform.x,
                            y: g[i].transform.y,
                        })
                        &&& node.enabled == g[i].enabled
                        &&& node.script_data == Hierarchy::spec_script_data_for(
                            g[i].script_type_id,
                        )
                        &&& node.child_handle == (match g[i].child_index {
                            Some(ci) => Some(hs[ci as int]),
                            None => None,
                        })
                        &&& (g[i].parent_index matches Some(pi) ==> node.parent_handle == Some(
                            hs[pi as int],
                        ) && node.sibling_handle == (match g[i].sibling_index {
                            Some(si) => Some(hs[si as int]),
                            None => None,
                        }))
                        &&& (g[i].parent_index is None ==> node.parent_handle == Some(parent)
                            && node.sibling_handle == old(self).node_at(parent).child_handle)
                    }
                &&& final(self).node_at(parent) == (Node {
                    child_handle: Some(new_root),
                    ..old(self).node_at(parent)
                })
                &&& forall|h2: Handle| old(self).valid(h2) ==> final(self).valid(h2)
                &&& forall|h2: Handle|
                    h2 != parent && old(self).valid(h2) ==> #[trigger] final(self).node_at(h2)
                        == old(self).node_at(h2)
            }),
    {
        let ghost pre = *old(self);
        let ghost g = pre.catalog()[index as int];
        proof {
            assert(self.catalog()[index as int] == self.saved_prefab_data.graphs@[index as int]@);
            assert(saved_graph_wf(g));
        }
        let graph_len = self.saved_prefab_data.graphs[index as usize].nodes.len();

        // Phase one: allocate every record with placeholder links.
        let mut new_handles: Vec<Handle> = Vec::new();
        let mut i: usize = 0;
        while i < graph_len
            invariant
                i <= graph_len,
                graph_len == g.len(),
                new_handles@.len() == i as int,
                pre.wf(),
                pre.valid(parent),
                saved_graph_wf(g),
                (index as int) < pre.catalog().len(),
                g == pre.catalog()[index as int],
                pre.slot_count() + g.len() < u32::MAX as nat,
                self.saved_prefab_data == pre.saved_prefab_data,
                self.spec_root() == pre.spec_root(),
                self.start_stack() == pre.start_stack(),
                self.catalog() == pre.catalog(),
                self.pool().wf(),
                self.stack_wf(),
                pre.slot_count() <= self.slot_count(),
                self.slot_count() <= pre.slot_count() + i,
                pre.pool().free_view().len() == 0 ==> self.pool().free_view().len() == 0
                    && self.slot_count() == pre.slot_count() + i,
                self.pool().live_count() == pre.pool().live_count() + i,
                forall|j: int|
                    0 <= j < self.slot_count() && (#[trigger] self.pool().slot_at(j)) is Free
                        ==> j < pre.slot_count() && pre.pool().slot_at(j) == self.pool().slot_at(
                        j,
                    ),
                forall|h2: Handle|
                    pre.valid(h2) ==> self.valid(h2) && #[trigger] self.node_at(h2)
                        == pre.node_at(h2),
                forall|h2: Handle|
                    self.valid(h2) ==> pre.valid(h2) || new_handles@.contains(h2),
                forall|k: int|
                    0 <= k < i ==> self.valid(#[trigger] new_handles@[k]) && !pre.valid(
                        new_handles@[k],
                    ) && !pre.on_start_stack(new_handles@[k]) && new_handles@[k].generation
                        < u32::MAX,
                forall|k1: int, k2: int| 0 <= k1 < k2 < i ==> new_handles@[k1] != new_handles@[k2],
                forall|k: int|
                    0 <= k < i ==> {
                        let node = #[trigger] self.node_at(new_handles@[k]);
                        &&& node.child_handle is None
                        &&& node.parent_handle is None
                        &&& node.sibling_handle is None
                        &&& node.name@ == g[k].name
                        &&& node.transform == (Transform {
                            x: g[k].transform.x,
                            y: g[k].transform.y,
                        })
                        &&& node.enabled == g[k].enabled
                        &&& node.script_data == Hierarchy::spec_script_data_for(
                            g[k].script_type_id,
                        )
                    },
            decreases graph_len - i,
        {
            proof {
                assert(g[i as int] == self.saved_prefab_data.graphs@[index as int].nodes@[i as int]@);
                assert(saved_node_links_wf(g[i as int], i as int, g.len() as int));
            }
            let (name, transform, script_data, enabled) = {
                let snode = &self.saved_prefab_data.graphs[index as usize].nodes[i];
                let name = snode.name.clone();
                let transform = Transform { x: snode.transform.x, y: snode.transform.y };
                let script_data = match snode.script_type_id {
                    Some(id) => match script_from_type_id(id) {
                        Some(script) => Some(
                            NodeScriptData { type_id: id, started: false, script },
                        ),
                        None => unreached(),
                    },
                    None => None,
                };
                (name, transform, script_data, snode.enabled)
            };
            let ghost at_add = *self;
            let h = self.add_node_for_spawn(
                Node {
                    child_handle: None,
                    parent_handle: None,
                    sibling_handle: None,
                    name,
                    transform,
                    script_data,
                    enabled,
                },
            );
            proof {
                assert forall|h2: Handle| pre.valid(h2) implies self.valid(h2)
                    && #[trigger] self.node_at(h2) == pre.node_at(h2) by {
                    assert(at_add.valid(h2) && at_add.node_at(h2) == pre.node_at(h2));
                    assert(h2 != h);
                }
                assert forall|k: int| 0 <= k < i as int implies self.valid(
                    #[trigger] new_handles@[k],
                ) && self.node_at(new_handles@[k]) == at_add.node_at(new_handles@[k]) by {
                    assert(at_add.valid(new_handles@[k]));
                    assert(new_handles@[k] != h);
                }
                assert forall|j: int|
                    0 <= j < self.slot_count() && (#[trigger] self.pool().slot_at(j)) is Free
                        implies j < pre.slot_count() && pre.pool().slot_at(j) == self.pool().slot_at(
                    j,
                ) by {
                    assert(at_add.pool().slot_at(j) is Free);
                }
                assert(!pre.valid(h)) by {
                    if pre.valid(h) {
                        assert(at_add.valid(h) && at_add.node_at(h) == pre.node_at(h));
                    }
                }
                assert(!pre.on_start_stack(h)) by {
                    if pre.on_start_stack(h) {
                        let j = choose|j: int|
                            0 <= j < pre.start_stack().len() && pre.start_stack()[j] == h;
                        assert(at_add.start_stack()[j] != h);
                    }
                }
            }
            let ghost nh_before = new_handles@;
            new_handles.push(h);
            proof {
                assert forall|h2: Handle| self.valid(h2) implies pre.valid(h2)
                    || new_handles@.contains(h2) by {
                    if h2 == h {
                        assert(new_handles@[nh_before.len() as int] == h2);
                    } else {
                        assert(at_add.valid(h2));
                        if !pre.valid(h2) {
                            let k0 = choose|k: int|
                                0 <= k < nh_before.len() && nh_before[k] == h2;
                            assert(new_handles@[k0] == h2);
                        }
                    }
                }
            }
            i = i + 1;
        }

        // Phase two: resolve the self-relative links and enqueue starts.
        let ghost mid = *self;
        let mut prefab_root_opt: Option<Handle> = None;
        let mut i2: usize = 0;
        while i2 < graph_len
            invariant
                i2 <= graph_len,
                graph_len == g.len(),
                new_handles@.len() == g.len(),
                pre.wf(),
                pre.valid(parent),
                saved_graph_wf(g),
                (index as int) < pre.catalog().len(),
                g == pre.catalog()[index as int],
                self.saved_prefab_data == pre.saved_prefab_data,
                self.spec_root() == pre.spec_root(),
                self.catalog() == pre.catalog(),
                self.pool().wf(),
                self.stack_wf(),
                pre.slot_count() <= self.slot_count(),
                self.slot_count() == mid.slot_count(),
                self.slot_count() <= pre.slot_count() + g.len(),
                pre.pool().free_view().len() == 0 ==> self.pool().free_view().len() == 0
                    && self.slot_count() == pre.slot_count() + g.len(),
                self.pool().live_count() == pre.pool().live_count() + g.len(),
                self.start_stack() == pre.start_stack() + new_handles@.subrange(0, i2 as int),
                forall|h2: Handle|
                    pre.valid(h2) ==> self.valid(h2) && #[trigger] self.node_at(h2)
                        == pre.node_at(h2),
                forall|h2: Handle|
                    self.valid(h2) ==> pre.valid(h2) || new_handles@.contains(h2),
                forall|k: int|
                    0 <= k < g.len() ==> self.valid(#[trigger] new_handles@[k]) && !pre.valid(
                        new_handles@[k],
                    ) && !pre.on_start_stack(new_handles@[k]) && new_handles@[k].generation
                        < u32::MAX,
                forall|k1: int, k2: int|
                    0 <= k1 < k2 < g.len() ==> new_handles@[k1] != new_handles@[k2],
                prefab_root_opt is None ==> root_count(g, i2 as int) == 0,
                prefab_root_opt matches Some(hr) ==> exists|ri: int|
                    0 <= ri < i2 && g[ri].parent_index is None && hr == new_handles@[ri],
                forall|k: int|
                    0 <= k < g.len() ==> {
                        let node = #[trigger] self.node_at(new_handles@[k]);
                        &&& node.name@ == g[k].name
                        &&& node.transform == (Transform {
                            x: g[k].transform.x,
                            y: g[k].transform.y,
                        })
                        &&& node.enabled == g[k].enabled
                        &&& node.script_data == Hierarchy::spec_script_data_for(
                            g[k].script_type_id,
                        )
                    },
                forall|k: int|
                    i2 as int <= k < g.len() ==> {
                        let node = #[trigger] self.node_at(new_handles@[k]);
                        &&& node.child_handle is None
                        &&& node.parent_handle is None
                        &&& node.sibling_handle is None
                    },
                forall|k: int|
                    0 <= k < i2 as int ==> {
                        let node = #[trigger] self.node_at(new_handles@[k]);
                        &&& node.child_handle == (match g[k].child_index {
                            Some(ci) => Some(new_handles@[ci as int]),
                            None => None,
                        })
                        &&& node.sibling_handle == (match g[k].sibling_index {
                            Some(si) => Some(new_handles@[si as int]),
                            None => None,
                        })
                        &&& node.parent_handle == (match g[k].parent_index {
                            Some(pi) => Some(new_handles@[pi as int]),
                            None => Some(parent),
                        })
                    },
            decreases graph_len - i2,
        {
            proof {
                assert(g[i2 as int] == self.saved_prefab_data.graphs@[index as int].nodes@[i2 as int]@);
                assert(saved_node_links_wf(g[i2 as int], i2 as int, g.len() as int));
            }
            let (child_index, parent_index, sibling_index) = {
                let snode = &self.saved_prefab_data.graphs[index as usize].nodes[i2];
                (snode.child_index, snode.parent_index, snode.sibling_index)
            };
            let h = new_handles[i2];
            let child_handle = match child_index {
                Some(ci) => Some(new_handles[ci as usize]),
                None => None,
            };
            let sibling_handle = match sibling_index {
                Some(si) => Some(new_handles[si as usize]),
                None => None,
            };
            let parent_handle = match parent_index {
                Some(pi) => Some(new_handles[pi as usize]),
                None => {
                    prefab_root_opt = Some(h);
                    Some(parent)
                },
            };
            let ghost before = *self;
            self.set_links_for_spawn(h, child_handle, parent_handle, sibling_handle);
            proof {
                assert forall|h2: Handle| pre.valid(h2) implies self.valid(h2)
                    && #[trigger] self.node_at(h2) == pre.node_at(h2) by {
                    assert(before.valid(h2) && before.node_at(h2) == pre.node_at(h2));
                    assert(h2 != h);
                }
                assert forall|h2: Handle| self.valid(h2) implies pre.valid(h2)
                    || new_handles@.contains(h2) by {
                    assert(before.valid(h2));
                }
                assert forall|k: int| 0 <= k < g.len() && k != i2 as int implies self.valid(
                    #[trigger] new_handles@[k],
                ) && self.node_at(new_handles@[k]) == before.node_at(new_handles@[k]) by {
                    assert(before.valid(new_handles@[k]));
                    assert(new_handles@[k] != h);
                }
            }
            let ghost linked = *self;
            self.to_start_stack.push(h);
            proof {
                assert(self.pool() == linked.pool());
                assert forall|h2: Handle| pre.valid(h2) implies self.valid(h2)
                    && #[trigger] self.node_at(h2) == pre.node_at(h2) by {
                    assert(linked.valid(h2) && linked.node_at(h2) == pre.node_at(h2));
                }
                assert forall|h2: Handle| self.valid(h2) implies pre.valid(h2)
                    || new_handles@.contains(h2) by {
                    assert(linked.valid(h2));
                }
                assert forall|k: int| 0 <= k < g.len() implies self.valid(
                    #[trigger] new_handles@[k],
                ) && !pre.valid(new_handles@[k]) && !pre.on_start_stack(new_handles@[k])
                    && self.node_at(new_handles@[k]) == linked.node_at(new_handles@[k]) by {
                    assert(linked.valid(new_handles@[k]) && !pre.valid(new_handles@[k])
                        && !pre.on_start_stack(new_handles@[k]));
                }
                assert forall|k: int| 0 <= k < self.start_stack().len() implies self.stack_entry_ok(
                    #[trigger] self.start_stack()[k],
                ) by {
                    if k < self.start_stack().len() - 1 {
                        assert(self.start_stack()[k] == linked.start_stack()[k]);
                        assert(linked.stack_entry_ok(linked.start_stack()[k]));
                    } else {
                        assert(self.start_stack()[k] == h);
                    }
                }
                assert(!pre.on_start_stack(h)) by {
                    if pre.on_start_stack(h) {
                        let j = choose|j: int|
                            0 <= j < pre.start_stack().len() && pre.start_stack()[j] == h;
                    }
                }
                assert forall|k1: int, k2: int|
                    0 <= k1 < k2 < self.start_stack().len() implies self.start_stack()[k1]
                    != self.start_stack()[k2] by {
                    if k2 == self.start_stack().len() - 1 {
                        assert(self.start_stack()[k2] == h);
                        if k1 < pre.start_stack().len() {
                            assert(self.start_stack()[k1] == pre.start_stack()[k1]);
                        } else {
                            assert(self.start_stack()[k1] == new_handles@[k1 - pre.start_stack().len()]);
                        }
                    } else {
                        if k1 >= pre.start_stack().len() {
                            assert(self.start_stack()[k1] == new_handles@[k1 - pre.start_stack().len()]);
                            assert(self.start_stack()[k2] == new_handles@[k2 - pre.start_stack().len()]);
                        } else if k2 >= pre.start_stack().len() {
                            assert(self.start_stack()[k1] == pre.start_stack()[k1]);
                            assert(self.start_stack()[k2] == new_handles@[k2 - pre.start_stack().len()]);
                        } else {
                            assert(self.start_stack()[k1] == pre.start_stack()[k1]);
                            assert(self.start_stack()[k2] == pre.start_stack()[k2]);
                        }
                    }
                }
                assert(self.start_stack() =~= pre.start_stack() + new_handles@.subrange(
                    0,
                    i2 as int + 1,
                ));
                assert(root_count(g, i2 as int + 1) == root_count(g, i2 as int) + (
                if g[i2 as int].parent_index is None {
                    1int
                } else {
                    0int
                }));
            }
            i2 = i2 + 1;
        }

        let prefab_root = match prefab_root_opt {
            Some(h) => h,
            None => unreached(),
        };

        // The hierarchy is consistent again: every new node is unstarted
        // and pending, every old node is untouched.
        proof {
            assert forall|h2: Handle| self.valid(h2) implies {
                &&& (#[trigger] self.node_at(h2)).wf()
                &&& (self.node_at(h2).script_data matches Some(sd) ==> (sd.started
                    <==> !self.on_start_stack(h2)))
            } by {
                if pre.valid(h2) {
                    assert(pre.node_at(h2).wf());
                    assert(self.on_start_stack(h2) == pre.on_start_stack(h2)) by {
                        if self.on_start_stack(h2) {
                            let j = choose|j: int|
                                0 <= j < self.start_stack().len() && self.start_stack()[j] == h2;
                            if j >= pre.start_stack().len() {
                                assert(h2 == new_handles@[j - pre.start_stack().len()]);
                                assert(false);
                            }
                        } else {
                            if pre.on_start_stack(h2) {
                                let j = choose|j: int|
                                    0 <= j < pre.start_stack().len() && pre.start_stack()[j]
                                        == h2;
                                assert(self.start_stack()[j] == h2);
                            }
                        }
                    }
                } else {
                    let k = choose|k: int|
                        0 <= k < new_handles@.len() && new_handles@[k] == h2;
                    assert(self.start_stack()[pre.start_stack().len() + k] == h2);
                    assert(self.on_start_stack(h2));
                    let node = self.node_at(h2);
                    assert(node.script_data == Hierarchy::spec_script_data_for(
                        g[k].script_type_id,
                    ));
                    match g[k].script_type_id {
                        Some(tid) => {
                            assert(saved_node_links_wf(g[k], k, g.len() as int));
                        },
                        None => {},
                    }
                }
            }
            assert(self.wf());
        }

        proof {
            assert(self.valid(parent) && self.node_at(parent) == pre.node_at(parent));
            assert(pre.valid(pre.spec_root()));
            let ri0 = choose|ri: int|
                0 <= ri < i2 && g[ri].parent_index is None && prefab_root == new_handles@[ri];
            assert(!pre.valid(prefab_root));
            assert(prefab_root != parent && prefab_root != self.spec_root());
        }
        let ghost resolved = *self;

        self.link_new_child(parent, prefab_root);

        proof {
            let hs = self.start_stack().skip(pre.start_stack().len() as int);
            assert(hs =~= new_handles@);
            let ri = choose|ri: int|
                0 <= ri < graph_len && g[ri].parent_index is None && prefab_root
                    == new_handles@[ri];
            assert(g[ri].parent_index is None && prefab_root == hs[ri]);
            assert(resolved.valid(parent) && resolved.node_at(parent) == pre.node_at(parent));
            assert forall|i: int| 0 <= i < g.len() && (#[trigger] g[i]).parent_index is None
                implies new_handles@[i] == prefab_root by {
                if i != ri {
                    if i < ri {
                        crate::prefab::lemma_root_count_at_least_two(g, i, ri, g.len() as int);
                    } else {
                        crate::prefab::lemma_root_count_at_least_two(g, ri, i, g.len() as int);
                    }
                    assert(root_count(g, g.len() as int) == 1);
                    assert(false);
                }
            }
            assert(self.node_at(prefab_root) == (Node {
                sibling_handle: pre.node_at(parent).child_handle,
                ..resolved.node_at(prefab_root)
            }));
            assert forall|k: int| 0 <= k < g.len() && new_handles@[k] != prefab_root implies
                self.node_at(#[trigger] new_handles@[k]) == resolved.node_at(
                new_handles@[k],
            ) && self.valid(new_handles@[k]) by {
                assert(resolved.valid(new_handles@[k]));
                assert(new_handles@[k] != parent);
            }
            assert forall|h2: Handle| pre.valid(h2) && h2 != parent implies #[trigger] self.node_at(
                h2,
            ) == pre.node_at(h2) by {
                assert(resolved.valid(h2) && resolved.node_at(h2) == pre.node_at(h2));
                assert(h2 != prefab_root);
            }
            assert forall|h2: Handle| pre.valid(h2) && self.valid(h2) implies (
            #[trigger] self.node_at(h2)).script_data == pre.node_at(h2).script_data by {
                assert(resolved.valid(h2) && resolved.node_at(h2) == pre.node_at(h2));
                if h2 == parent {
                } else {
                    assert(h2 != prefab_root);
                }
            }
        }
        prefab_root
    }

    /// Number of nodes awaiting their one-time start callback.
    pub fn pending_start_count(&self) -> (n: usize)
        ensures
            n == self.start_stack().len(),
    {
        self.to_start_stack.len()
    }

    /// Whether a handle is queued for a start callback.
    pub fn is_pending_start(&self, h: Handle) -> (b: bool)
        ensures
            b == self.on_start_stack(h),
    {
        let mut k: usize = 0;
        while k < self.to_start_stack.len()
            invariant
                0 <= k <= self.start_stack().len(),
                forall|j: int| 0 <= j < k ==> self.start_stack()[j] != h,
            decreases self.start_stack().len() - k,
        {
            if self.to_start_stack[k] == h {
                return true;
            }
            k = k + 1;
        }
        false
    }

    /// Start-discipline law.  Under the hierarchy invariants, a live
    /// node's script is unstarted exactly while its handle is pending on
    /// the start stack, and it is pending at most once.  The drain pops
    /// each pending handle once and marks the script started before it can
    /// ever be popped again, and the update pass skips unstarted scripts —
    /// so every node's start callback runs exactly once, strictly before
    /// its first update callback.
    pub proof fn lemma_start_discipline(self, h: Handle, k1: int, k2: int)
        requires
            self.wf(),
            self.valid(h),
            self.node_at(h).script_data is Some,
            0 <= k1 < self.start_stack().len(),
            0 <= k2 < self.start_stack().len(),
            self.start_stack()[k1] == h,
            self.start_stack()[k2] == h,
        ensures
            k1 == k2,
            !self.node_at(h).script_data->Some_0.started,
    {
        assert(self.node_at(h).wf());
        assert(self.on_start_stack(h));
    }

    /// Number of records in a catalog template.
    pub fn prefab_len(&self, index: u32) -> (n: usize)
        requires
            (index as int) < self.catalog().len(),
        ensures
            n == self.catalog()[index as int].len(),
    {
        proof {
            assert(self.catalog()[index as int] == self.saved_prefab_data.graphs@[index as int]@);
        }
        self.saved_prefab_data.graphs[index as usize].nodes.len()
    }

    /// Runs the one-time start callback of a detached script.  Start
    /// callbacks of the closed behaviour set do not touch the hierarchy.
    fn dispatch_start(script: &mut Script, h: &mut Hierarchy, own: Handle, ctx: &ScriptContext)
        ensures
            *final(h) == *old(h),
            *final(script) == *old(script),
    {
        match script {
            Script::Player(p) => p.start(h, own, ctx),
            Script::Bullet(b) => b.start(h, own, ctx),
            Script::Menu(m) => m.start(h, own, ctx),
        }
    }

    /// Runs the per-frame update callback of a detached script.
    fn dispatch_update(script: &mut Script, h: &mut Hierarchy, own: Handle, ctx: &ScriptContext)
        requires
            old(h).wf(),
            old(h).valid(own),
            old(h).node_at(own).script_data is None,
        ensures
            final(h).wf(),
            Hierarchy::frame_step(*old(h), *final(h)),
            final(h).valid(own) ==> final(h).node_at(own).script_data is None,
            final(script).spec_type_id() == old(script).spec_type_id(),
            script_update_rel(*old(script), *final(script), *old(h), *final(h), own, *ctx),
    {
        match script {
            Script::Player(p) => p.update(h, own, ctx),
            Script::Bullet(b) => b.update(h, own, ctx),
            Script::Menu(m) => m.update(h, own, ctx),
        }
    }

    /// Pops one pending-start entry.  If its node is still live and still
    /// carries a script, the script is detached, its start callback runs
    /// exactly once, and it is reattached marked started; a node destroyed
    /// before its queued start, or one without a script, is skipped
    /// silently.  Returns whether an entry was pending at all.
    pub fn run_one_pending_script_start(&mut self, ctx: &ScriptContext) -> (more: bool)
        requires
            old(self).wf(),
        ensures
            final(self).wf(),
            final(self).spec_root() == old(self).spec_root(),
            final(self).catalog() == old(self).catalog(),
            final(self).slot_count() == old(self).slot_count(),
            more == (old(self).start_stack().len() > 0),
            !more ==> *final(self) == *old(self),
            more ==> final(self).start_stack() == old(self).start_stack().drop_last(),
            forall|h2: Handle| final(self).valid(h2) == old(self).valid(h2),
            more ==> ({
                let e = old(self).start_stack().last();
                &&& (forall|h2: Handle|
                    h2 != e && old(self).valid(h2) ==> #[trigger] final(self).node_at(h2)
                        == old(self).node_at(h2))
                &&& (old(self).valid(e) ==> final(self).valid(e) && final(self).node_at(e) == (
                match old(self).node_at(e).script_data {
                    Some(sd) => Node {
                        script_data: Some(NodeScriptData { started: true, ..sd }),
                        ..old(self).node_at(e)
                    },
                    None => old(self).node_at(e),
                }))
            }),
    {
        let ghost pre = *old(self);
        let len = self.to_start_stack.len();
        if len == 0 {
            return false;
        }
        let handle = self.to_start_stack[len - 1];

        // Detach first, while the node still counts as pending, so the
        // start discipline is kept at every step.
        let sd_opt = self.detach_script(handle);
        let ghost detached = *self;

        let _ = self.to_start_stack.pop();
        proof {
            assert(self.start_stack() == pre.start_stack().drop_last());
            assert(self.pool() == detached.pool());
            assert forall|k: int| 0 <= k < self.start_stack().len() implies self.stack_entry_ok(
                #[trigger] self.start_stack()[k],
            ) by {
                assert(detached.stack_entry_ok(detached.start_stack()[k]));
                assert(self.start_stack()[k] == detached.start_stack()[k]);
            }
            assert(!self.on_start_stack(handle)) by {
                if self.on_start_stack(handle) {
                    let k = choose|k: int|
                        0 <= k < self.start_stack().len() && self.start_stack()[k] == handle;
                    assert(detached.start_stack()[k] == handle);
                    assert(detached.start_stack()[len - 1] == handle);
                }
            }
            assert forall|h2: Handle| self.valid(h2) implies {
                &&& (#[trigger] self.node_at(h2)).wf()
                &&& (self.node_at(h2).script_data matches Some(sd) ==> (sd.started
                    <==> !self.on_start_stack(h2)))
            } by {
                assert(detached.valid(h2));
                assert(detached.node_at(h2).wf());
                if h2 != handle {
                    assert(self.on_start_stack(h2) == detached.on_start_stack(h2)) by {
                        if detached.on_start_stack(h2) {
                            let k = choose|k: int|
                                0 <= k < detached.start_stack().len() && detached.start_stack()[k]
                                    == h2;
                            assert(k != len - 1);
                            assert(self.start_stack()[k] == h2);
                        } else {
                            if self.on_start_stack(h2) {
                                let k = choose|k: int|
                                    0 <= k < self.start_stack().len() && self.start_stack()[k]
                                        == h2;
                                assert(detached.start_stack()[k] == h2);
                            }
                        }
                    }
                } else {
                    assert(self.node_at(h2).script_data is None);
                }
            }
            assert(self.wf());
        }

        match sd_opt {
            Some(sd) => {
                let NodeScriptData { type_id, started: _, script } = sd;
                let mut script = script;
                let ghost at_call = *self;
                Hierarchy::dispatch_start(&mut script, self, handle, ctx);
                proof {
                    assert(*self == at_call);
                }
                self.reattach_script(handle, NodeScriptData { type_id, started: true, script });
            },
            None => {},
        }
        true
    }

    /// Drains the pending-start stack, latest entry first, so a node
    /// spawned during another node's start callback would start before
    /// previously queued siblings.  Every node's start callback runs
    /// exactly once, before any update callback ever reaches it.
    pub fn run_pending_script_starts(&mut self, ctx: &ScriptContext)
        requires
            old(self).wf(),
        ensures
            final(self).wf(),
            final(self).spec_root() == old(self).spec_root(),
            final(self).catalog() == old(self).catalog(),
            final(self).slot_count() == old(self).slot_count(),
            final(self).start_stack().len() == 0,
            forall|h2: Handle| final(self).valid(h2) == old(self).valid(h2),
            forall|h2: Handle|
                old(self).valid(h2) ==> #[trigger] final(self).node_at(h2) == old(self).node_at(
                    h2,
                ) || final(self).node_at(h2) == started_node(old(self).node_at(h2)),
            forall|h2: Handle|
                final(self).valid(h2) && (#[trigger] final(self).node_at(h2)).script_data is Some
                    ==> final(self).node_at(h2).script_data->Some_0.started,
    {
        loop
            invariant
                self.wf(),
                self.spec_root() == old(self).spec_root(),
                self.catalog() == old(self).catalog(),
                self.slot_count() == old(self).slot_count(),
                forall|h2: Handle| self.valid(h2) == old(self).valid(h2),
                forall|h2: Handle|
                    old(self).valid(h2) ==> #[trigger] self.node_at(h2) == old(self).node_at(h2)
                        || self.node_at(h2) == started_node(old(self).node_at(h2)),
            ensures
                self.wf(),
                self.spec_root() == old(self).spec_root(),
                self.catalog() == old(self).catalog(),
                self.slot_count() == old(self).slot_count(),
                self.start_stack().len() == 0,
                forall|h2: Handle| self.valid(h2) == old(self).valid(h2),
                forall|h2: Handle|
                    old(self).valid(h2) ==> #[trigger] self.node_at(h2) == old(self).node_at(h2)
                        || self.node_at(h2) == started_node(old(self).node_at(h2)),
            decreases self.start_stack().len(),
        {
            let ghost before = *self;
            let more = self.run_one_pending_script_start(ctx);
            proof {
                assert forall|h2: Handle| old(self).valid(h2) implies #[trigger] self.node_at(h2)
                    == old(self).node_at(h2) || self.node_at(h2) == started_node(
                    old(self).node_at(h2),
                ) by {
                    assert(before.valid(h2));
                    if more {
                        let e = before.start_stack().last();
                        if h2 != e {
                            assert(self.node_at(h2) == before.node_at(h2));
                        }
                    }
                }
            }
            if !more {
                break ;
            }
        }
        proof {
            assert forall|h2: Handle|
                self.valid(h2) && (#[trigger] self.node_at(h2)).script_data is Some implies
                self.node_at(h2).script_data->Some_0.started by {
                assert(self.node_at(h2).wf());
                assert(!self.on_start_stack(h2));
            }
        }
    }

    /// Observational equality of two hierarchy states: same root, catalog,
    /// pending-start stack, slots and free stack.
    pub open spec fn same_state(a: Hierarchy, b: Hierarchy) -> bool {
        &&& b.spec_root() == a.spec_root()
        &&& b.catalog() == a.catalog()
        &&& b.start_stack() == a.start_stack()
        &&& b.pool().slots_view() == a.pool().slots_view()
        &&& b.pool().free_view() == a.pool().free_view()
    }

    /// `b` is `a` with the attached-script field of the live node `h`
    /// replaced by `sdo`, and nothing else changed.
    pub open spec fn same_but_script(
        a: Hierarchy,
        b: Hierarchy,
        h: Handle,
        sdo: Option<NodeScriptData>,
    ) -> bool {
        &&& a.valid(h)
        &&& b.spec_root() == a.spec_root()
        &&& b.catalog() == a.catalog()
        &&& b.start_stack() == a.start_stack()
        &&& b.pool().free_view() == a.pool().free_view()
        &&& b.pool().slots_view() == a.pool().slots_view().update(
            h.index as int,
            crate::pool::Slot::Occupied {
                generation: h.generation,
                value: Node { script_data: sdo, ..a.node_at(h) },
            },
        )
    }

    /// The handle that index-ordered iteration reconstructs for slot `i`:
    /// the index paired with the slot's current generation.
    pub open spec fn index_handle(self, i: int) -> Handle {
        Handle { index: i as u32, generation: self.pool().slot_at(i).generation_of() }
    }

    /// How the update pass treats the slot at index `i`.  A free slot, a
    /// stale or scriptless node, or a script still awaiting its start
    /// callback is left untouched.  A started script is detached, its
    /// update callback dispatched by tag — the per-behaviour relations say
    /// what the callback does — and, if its node survived the callback,
    /// the same record (same type id and payload the callback returned,
    /// still marked started) is reattached; if the node destroyed itself,
    /// the detached record is dropped.
    pub open spec fn update_step(pre: Hierarchy, post: Hierarchy, i: int, ctx: ScriptContext) -> bool {
        let h = pre.index_handle(i);
        if pre.pool().slot_at(i) is Occupied && pre.node_at(h).script_data is Some
            && pre.node_at(h).script_data->Some_0.started {
            let sd = pre.node_at(h).script_data->Some_0;
            exists|mid0: Hierarchy, mid1: Hierarchy, s2: Script|
                {
                    &&& #[trigger] script_update_rel(sd.script, s2, mid0, mid1, h, ctx)
                    &&& Hierarchy::same_but_script(pre, mid0, h, None)
                    &&& (mid1.valid(h) ==> Hierarchy::same_but_script(
                        mid1,
                        post,
                        h,
                        Some(NodeScriptData { type_id: sd.type_id, started: true, script: s2 }),
                    ))
                    &&& (!mid1.valid(h) ==> Hierarchy::same_state(mid1, post))
                }
        } else {
            Hierarchy::same_state(pre, post)
        }
    }

    /// The whole update pass: a chain of per-index steps over exactly the
    /// slots that existed at entry, in increasing index order.
    pub open spec fn update_trace_ok(
        states: Seq<Hierarchy>,
        pre: Hierarchy,
        post: Hierarchy,
        ctx: ScriptContext,
    ) -> bool {
        &&& states.len() == pre.slot_count() + 1
        &&& states[0] == pre
        &&& states[states.len() - 1] == post
        &&& forall|i: int|
            0 <= i < pre.slot_count() ==> Hierarchy::update_step(
                states[i],
                #[trigger] states[i + 1],
                i,
                ctx,
            )
    }

    /// One forward pass over the pool indices captured at entry,
    /// reconstructing a handle per index: flat index order, not a tree
    /// walk.  Each live, already-started script is detached, updated, and
    /// reattached; a script still awaiting its start callback is left
    /// untouched (start always precedes the first update), and nodes
    /// appended during the pass are not visited until the next frame.  A
    /// node destroying itself during its own update merely drops its
    /// detached script; the pass carries on over the rest.  The trace
    /// clause pins all of this: the final state is reached by the chain of
    /// per-index dispatch steps.
    pub fn run_script_update(&mut self, ctx: &ScriptContext)
        requires
            old(self).wf(),
        ensures
            final(self).wf(),
            final(self).spec_root() == old(self).spec_root(),
            final(self).catalog() == old(self).catalog(),
            old(self).slot_count() <= final(self).slot_count(),
            old(self).start_stack().is_prefix_of(final(self).start_stack()),
            exists|states: Seq<Hierarchy>|
                #[trigger] Hierarchy::update_trace_ok(states, *old(self), *final(self), *ctx),
    {
        let ghost pre = *old(self);
        let ghost mut states: Seq<Hierarchy> = seq![pre];
        let len = self.vec_len();
        let mut i: usize = 0;
        while i < len
            invariant
                i <= len,
                len as int == pre.slot_count(),
                self.wf(),
                self.spec_root() == pre.spec_root(),
                self.catalog() == pre.catalog(),
                pre.slot_count() <= self.slot_count(),
                pre.start_stack().is_prefix_of(self.start_stack()),
                states.len() == i + 1,
                states[0] == pre,
                states[i as int] == *self,
                forall|j: int|
                    0 <= j < i as int ==> Hierarchy::update_step(
                        states[j],
                        #[trigger] states[j + 1],
                        j,
                        *ctx,
                    ),
            decreases len - i,
        {
            proof {
                self.pool().lemma_slot_count_bound();
            }
            let ghost s_i = *self;
            let handle = self.handle_from_index(i);
            proof {
                assert(handle == s_i.index_handle(i as int));
            }
            let sd_opt = self.detach_script(handle);
            let ghost gsd_opt = sd_opt;
            let ghost detached = *self;
            match sd_opt {
                Some(sd) => {
                    if sd.started {
                        let NodeScriptData { type_id, started: _, script } = sd;
                        let mut script = script;
                        proof {
                            assert(!detached.on_start_stack(handle));
                        }
                        Hierarchy::dispatch_update(&mut script, self, handle, ctx);
                        let ghost after_dispatch = *self;
                        let ghost gs2 = script;
                        proof {
                            assert(Hierarchy::frame_step(detached, *self));
                            assert(!self.on_start_stack(handle)) by {
                                if self.on_start_stack(handle) {
                                    let k = choose|k: int|
                                        0 <= k < self.start_stack().len() && self.start_stack()[k]
                                            == handle;
                                    if k < detached.start_stack().len() {
                                        assert(detached.start_stack()[k] == handle);
                                    } else {
                                        assert(!detached.valid(self.start_stack()[k]));
                                    }
                                }
                            }
                        }
                        self.reattach_script(
                            handle,
                            NodeScriptData { type_id, started: true, script },
                        );
                        proof {
                            let gsd = gsd_opt->Some_0;
                            assert(Hierarchy::same_but_script(s_i, detached, handle, None));
                            assert(script_update_rel(
                                gsd.script,
                                gs2,
                                detached,
                                after_dispatch,
                                handle,
                                *ctx,
                            ));
                            if after_dispatch.valid(handle) {
                                assert(Hierarchy::same_but_script(
                                    after_dispatch,
                                    *self,
                                    handle,
                                    Some(
                                        NodeScriptData {
                                            type_id: gsd.type_id,
                                            started: true,
                                            script: gs2,
                                        },
                                    ),
                                ));
                            } else {
                                assert(Hierarchy::same_state(after_dispatch, *self));
                            }
                            assert(Hierarchy::update_step(s_i, *self, i as int, *ctx));
                        }
                    } else {
                        // not yet started: the drain of the pending-start
                        // stack has not reached this node, so its first
                        // update waits for the next frame
                        self.reattach_script(handle, sd);
                        proof {
                            let gsd = gsd_opt->Some_0;
                            assert(s_i.node_at(handle) == (Node {
                                script_data: Some(gsd),
                                ..s_i.node_at(handle)
                            }));
                            assert(self.pool().slots_view() =~= s_i.pool().slots_view());
                            assert(Hierarchy::update_step(s_i, *self, i as int, *ctx));
                        }
                    }
                },
                None => {
                    proof {
                        assert(Hierarchy::same_state(s_i, *self));
                        assert(Hierarchy::update_step(s_i, *self, i as int, *ctx));
                    }
                },
            }
            proof {
                assert(pre.start_stack().is_prefix_of(self.start_stack())) by {
                    assert(pre.start_stack() =~= self.start_stack().subrange(
                        0,
                        pre.start_stack().len() as int,
                    ));
                }
                states = states.push(*self);
            }
            i = i + 1;
        }
        proof {
            assert(Hierarchy::update_trace_ok(states, pre, *self, *ctx));
        }
    }
}

impl PlayerScript {
    /// The player needs no setup before its first update.
    pub fn start(&mut self, h: &mut Hierarchy, own: Handle, ctx: &ScriptContext)
        ensures
            *final(self) == *old(self),
            *final(h) == *old(h),
    {
    }

    /// Moves the node one unit per held direction key (clamped at the
    /// playfield edges); when the fire key is held, the cooldown has
    /// elapsed and the catalog and pool can accommodate it, spawns the
    /// bullet template under the tree root at the player's position
    /// (nudged to its centre) and restarts the cooldown; then advances
    /// the cooldown (saturating).
    pub fn update(&mut self, h: &mut Hierarchy, own: Handle, ctx: &ScriptContext)
        requires
            old(h).wf(),
            old(h).valid(own),
            old(h).node_at(own).script_data is None,
        ensures
            final(h).wf(),
            Hierarchy::frame_step(*old(h), *final(h)),
            final(h).valid(own),
            final(h).node_at(own).script_data is None,
            final(h).node_at(own).transform == moved_transform(
                old(h).node_at(own).transform,
                ctx.keys,
            ),
            final(self).shoot_cooldown == (if player_fires(
                *old(h),
                old(self).shoot_cooldown,
                ctx.keys,
            ) {
                1u32
            } else if old(self).shoot_cooldown < u32::MAX {
                (old(self).shoot_cooldown + 1) as u32
            } else {
                u32::MAX
            }),
            player_fires(*old(h), old(self).shoot_cooldown, ctx.keys) ==> ({
                let moved = moved_transform(old(h).node_at(own).transform, ctx.keys);
                &&& final(h).live_count() == old(h).live_count()
                    + old(h).catalog()[BULLET_PREFAB_INDEX as int].len()
                &&& final(h).node_at(final(h).spec_root()).child_handle matches Some(b)
                    && final(h).valid(b) && !old(h).valid(b) && final(h).node_at(b).transform
                    == (Transform { x: bullet_spawn_x(moved.x), y: moved.y })
            }),
            !player_fires(*old(h), old(self).shoot_cooldown, ctx.keys) ==> final(h).live_count()
                == old(h).live_count() && final(h).start_stack() == old(h).start_stack(),
            player_update_rel(*old(self), *final(self), *old(h), *final(h), own, *ctx),
    {
        let ghost pre = *old(h);
        let t0 = h.borrow(own).transform;
        let mut x = t0.x;
        let mut y = t0.y;
        if ctx.keys.up {
            y = if y >= PLAYER_SPEED {
                y - PLAYER_SPEED
            } else {
                0
            };
        }
        if ctx.keys.down {
            y = if y <= u32::MAX - PLAYER_SPEED {
                y + PLAYER_SPEED
            } else {
                u32::MAX
            };
        }
        if ctx.keys.left {
            x = if x >= PLAYER_SPEED {
                x - PLAYER_SPEED
            } else {
                0
            };
        }
        if ctx.keys.right {
            x = if x <= u32::MAX - PLAYER_SPEED {
                x + PLAYER_SPEED
            } else {
                u32::MAX
            };
        }
        let ghost st0 = *h;
        let node = h.borrow_mut(own);
        node.transform = Transform { x, y };
        proof {
            Hierarchy::lemma_node_replace_preserves_wf(
                st0,
                *h,
                own,
                Node { transform: Transform { x, y }, ..st0.node_at(own) },
            );
            assert(Transform { x, y } == moved_transform(pre.node_at(own).transform, ctx.keys));
        }

        let mut fires = false;
        if ctx.keys.a && self.shoot_cooldown > SHOOT_COOLDOWN_RELOAD {
            if (BULLET_PREFAB_INDEX as usize) < h.prefab_count() {
                let a = h.vec_len();
                let b = h.prefab_len(BULLET_PREFAB_INDEX);
                if a < u32::MAX as usize && b < u32::MAX as usize - a {
                    fires = true;
                }
            }
        }
        proof {
            assert(fires == player_fires(pre, old(self).shoot_cooldown, ctx.keys));
        }
        if fires {
            let ghost st1 = *h;
            let parent = h.root;
            proof {
                assert(h.valid(parent));
            }
            let bullet = h.spawn_prefab(BULLET_PREFAB_INDEX, parent);
            let ghost st2 = *h;
            let bx = if x <= u32::MAX - PLAYER_CENTER_OFFSET {
                x + PLAYER_CENTER_OFFSET
            } else {
                u32::MAX
            };
            let bn = h.borrow_mut(bullet);
            bn.transform = Transform { x: bx, y };
            proof {
                Hierarchy::lemma_node_replace_preserves_wf(
                    st2,
                    *h,
                    bullet,
                    Node { transform: Transform { x: bx, y }, ..st2.node_at(bullet) },
                );
                assert(h.valid(own)) by {
                    assert(st1.valid(own));
                }
                assert forall|h2: Handle| pre.valid(h2) && h.valid(h2) implies (
                #[trigger] h.node_at(h2)).script_data == pre.node_at(h2).script_data by {
                    assert(st1.valid(h2));
                    assert(st2.node_at(h2).script_data == st1.node_at(h2).script_data);
                }
                assert forall|k: int|
                    pre.start_stack().len() <= k < h.start_stack().len() implies !pre.valid(
                        #[trigger] h.start_stack()[k],
                    ) by {
                    assert(!st1.valid(h.start_stack()[k]));
                }
                assert(h.node_at(own).script_data is None) by {
                    assert(st2.node_at(own).script_data == st1.node_at(own).script_data);
                }
                assert(h.node_at(h.spec_root()).child_handle == Some(bullet)) by {
                    assert(st2.node_at(parent).child_handle == Some(bullet));
                    assert(parent != bullet);
                }
                assert(h.node_at(bullet).transform == (Transform { x: bx, y }));
                assert(!pre.valid(bullet)) by {
                    assert(!st1.valid(bullet));
                }
            }
            self.shoot_cooldown = 0;
        }
        self.shoot_cooldown = if self.shoot_cooldown < u32::MAX {
            self.shoot_cooldown + 1
        } else {
            u32::MAX
        };
    }
}

impl BulletScript {
    /// A bullet needs no setup before its first update.
    pub fn start(&mut self, h: &mut Hierarchy, own: Handle, ctx: &ScriptContext)
        ensures
            *final(self) == *old(self),
            *final(h) == *old(h),
    {
    }

    /// Drifts the node upward one step, then destroys its own node when
    /// the collision layer reported it struck a hostile (never the tree
    /// root).  Destroying itself mid-pass is safe: the scheduler simply
    /// drops the detached script afterwards.
    pub fn update(&mut self, h: &mut Hierarchy, own: Handle, ctx: &ScriptContext)
        requires
            old(h).wf(),
            old(h).valid(own),
            old(h).node_at(own).script_data is None,
        ensures
            final(h).wf(),
            Hierarchy::frame_step(*old(h), *final(h)),
            *final(self) == *old(self),
            final(h).start_stack() == old(h).start_stack(),
            (ctx.hit_hostile && own != old(h).spec_root()) ==> !final(h).valid(own),
            !(ctx.hit_hostile && own != old(h).spec_root()) ==> final(h).valid(own)
                && final(h).node_at(own) == (Node {
                transform: bullet_moved(old(h).node_at(own).transform),
                ..old(h).node_at(own)
            }),
            bullet_update_rel(*old(self), *final(self), *old(h), *final(h), own, *ctx),
    {
        let ghost pre = *old(h);
        let node = h.borrow_mut(own);
        let t = node.transform;
        let moved = Transform {
            x: t.x,
            y: if t.y >= BULLET_SPEED {
                t.y - BULLET_SPEED
            } else {
                0
            },
        };
        node.transform = moved;
        proof {
            Hierarchy::lemma_node_replace_preserves_wf(
                pre,
                *h,
                own,
                Node { transform: moved, ..pre.node_at(own) },
            );
        }
        if ctx.hit_hostile && !(own == h.root) {
            proof {
                assert(own != h.spec_root());
            }
            h.destroy_node(own);
        }
    }
}

impl MenuScript {
    /// The prompt itself is drawn by the presentation layer; the core
    /// records no state for it.
    pub fn start(&mut self, h: &mut Hierarchy, own: Handle, ctx: &ScriptContext)
        ensures
            *final(self) == *old(self),
            *final(h) == *old(h),
    {
    }

    /// Records that the menu was confirmed once a confirm key is pressed;
    /// the presentation layer reads the flag and switches scenes.
    pub fn update(&mut self, h: &mut Hierarchy, own: Handle, ctx: &ScriptContext)
        ensures
            *final(h) == *old(h),
            final(self).dismissed == (old(self).dismissed || ctx.keys.a || ctx.keys.start),
            menu_update_rel(*old(self), *final(self), *old(h), *final(h), own, *ctx),
    {
        if ctx.keys.a || ctx.keys.start {
            self.dismissed = true;
        }
    }
}

} // verus!
