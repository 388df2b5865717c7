//! Serializable prefab data model.
//!
//! A catalog is an ordered sequence of graphs; a graph is a flat, ordered
//! sequence of node records.  Records refer to each other with
//! self-relative integer indices instead of addresses, since addresses
//! cannot survive serialization; instantiating a graph therefore takes two
//! passes (allocate every record, then resolve the links).
//!
//! A well-formed graph keeps every link index in range and has exactly one
//! record without a parent link: the template's root.  Records may refer
//! to each other in either direction — a parent record can appear before
//! or after its children — which is exactly why instantiation resolves
//! links in a second pass; traversals check termination (`children_ok`)
//! where a walk needs it.

use vstd::prelude::*;

use crate::script::{is_known_script_type_id, known_script_type_id};

verus! {

/// Sprite dimensions supported by the display hardware.
#[derive(Clone, Copy, Debug, PartialEq, Eq, Structural)]
pub enum SpriteSize {
    _8x8,
    _16x16,
    _32x32,
    _64x64,
    _16x8,
    _32x8,
    _32x16,
    _64x32,
    _8x16,
    _8x32,
    _16x32,
    _32x64,
}

impl Default for SpriteSize {
    /// The smallest square size.
    fn default() -> (r: Self)
        ensures
            r == SpriteSize::_8x8,
    {
        SpriteSize::_8x8
    }
}

impl SpriteSize {
    /// The dimensions, written as they are displayed.
    pub open spec fn spec_label(self) -> Seq<char> {
        match self {
            SpriteSize::_8x8 => "8x8"@,
            SpriteSize::_16x16 => "16x16"@,
            SpriteSize::_32x32 => "32x32"@,
            SpriteSize::_64x64 => "64x64"@,
            SpriteSize::_16x8 => "16x8"@,
            SpriteSize::_32x8 => "32x8"@,
            SpriteSize::_32x16 => "32x16"@,
            SpriteSize::_64x32 => "64x32"@,
            SpriteSize::_8x16 => "8x16"@,
            SpriteSize::_8x32 => "8x32"@,
            SpriteSize::_16x32 => "16x32"@,
            SpriteSize::_32x64 => "32x64"@,
        }
    }

    /// Human-readable form of the size, e.g. for the authoring tool.
    pub fn label(&self) -> (r: String)
        ensures
            r@ == self.spec_label(),
    {
        match self {
            SpriteSize::_8x8 => "8x8".to_owned(),
            SpriteSize::_16x16 => "16x16".to_owned(),
            SpriteSize::_32x32 => "32x32".to_owned(),
            SpriteSize::_64x64 => "64x64".to_owned(),
            SpriteSize::_16x8 => "16x8".to_owned(),
            SpriteSize::_32x8 => "32x8".to_owned(),
            SpriteSize::_32x16 => "32x16".to_owned(),
            SpriteSize::_64x32 => "64x32".to_owned(),
            SpriteSize::_8x16 => "8x16".to_owned(),
            SpriteSize::_8x32 => "8x32".to_owned(),
            SpriteSize::_16x32 => "16x32".to_owned(),
            SpriteSize::_32x64 => "32x64".to_owned(),
        }
    }
}

/// Extension payload of a sprite-bearing node: the name of its graphic.
pub struct SavedSpriteExtension {
    pub graphic_asset: String,
}

/// Optional per-node extension data.
pub enum SavedNodeExtension {
    Empty,
    Sprite(SavedSpriteExtension),
}

/// Serialized transform; coordinates only.
#[derive(Clone, Copy, Debug, PartialEq, Eq, Structural)]
pub struct SavedTransform {
    pub x: u32,
    pub y: u32,
}

/// One serialized node record.  The link indices address other records of
/// the same graph; the parent link is redundant with the child/sibling
/// links but makes instantiation simpler.
pub struct SavedNode {
    pub child_index: Option<u32>,
    pub parent_index: Option<u32>,
    pub sibling_index: Option<u32>,
    pub name: String,
    pub transform: SavedTransform,
    pub node_extension: SavedNodeExtension,
    pub script_type_id: Option<u32>,
    pub enabled: bool,
}

/// One serialized graph: a flat sequence of records.
pub struct SavedNodeGraph {
    pub nodes: Vec<SavedNode>,
}

/// A named graphic asset.
pub struct SavedGraphic {
    pub tiles: Vec<u8>,
    pub palette: Vec<u8>,
    pub size: SpriteSize,
}

/// The deserialized prefab data: the graph catalog plus the graphic assets
/// keyed by name (each name at most once).
pub struct SavedPrefabs {
    pub graphs: Vec<SavedNodeGraph>,
    pub graphics: Vec<(String, SavedGraphic)>,
}

/// Mathematical model of a node record.
pub ghost struct SavedNodeView {
    pub child_index: Option<u32>,
    pub parent_index: Option<u32>,
    pub sibling_index: Option<u32>,
    pub name: Seq<char>,
    pub transform: SavedTransform,
    pub node_extension: Option<Seq<char>>,
    pub script_type_id: Option<u32>,
    pub enabled: bool,
}

/// Mathematical model of a graphic asset.
pub ghost struct SavedGraphicView {
    pub tiles: Seq<u8>,
    pub palette: Seq<u8>,
    pub size: SpriteSize,
}

impl View for SavedNodeExtension {
    type V = Option<Seq<char>>;

    open spec fn view(&self) -> Option<Seq<char>> {
        match self {
            SavedNodeExtension::Empty => None,
            SavedNodeExtension::Sprite(s) => Some(s.graphic_asset@),
        }
    }
}

impl View for SavedNode {
    type V = SavedNodeView;

    open spec fn view(&self) -> SavedNodeView {
        SavedNodeView {
            child_index: self.child_index,
            parent_index: self.parent_index,
            sibling_index: self.sibling_index,
            name: self.name@,
            transform: self.transform,
            node_extension: self.node_extension@,
            script_type_id: self.script_type_id,
            enabled: self.enabled,
        }
    }
}

impl View for SavedNodeGraph {
    type V = Seq<SavedNodeView>;

    open spec fn view(&self) -> Seq<SavedNodeView> {
        self.nodes@.map_values(|n: SavedNode| n@)
    }
}

impl View for SavedGraphic {
    type V = SavedGraphicView;

    open spec fn view(&self) -> SavedGraphicView {
        SavedGraphicView { tiles: self.tiles@, palette: self.palette@, size: self.size }
    }
}

/// The catalog a hierarchy owns: the sequence of graph models.
pub open spec fn catalog_view(graphs: Seq<SavedNodeGraph>) -> Seq<Seq<SavedNodeView>> {
    graphs.map_values(|g: SavedNodeGraph| g@)
}

/// Per-record link discipline: every link index is in range (in either
/// direction — forward references are what the two-phase instantiation is
/// for), and a serialized script id names a known behaviour.
pub open spec fn saved_node_links_wf(n: SavedNodeView, i: int, len: int) -> bool {
    &&& (n.child_index matches Some(c) ==> (c as int) < len)
    &&& (n.sibling_index matches Some(s) ==> (s as int) < len)
    &&& (n.parent_index matches Some(p) ==> (p as int) < len)
    &&& (n.script_type_id matches Some(id) ==> known_script_type_id(id))
}

/// Number of records without a parent link among the first `n`.
pub open spec fn root_count(g: Seq<SavedNodeView>, n: int) -> int
    decreases n,
{
    if n <= 0 {
        0
    } else {
        root_count(g, n - 1) + if g[n - 1].parent_index is None {
            1int
        } else {
            0int
        }
    }
}

/// A prefix count never goes negative.
pub proof fn lemma_root_count_nonneg(g: Seq<SavedNodeView>, n: int)
    ensures
        root_count(g, n) >= 0,
    decreases n,
{
    if n > 0 {
        lemma_root_count_nonneg(g, n - 1);
    }
}

/// A parentless record in the prefix is counted.
pub proof fn lemma_root_count_at_least_one(g: Seq<SavedNodeView>, i: int, n: int)
    requires
        0 <= i < n,
        g[i].parent_index is None,
    ensures
        root_count(g, n) >= 1,
    decreases n,
{
    if n - 1 > i {
        lemma_root_count_at_least_one(g, i, n - 1);
    } else {
        lemma_root_count_nonneg(g, n - 1);
    }
}

/// Two distinct parentless records in the prefix are both counted, so a
/// graph with exactly one root cannot hold two.
pub proof fn lemma_root_count_at_least_two(g: Seq<SavedNodeView>, i: int, j: int, n: int)
    requires
        0 <= i < j < n,
        g[i].parent_index is None,
        g[j].parent_index is None,
    ensures
        root_count(g, n) >= 2,
    decreases n,
{
    if n - 1 > j {
        lemma_root_count_at_least_two(g, i, j, n - 1);
    } else {
        lemma_root_count_at_least_one(g, i, n - 1);
    }
}

/// A template is well formed when it is non-empty, every record keeps the
/// link discipline, and exactly one record — the template's root — has no
/// parent link.  Nothing here demands the described child lists be
/// acyclic: a walk that needs termination checks it at the walk.
pub open spec fn saved_graph_wf(g: Seq<SavedNodeView>) -> bool {
    &&& 1 <= g.len()
    &&& g.len() <= u32::MAX as int
    &&& forall|i: int| 0 <= i < g.len() ==> saved_node_links_wf(#[trigger] g[i], i, g.len() as int)
    &&& root_count(g, g.len() as int) == 1
}

/// Every graph of the catalog is well formed.
pub open spec fn catalog_wf(c: Seq<Seq<SavedNodeView>>) -> bool {
    forall|gi: int| 0 <= gi < c.len() ==> saved_graph_wf(#[trigger] c[gi])
}

/// Graphic names are pairwise distinct.
pub open spec fn graphics_wf(gs: Seq<(String, SavedGraphic)>) -> bool {
    forall|k1: int, k2: int| 0 <= k1 < k2 < gs.len() ==> (#[trigger] gs[k1]).0@ != (#[trigger] gs[k2]).0@
}

impl SavedPrefabs {
    pub open spec fn wf(self) -> bool {
        &&& catalog_wf(catalog_view(self.graphs@))
        &&& graphics_wf(self.graphics@)
    }
}

/// Runtime check of the template link discipline, for callers that receive
/// a catalog from outside and must reject a malformed one before use.
pub fn saved_graph_wf_check(g: &SavedNodeGraph) -> (b: bool)
    ensures
        b == saved_graph_wf(g@),
{
    let len = g.nodes.len();
    if len == 0 || len > u32::MAX as usize {
        return false;
    }
    let mut roots: usize = 0;
    let mut i: usize = 0;
    while i < len
        invariant
            0 <= i <= len,
            len == g.nodes.len(),
            1 <= len <= u32::MAX as int,
            roots == root_count(g@, i as int),
            roots <= i,
            forall|j: int| 0 <= j < i ==> saved_node_links_wf(#[trigger] g@[j], j, len as int),
        decreases len - i,
    {
        let n = &g.nodes[i];
        assert(g@[i as int] == g.nodes@[i as int]@);
        match n.child_index {
            Some(c) => {
                if !((c as usize) < len) {
                    return false;
                }
            },
            None => {},
        }
        match n.sibling_index {
            Some(s) => {
                if !((s as usize) < len) {
                    return false;
                }
            },
            None => {},
        }
        match n.parent_index {
            Some(p) => {
                if !((p as usize) < len) {
                    return false;
                }
            },
            None => {
                roots = roots + 1;
            },
        }
        match n.script_type_id {
            Some(id) => {
                if !is_known_script_type_id(id) {
                    return false;
                }
            },
            None => {},
        }
        i = i + 1;
    }
    roots == 1
}

/// Runtime check that every graph of a catalog is well formed.
pub fn catalog_wf_check(graphs: &Vec<SavedNodeGraph>) -> (b: bool)
    ensures
        b == catalog_wf(catalog_view(graphs@)),
{
    let mut gi: usize = 0;
    while gi < graphs.len()
        invariant
            0 <= gi <= graphs.len(),
            forall|j: int|
                0 <= j < gi ==> saved_graph_wf(#[trigger] catalog_view(graphs@)[j]),
        decreases graphs.len() - gi,
    {
        if !saved_graph_wf_check(&graphs[gi]) {
            assert(catalog_view(graphs@)[gi as int] == graphs@[gi as int]@);
            return false;
        }
        assert(catalog_view(graphs@)[gi as int] == graphs@[gi as int]@);
        gi = gi + 1;
    }
    true
}

/// Runtime check of the whole prefab bundle: catalog well-formedness plus
/// distinct graphic names.
pub fn saved_prefabs_wf_check(p: &SavedPrefabs) -> (b: bool)
    ensures
        b == p.wf(),
{
    if !catalog_wf_check(&p.graphs) {
        return false;
    }
    let mut k: usize = 0;
    while k < p.graphics.len()
        invariant
            0 <= k <= p.graphics.len(),
            forall|k1: int, k2: int|
                0 <= k1 < k2 < k ==> (#[trigger] p.graphics@[k1]).0@ != (
                #[trigger] p.graphics@[k2]).0@,
        decreases p.graphics.len() - k,
    {
        let mut k2: usize = 0;
        while k2 < k
            invariant
                0 <= k2 <= k < p.graphics.len(),
                forall|j: int| 0 <= j < k2 ==> (#[trigger] p.graphics@[j]).0@ != p.graphics@[k as int].0@,
            decreases k - k2,
        {
            if p.graphics[k2].0.eq(&p.graphics[k].0) {
                return false;
            }
            k2 = k2 + 1;
        }
        k = k + 1;
    }
    true
}

} // verus!
