//! Tree records stored in the object pool.
//!
//! A node carries its name, a transform, an enabled flag, the three link
//! handles that thread it into the scene tree (parent, first child, next
//! sibling), and an optional attached script tagged with its type id.

use vstd::prelude::*;

use crate::pool::Handle;
use crate::script::{HasTypeId, Script};

verus! {

/// Position of a node: an (x, y) coordinate pair.
#[derive(Clone, Copy, Debug, PartialEq, Eq, Structural)]
pub struct Transform {
    pub x: u32,
    pub y: u32,
}

impl Default for Transform {
    /// The origin.
    fn default() -> (r: Self)
        ensures
            r == (Transform { x: 0, y: 0 }),
    {
        Transform { x: 0, y: 0 }
    }
}

/// A node's attached behaviour: the type-erased script, the numeric tag
/// naming its concrete type, and whether its one-time start callback has
/// already run.
pub struct NodeScriptData {
    pub type_id: u32,
    pub started: bool,
    pub script: Script,
}

impl NodeScriptData {
    /// Type-tag fidelity: the stored tag always names the concrete
    /// behaviour held in the erased storage.  Every downcast relies on it.
    pub open spec fn wf(self) -> bool {
        self.type_id == self.script.spec_type_id()
    }
}

/// A tree entity.  `parent_handle` is absent only on the tree root;
/// `child_handle` heads this node's singly linked child list, threaded
/// through the children's `sibling_handle` fields.
pub struct Node {
    pub child_handle: Option<Handle>,
    pub parent_handle: Option<Handle>,
    pub sibling_handle: Option<Handle>,
    pub name: String,
    pub transform: Transform,
    pub script_data: Option<NodeScriptData>,
    pub enabled: bool,
}

impl Node {
    /// Tag fidelity of the attached script, if any.
    pub open spec fn wf(self) -> bool {
        self.script_data matches Some(sd) ==> sd.wf()
    }

    pub open spec fn has_script(self) -> bool {
        self.script_data is Some
    }

    /// The stored type tag of the attached script.
    pub open spec fn script_type_id(self) -> u32
        recommends
            self.has_script(),
    {
        match self.script_data {
            Some(sd) => sd.type_id,
            None => arbitrary(),
        }
    }

    /// Checked downcast of the attached script.  Calling this on a node
    /// without a script, or with a script of another type id, is a fatal
    /// contract violation, so both are excluded here.
    pub fn cast_script<T: HasTypeId>(&self) -> (r: &T)
        requires
            self.wf(),
            self.has_script(),
            self.script_type_id() == T::spec_type_id(),
        ensures
            (*self).script_data matches Some(sd) && *r == T::extract(sd.script),
    {
        proof {
            T::type_id_determines(self.script_data->Some_0.script);
        }
        match &self.script_data {
            Some(sd) => T::extract_ref(&sd.script),
            None => unreached(),
        }
    }

    /// Checked mutable downcast of the attached script.  The final node is
    /// the old one with the behaviour replaced by whatever the caller
    /// leaves behind the returned reference; tag fidelity is preserved.
    pub fn cast_script_mut<T: HasTypeId>(&mut self) -> (r: &mut T)
        requires
            old(self).wf(),
            old(self).has_script(),
            old(self).script_type_id() == T::spec_type_id(),
        ensures
            old(self).script_data matches Some(sd) && *r == T::extract(sd.script),
            (*final(self) == Node {
                script_data: Some(
                    NodeScriptData {
                        type_id: old(self).script_data->Some_0.type_id,
                        started: old(self).script_data->Some_0.started,
                        script: T::inject(*final(r)),
                    },
                ),
                ..*old(self)
            }),
    {
        proof {
            T::type_id_determines(old(self).script_data->Some_0.script);
        }
        match &mut self.script_data {
            Some(sd) => T::extract_mut(&mut sd.script),
            None => unreached(),
        }
    }
}

} // verus!
