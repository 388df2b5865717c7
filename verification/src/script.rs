//! Script dispatch and type registry.
//!
//! A script is a behaviour attached to a node, with a one-time `start`
//! callback and a per-frame `update` callback.  The runtime stores scripts
//! type-erased behind a numeric type id; here the erased storage is a
//! closed enum dispatched by pattern matching, so every downcast is checked
//! against the stored tag.  The registry mapping a type id to a fresh
//! script instance is a total function instead of a process-wide mutable
//! singleton: the catalog is handed to the hierarchy at construction.

use vstd::prelude::*;

verus! {

pub const PLAYER_SCRIPT_TYPE_ID: u32 = 1;

pub const BULLET_SCRIPT_TYPE_ID: u32 = 2;

pub const MENU_SCRIPT_TYPE_ID: u32 = 3;

/// Player behaviour: moves its node by the held direction keys and spawns
/// a bullet prefab when firing is requested and the cooldown has elapsed.
pub struct PlayerScript {
    pub shoot_cooldown: u32,
}

/// Bullet behaviour: drifts upward each frame and destroys its own node
/// when the collision layer reports that it struck a hostile.
pub struct BulletScript {}

/// Menu behaviour: records that the menu was dismissed once a confirm key
/// is pressed; the presentation layer reads the flag to switch scenes.
pub struct MenuScript {
    pub dismissed: bool,
}

/// The closed set of behaviours, tagged storage for type-erased dispatch.
pub enum Script {
    Player(PlayerScript),
    Bullet(BulletScript),
    Menu(MenuScript),
}

impl Script {
    /// The type id that tags each concrete behaviour.
    pub open spec fn spec_type_id(self) -> u32 {
        match self {
            Script::Player(_) => PLAYER_SCRIPT_TYPE_ID,
            Script::Bullet(_) => BULLET_SCRIPT_TYPE_ID,
            Script::Menu(_) => MENU_SCRIPT_TYPE_ID,
        }
    }
}

/// Whether a serialized type id names a behaviour of the closed set.
pub open spec fn known_script_type_id(id: u32) -> bool {
    ||| id == PLAYER_SCRIPT_TYPE_ID
    ||| id == BULLET_SCRIPT_TYPE_ID
    ||| id == MENU_SCRIPT_TYPE_ID
}

/// Whether a serialized type id names a behaviour of the closed set.
pub fn is_known_script_type_id(id: u32) -> (b: bool)
    ensures
        b == known_script_type_id(id),
{
    id == PLAYER_SCRIPT_TYPE_ID || id == BULLET_SCRIPT_TYPE_ID || id == MENU_SCRIPT_TYPE_ID
}

/// The fresh instance the registry constructs for a type id.
pub open spec fn spec_script_from_type_id(id: u32) -> Option<Script> {
    if id == PLAYER_SCRIPT_TYPE_ID {
        Some(Script::Player(PlayerScript { shoot_cooldown: 0 }))
    } else if id == BULLET_SCRIPT_TYPE_ID {
        Some(Script::Bullet(BulletScript {}))
    } else if id == MENU_SCRIPT_TYPE_ID {
        Some(Script::Menu(MenuScript { dismissed: false }))
    } else {
        None
    }
}

/// The script factory: constructs a fresh behaviour for a serialized type
/// id, or absence for an id outside the closed set.
pub fn script_from_type_id(id: u32) -> (r: Option<Script>)
    ensures
        r == spec_script_from_type_id(id),
        known_script_type_id(id) <==> r is Some,
        r matches Some(s) ==> s.spec_type_id() == id,
{
    if id == PLAYER_SCRIPT_TYPE_ID {
        Some(Script::Player(PlayerScript { shoot_cooldown: 0 }))
    } else if id == BULLET_SCRIPT_TYPE_ID {
        Some(Script::Bullet(BulletScript {}))
    } else if id == MENU_SCRIPT_TYPE_ID {
        Some(Script::Menu(MenuScript { dismissed: false }))
    } else {
        None
    }
}

/// A behaviour that can be recovered from the type-erased storage once the
/// stored tag has been checked against its own type id.
pub trait HasTypeId: Sized {
    spec fn spec_type_id() -> u32;

    /// Whether the erased value holds this concrete behaviour.
    spec fn matches_script(s: Script) -> bool;

    spec fn extract(s: Script) -> Self
        recommends
            Self::matches_script(s),
    ;

    /// Re-erases a concrete behaviour.
    spec fn inject(self) -> Script;

    /// The stored tag identifies the variant exactly.
    proof fn type_id_determines(s: Script)
        ensures
            Self::matches_script(s) <==> s.spec_type_id() == Self::spec_type_id(),
    ;

    proof fn inject_matches(self)
        ensures
            Self::matches_script(self.inject()),
            Self::extract(self.inject()) == self,
    ;

    fn type_id() -> (id: u32)
        ensures
            id == Self::spec_type_id(),
    ;

    fn extract_ref(s: &Script) -> (r: &Self)
        requires
            Self::matches_script(*s),
        ensures
            *r == Self::extract(*s),
    ;

    fn extract_mut(s: &mut Script) -> (r: &mut Self)
        requires
            Self::matches_script(*old(s)),
        ensures
            *r == Self::extract(*old(s)),
            *final(s) == Self::inject(*final(r)),
    ;
}

impl HasTypeId for PlayerScript {
    open spec fn spec_type_id() -> u32 {
        PLAYER_SCRIPT_TYPE_ID
    }

    open spec fn matches_script(s: Script) -> bool {
        s is Player
    }

    open spec fn extract(s: Script) -> Self {
        match s {
            Script::Player(p) => p,
            _ => arbitrary(),
        }
    }

    open spec fn inject(self) -> Script {
        Script::Player(self)
    }

    proof fn type_id_determines(s: Script) {
    }

    proof fn inject_matches(self) {
    }

    fn type_id() -> u32 {
        PLAYER_SCRIPT_TYPE_ID
    }

    fn extract_ref(s: &Script) -> &Self {
        match s {
            Script::Player(p) => p,
            _ => unreached(),
        }
    }

    fn extract_mut(s: &mut Script) -> &mut Self {
        match s {
            Script::Player(p) => p,
            _ => unreached(),
        }
    }
}

impl HasTypeId for BulletScript {
    open spec fn spec_type_id() -> u32 {
        BULLET_SCRIPT_TYPE_ID
    }

    open spec fn matches_script(s: Script) -> bool {
        s is Bullet
    }

    open spec fn extract(s: Script) -> Self {
        match s {
            Script::Bullet(b) => b,
            _ => arbitrary(),
        }
    }

    open spec fn inject(self) -> Script {
        Script::Bullet(self)
    }

    proof fn type_id_determines(s: Script) {
    }

    proof fn inject_matches(self) {
    }

    fn type_id() -> u32 {
        BULLET_SCRIPT_TYPE_ID
    }

    fn extract_ref(s: &Script) -> &Self {
        match s {
            Script::Bullet(b) => b,
            _ => unreached(),
        }
    }

    fn extract_mut(s: &mut Script) -> &mut Self {
        match s {
            Script::Bullet(b) => b,
            _ => unreached(),
        }
    }
}

impl HasTypeId for MenuScript {
    open spec fn spec_type_id() -> u32 {
        MENU_SCRIPT_TYPE_ID
    }

    open spec fn matches_script(s: Script) -> bool {
        s is Menu
    }

    open spec fn extract(s: Script) -> Self {
        match s {
            Script::Menu(m) => m,
            _ => arbitrary(),
        }
    }

    open spec fn inject(self) -> Script {
        Script::Menu(self)
    }

    proof fn type_id_determines(s: Script) {
    }

    proof fn inject_matches(self) {
    }

    fn type_id() -> u32 {
        MENU_SCRIPT_TYPE_ID
    }

    fn extract_ref(s: &Script) -> &Self {
        match s {
            Script::Menu(m) => m,
            _ => unreached(),
        }
    }

    fn extract_mut(s: &mut Script) -> &mut Self {
        match s {
            Script::Menu(m) => m,
            _ => unreached(),
        }
    }
}

} // verus!
