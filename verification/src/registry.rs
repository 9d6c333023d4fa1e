//! The table of placed portals: at most one per identity, linked to each
//! other exactly while both exist.

use vstd::prelude::*;
use crate::camera::{
    clamp_near, lemma_clip_range, lemma_near_plane_in_range, Extent2d, PortalCamera, PortalPerspectiveProjection,
    NEAR_CLIP_MIN,
};
use crate::controls::Controls;
use crate::kind::{Color, PortalId, PortalKind};
use crate::math::Pose;
use crate::placement::{shoot_portal, spec_shoot_portal, PortalSurface, Ray};
use crate::solver::{lemma_camera_is_as_far_as_the_player, solve_camera, spec_solve_camera, CameraPose};

verus! {

/// Names one portal that was placed at some time. A handle stays unique for
/// the life of the registry: once its portal is gone it names nothing, and
/// no later portal gets the same handle.
#[derive(Clone, Copy, Debug, PartialEq, Eq, Hash, Structural)]
pub struct PortalHandle {
    /// The identity of the portal.
    pub id: PortalId,
    /// How many portals the registry had placed before this one.
    pub generation: u64,
}

/// A request to place a portal.
#[derive(Clone, Copy, Debug, PartialEq, Eq)]
pub struct SpawnPortal {
    pub portal_kind: PortalId,
    pub transform: Pose,
}

impl SpawnPortal {
    /// A request to place the portal whose identity the type `P` stands
    /// for.
    pub fn new<P: PortalKind>(portal_kind: P, transform: Pose) -> (event: SpawnPortal)
        ensures
            event == (SpawnPortal { portal_kind: P::spec_id(), transform }),
    {
        SpawnPortal { portal_kind: P::id(), transform }
    }
}

/// A placed portal.
#[derive(Clone, Copy, Debug, PartialEq, Eq)]
pub struct Portal {
    /// Which of the two portals this is.
    pub id: PortalId,
    /// Where the portal stands.
    pub transform: Pose,
    /// The portal it is linked with, if the other portal exists.
    pub pair: Option<PortalHandle>,
    /// The camera that renders what is seen through this portal.
    pub camera: PortalCamera,
}

/// What the opening of a portal is drawn with.
#[derive(Clone, Copy, Debug, PartialEq, Eq)]
pub enum PortalMaterial {
    /// The image its camera renders.
    PortalView,
    /// A flat colour.
    FlatColor(Color),
}

impl Portal {
    /// This portal with its camera moved for a player whose camera is at
    /// `player`, the portal being linked with `exit`: the camera stands
    /// where [`spec_solve_camera`] says, and its near plane is as far from
    /// it as the exit is, as far as the clip range allows. Where the
    /// camera's pose is out of range the portal is left as it is.
    pub open spec fn spec_following(self, exit: Portal, player: Pose) -> Portal {
        match spec_solve_camera(self.transform, exit.transform, player) {
            Some(pose) => Portal {
                camera: PortalCamera {
                    transform: pose.local,
                    projection: self.camera.projection.with_near(
                        exit.transform.translation.spec_distance(pose.world.translation),
                    ),
                    ..self.camera
                },
                ..self
            },
            None => self,
        }
    }

    /// What the opening is drawn with: the camera's image while the portal
    /// is linked, the colour of its identity while it is alone.
    pub open spec fn spec_material(&self) -> PortalMaterial {
        if self.pair is Some {
            PortalMaterial::PortalView
        } else {
            PortalMaterial::FlatColor(self.id.spec_color())
        }
    }

    /// What the opening is drawn with: the camera's image while the portal
    /// is linked, the colour of its identity while it is alone.
    #[verifier::when_used_as_spec(spec_material)]
    pub fn material(&self) -> (material: PortalMaterial)
        ensures
            material == self.spec_material(),
    {
        if self.pair.is_some() {
            PortalMaterial::PortalView
        } else {
            PortalMaterial::FlatColor(self.id.color())
        }
    }
}

/// The portal with its camera moved, and the camera's pose, where the
/// pose is in range.
fn follow(portal: Portal, exit: Portal, player: &Pose) -> (moved: Option<(Portal, CameraPose)>)
    ensures
        moved is Some <==> spec_solve_camera(portal.transform, exit.transform, *player) is Some,
        moved matches Some(m) ==> Some(m.1) == spec_solve_camera(portal.transform, exit.transform, *player)
            && m.0 == portal.spec_following(exit, *player) && m.0.camera.projection.wf(),
        moved matches Some(m) ==> player.translation.spec_distance(portal.transform.translation) - 8
            <= exit.transform.translation.spec_distance(m.1.world.translation)
            <= player.translation.spec_distance(portal.transform.translation),
        moved is None ==> portal.spec_following(exit, *player) == portal,
{
    let pose = match solve_camera(&portal.transform, &exit.transform, player) {
        Some(pose) => pose,
        None => {
            return None;
        },
    };
    proof {
        lemma_camera_is_as_far_as_the_player(portal.transform, exit.transform, *player);
    }
    let distance = exit.transform.translation.distance(pose.world.translation);
    let mut projection = portal.camera.projection;
    projection.set_near(distance);
    Some(
        (Portal { camera: PortalCamera { transform: pose.local, projection, ..portal.camera }, ..portal }, pose),
    )
}

#[derive(Clone, Copy, Debug)]
struct Slot {
    generation: u64,
    portal: Portal,
}

/// The portals that exist, by handle.
#[derive(Debug)]
pub struct PortalRegistry {
    first: Option<Slot>,
    second: Option<Slot>,
    issued: u64,
}

impl Clone for PortalRegistry {
    fn clone(&self) -> (copy: PortalRegistry)
        ensures
            copy == *self,
    {
        proof {
            use_type_invariant(self);
        }
        PortalRegistry { first: self.first, second: self.second, issued: self.issued }
    }
}

impl PortalRegistry {
    spec fn slot(&self, id: PortalId) -> Option<Slot> {
        match id {
            PortalId::A => self.first,
            PortalId::B => self.second,
        }
    }

    spec fn slot_wf(&self, id: PortalId) -> bool {
        self.slot(id) matches Some(s) ==> {
            &&& s.generation < self.issued
            &&& s.portal.id == id
            &&& s.portal.pair == self.slot_handle(id.spec_pair())
            &&& s.portal.camera.is_active == (s.portal.pair is Some)
            &&& s.portal.camera.projection.wf()
            &&& s.portal.transform.spec_is_rigid()
        }
    }

    /// What holds of every registry: each portal has the identity and the
    /// handle it was placed with and stands at a rigid pose, two portals
    /// that exist are linked with each other and a portal alone with
    /// nothing, and a camera renders exactly while its portal is linked,
    /// its near plane within the clip range. The laws at the end of this
    /// file spell it out.
    #[verifier::type_invariant]
    pub closed spec fn wf(&self) -> bool {
        &&& self.slot_wf(PortalId::A)
        &&& self.slot_wf(PortalId::B)
    }

    /// The portals that exist, by handle.
    pub closed spec fn view(&self) -> Map<PortalHandle, Portal> {
        Map::new(
            |h: PortalHandle| self.slot_handle(h.id) == Some(h),
            |h: PortalHandle| self.slot(h.id).unwrap().portal,
        )
    }

    spec fn slot_handle(&self, id: PortalId) -> Option<PortalHandle> {
        match self.slot(id) {
            Some(s) => Some(PortalHandle { id, generation: s.generation }),
            None => None,
        }
    }

    /// The handle of the portal with identity `id`, if one exists.
    pub open spec fn handle_of(&self, id: PortalId) -> Option<PortalHandle> {
        if exists|h: PortalHandle| self@.contains_key(h) && h.id == id {
            Some(choose|h: PortalHandle| self@.contains_key(h) && h.id == id)
        } else {
            None
        }
    }

    proof fn lemma_handle_of(&self, id: PortalId)
        ensures
            self.handle_of(id) == self.slot_handle(id),
    {
        match self.slot_handle(id) {
            Some(h) => {
                assert(self@.contains_key(h) && h.id == id);
            },
            None => {},
        }
    }

    proof fn lemma_handles(&self)
        ensures
            self.handle_of(PortalId::A) == self.slot_handle(PortalId::A),
            self.handle_of(PortalId::B) == self.slot_handle(PortalId::B),
    {
        self.lemma_handle_of(PortalId::A);
        self.lemma_handle_of(PortalId::B);
    }

    /// How many portals were placed so far, those that are gone included.
    pub closed spec fn issued(&self) -> u64 {
        self.issued
    }

    /// The handles of the portals with identity `id`.
    pub open spec fn instances(&self, id: PortalId) -> Set<PortalHandle> {
        Set::new(|h: PortalHandle| self@.contains_key(h) && self@[h].id == id)
    }

    /// A registry without portals.
    pub fn new() -> (registry: PortalRegistry)
        ensures
            registry.wf(),
            registry@ == Map::<PortalHandle, Portal>::empty(),
            registry.issued() == 0,
    {
        let registry = PortalRegistry { first: None, second: None, issued: 0 };
        assert(registry@ =~= Map::<PortalHandle, Portal>::empty());
        registry
    }

    fn slot_of(&self, id: PortalId) -> (slot: Option<Slot>)
        ensures
            slot == self.slot(id),
    {
        match id {
            PortalId::A => self.first,
            PortalId::B => self.second,
        }
    }

    /// What placing a portal does: `self` is the registry before,
    /// `after` the registry after, `spawned` what [`Self::spawn_portal`]
    /// returns.
    ///
    /// Without a display, for a pose that is not rigid, or when the
    /// handles have run out, nothing changes and nothing is returned.
    /// Otherwise the new portal gets the
    /// next handle; a portal of the same identity that existed is gone;
    /// the new portal stands where the request says, is linked with the
    /// portal of the other identity if there is one, and its camera has
    /// the default projection, a target of the size of the display, no
    /// pose of its own yet, and renders exactly if the portal is linked;
    /// the other portal, if there is one, is linked with the new one and
    /// its camera renders. Then exactly one portal has the identity asked
    /// for.
    pub open spec fn spec_spawned(
        &self,
        after: PortalRegistry,
        event: SpawnPortal,
        display: Option<Extent2d>,
        spawned: Option<PortalHandle>,
    ) -> bool {
        &&& spawned is None <==> display is None || self.issued() == u64::MAX || !event.transform.spec_is_rigid()
        &&& spawned is None ==> after == *self
        &&& spawned matches Some(h) ==> {
            &&& h.id == event.portal_kind
            &&& h.generation == self.issued()
            &&& after.issued() == self.issued() + 1
            &&& forall|g: PortalHandle|
                after@.contains_key(g) <==> g == h || (self@.contains_key(g) && g.id != h.id)
            &&& after@[h] == (Portal {
                id: event.portal_kind,
                transform: event.transform,
                pair: self.handle_of(event.portal_kind.spec_pair()),
                camera: PortalCamera {
                    is_active: self.handle_of(event.portal_kind.spec_pair()) is Some,
                    target: display.unwrap(),
                    transform: Pose::spec_identity(),
                    projection: PortalPerspectiveProjection::spec_default(),
                },
            })
            &&& forall|g: PortalHandle|
                self@.contains_key(g) && g.id != h.id ==> after@[g] == (Portal {
                    pair: Some(h),
                    camera: PortalCamera { is_active: true, ..self@[g].camera },
                    ..self@[g]
                })
            &&& after.instances(event.portal_kind) == set![h]
        }
    }

    /// Places a portal. A portal of the same identity that exists is removed
    /// first. If the other portal exists, the two are linked to each other
    /// and both cameras render; otherwise the new portal is alone and its
    /// camera is off. The new camera's target has the size of the display.
    ///
    /// Nothing happens, and `None` is returned, when there is no display,
    /// when the pose asked for is not rigid, or when the registry has run
    /// out of handles.
    pub fn spawn_portal(&mut self, event: SpawnPortal, display: Option<Extent2d>) -> (spawned: Option<PortalHandle>)
        ensures
            final(self).wf(),
            old(self).spec_spawned(*final(self), event, display, spawned),
    {
        proof {
            use_type_invariant(&*self);
            self.lemma_handles();
        }
        let target = match display {
            Some(target) => target,
            None => {
                return None;
            },
        };
        if self.issued == u64::MAX || !event.transform.is_rigid() {
            return None;
        }
        let id = event.portal_kind;
        let generation = self.issued;
        let handle = PortalHandle { id, generation };
        let other = self.slot_of(id.pair());
        let pair = match other {
            Some(s) => Some(PortalHandle { id: id.pair(), generation: s.generation }),
            None => None,
        };
        let portal = Portal {
            id,
            transform: event.transform,
            pair,
            camera: PortalCamera {
                is_active: pair.is_some(),
                target,
                transform: Pose::identity(),
                projection: PortalPerspectiveProjection::default(),
            },
        };
        let placed = Some(Slot { generation, portal });
        let linked = match other {
            Some(s) => Some(
                Slot {
                    generation: s.generation,
                    portal: Portal {
                        pair: Some(handle),
                        camera: PortalCamera { is_active: true, ..s.portal.camera },
                        ..s.portal
                    },
                },
            ),
            None => None,
        };
        *self = match id {
            PortalId::A => PortalRegistry { first: placed, second: linked, issued: generation + 1 },
            PortalId::B => PortalRegistry { first: linked, second: placed, issued: generation + 1 },
        };
        assert(self.instances(id) =~= set![handle]);
        Some(handle)
    }

    /// A shot and what follows from it, in one step: the request that
    /// [`shoot_portal`] makes of the shot, if it makes one, is carried out
    /// as [`Self::spawn_portal`] does. Without a request nothing changes.
    pub fn shoot(
        &mut self,
        controls: &Controls,
        ray: &Ray,
        max_distance: u32,
        surfaces: &Vec<PortalSurface>,
        display: Option<Extent2d>,
    ) -> (spawned: Option<PortalHandle>)
        ensures
            final(self).wf(),
            (match spec_shoot_portal(*controls, *ray, max_distance, surfaces@) {
                Some(event) => old(self).spec_spawned(*final(self), event, display, spawned),
                None => spawned is None && *final(self) == *old(self),
            }),
    {
        match shoot_portal(controls, ray, max_distance, surfaces) {
            Some(event) => self.spawn_portal(event, display),
            None => {
                proof {
                    use_type_invariant(&*self);
                }
                None
            },
        }
    }

    /// Removes the portal that `handle` names. The other portal, if there
    /// is one, is left without a link and its camera stops rendering.
    /// Returns the portal that was removed, or `None`, with nothing
    /// changed, when `handle` names no portal.
    pub fn despawn(&mut self, handle: PortalHandle) -> (removed: Option<Portal>)
        ensures
            final(self).wf(),
            final(self).issued() == old(self).issued(),
            removed == (if old(self)@.contains_key(handle) {
                Some(old(self)@[handle])
            } else {
                None
            }),
            removed is None ==> *final(self) == *old(self),
            removed is Some ==> {
                &&& forall|g: PortalHandle|
                    final(self)@.contains_key(g) <==> old(self)@.contains_key(g) && g != handle
                &&& forall|g: PortalHandle|
                    old(self)@.contains_key(g) && g != handle ==> final(self)@[g] == (Portal {
                        pair: None,
                        camera: PortalCamera { is_active: false, ..old(self)@[g].camera },
                        ..old(self)@[g]
                    })
            },
    {
        proof {
            use_type_invariant(&*self);
            self.lemma_handles();
        }
        let slot = match self.slot_of(handle.id) {
            Some(slot) => slot,
            None => {
                return None;
            },
        };
        if slot.generation != handle.generation {
            return None;
        }
        let unlinked = match self.slot_of(handle.id.pair()) {
            Some(s) => Some(
                Slot {
                    generation: s.generation,
                    portal: Portal {
                        pair: None,
                        camera: PortalCamera { is_active: false, ..s.portal.camera },
                        ..s.portal
                    },
                },
            ),
            None => None,
        };
        *self = match handle.id {
            PortalId::A => PortalRegistry { first: None, second: unlinked, issued: self.issued },
            PortalId::B => PortalRegistry { first: unlinked, second: None, issued: self.issued },
        };
        Some(slot.portal)
    }

    /// Removes every portal.
    pub fn remove_all(&mut self)
        ensures
            final(self).wf(),
            final(self)@ == Map::<PortalHandle, Portal>::empty(),
            final(self).issued() == old(self).issued(),
    {
        proof {
            use_type_invariant(&*self);
            self.lemma_handles();
        }
        *self = PortalRegistry { first: None, second: None, issued: self.issued };
        assert(self@ =~= Map::<PortalHandle, Portal>::empty());
    }

    /// Gives every camera's target the size of the display. Without a
    /// display nothing changes.
    pub fn resize_portal_view_image(&mut self, display: Option<Extent2d>)
        ensures
            final(self).wf(),
            final(self).issued() == old(self).issued(),
            display is None ==> *final(self) == *old(self),
            forall|g: PortalHandle| final(self)@.contains_key(g) <==> old(self)@.contains_key(g),
            display matches Some(size) ==> forall|g: PortalHandle|
                old(self)@.contains_key(g) ==> final(self)@[g] == (Portal {
                    camera: PortalCamera { target: size, ..old(self)@[g].camera },
                    ..old(self)@[g]
                }),
    {
        proof {
            use_type_invariant(&*self);
            self.lemma_handles();
        }
        let size = match display {
            Some(size) => size,
            None => {
                return ;
            },
        };
        let first = match self.first {
            Some(s) => Some(
                Slot {
                    generation: s.generation,
                    portal: Portal { camera: PortalCamera { target: size, ..s.portal.camera }, ..s.portal },
                },
            ),
            None => None,
        };
        let second = match self.second {
            Some(s) => Some(
                Slot {
                    generation: s.generation,
                    portal: Portal { camera: PortalCamera { target: size, ..s.portal.camera }, ..s.portal },
                },
            ),
            None => None,
        };
        *self = PortalRegistry { first, second, issued: self.issued };
    }

    /// Moves the camera of a linked portal for a player whose camera is at
    /// `player`. The camera goes where [`solve_camera`] says, for the
    /// portal as entrance and the portal it is linked with as exit, and
    /// its near plane goes to the exit: to the distance from the exit to
    /// the camera, held to the camera's clip range. That distance is the
    /// player's distance from the portal, at most eight steps less.
    ///
    /// Returns the camera's pose. Nothing changes, and `None` is returned,
    /// when `handle` names no linked portal or when the pose is out of
    /// range.
    pub fn move_portal_camera(&mut self, handle: PortalHandle, player: &Pose) -> (moved: Option<CameraPose>)
        ensures
            final(self).wf(),
            final(self).issued() == old(self).issued(),
            moved == (if old(self)@.contains_key(handle) && old(self)@[handle].pair is Some {
                spec_solve_camera(
                    old(self)@[handle].transform,
                    old(self)@[old(self)@[handle].pair.unwrap()].transform,
                    *player,
                )
            } else {
                None
            }),
            moved is None ==> *final(self) == *old(self),
            forall|g: PortalHandle| final(self)@.contains_key(g) <==> old(self)@.contains_key(g),
            forall|g: PortalHandle|
                old(self)@.contains_key(g) && g != handle ==> final(self)@[g] == old(self)@[g],
            moved matches Some(pose) ==> {
                let exit = old(self)@[old(self)@[handle].pair.unwrap()];
                let distance = exit.transform.translation.spec_distance(pose.world.translation);
                let before = old(self)@[handle].camera.projection;
                let after = final(self)@[handle].camera.projection;
                &&& final(self)@[handle] == old(self)@[handle].spec_following(exit, *player)
                &&& final(self)@[handle] == (Portal {
                    camera: PortalCamera {
                        transform: pose.local,
                        projection: before.with_near(distance),
                        ..old(self)@[handle].camera
                    },
                    ..old(self)@[handle]
                })
                &&& after.spec_far() == before.spec_far()
                &&& after.spec_near() == clamp_near(distance, before.spec_far() as int)
                &&& NEAR_CLIP_MIN <= after.spec_near() <= after.spec_far()
                &&& player.translation.spec_distance(old(self)@[handle].transform.translation) - 8 <= distance
                    <= player.translation.spec_distance(old(self)@[handle].transform.translation)
            },
    {
        proof {
            use_type_invariant(&*self);
            self.lemma_handles();
        }
        let slot = match self.slot_of(handle.id) {
            Some(slot) => slot,
            None => {
                return None;
            },
        };
        if slot.generation != handle.generation {
            return None;
        }
        let exit = match self.slot_of(handle.id.pair()) {
            Some(exit) => exit,
            None => {
                return None;
            },
        };
        let (portal, pose) = match follow(slot.portal, exit.portal, player) {
            Some(moved) => moved,
            None => {
                return None;
            },
        };
        proof {
            lemma_near_plane_in_range(
                slot.portal.camera.projection,
                exit.portal.transform.translation.spec_distance(pose.world.translation),
            );
        }
        let moved = Some(Slot { generation: slot.generation, portal });
        *self = match handle.id {
            PortalId::A => PortalRegistry { first: moved, second: self.second, issued: self.issued },
            PortalId::B => PortalRegistry { first: self.first, second: moved, issued: self.issued },
        };
        Some(pose)
    }

    /// Moves the camera of every linked portal for a player whose camera is
    /// at `player`, each as [`Self::move_portal_camera`] does. Portals
    /// that are alone, and cameras whose pose would be out of range, stay
    /// as they are.
    pub fn move_portal_cameras(&mut self, player: &Pose)
        ensures
            final(self).wf(),
            final(self).issued() == old(self).issued(),
            forall|g: PortalHandle| final(self)@.contains_key(g) <==> old(self)@.contains_key(g),
            forall|g: PortalHandle|
                old(self)@.contains_key(g) ==> final(self)@[g] == (match old(self)@[g].pair {
                    Some(pair) => old(self)@[g].spec_following(old(self)@[pair], *player),
                    None => old(self)@[g],
                }),
    {
        proof {
            use_type_invariant(&*self);
            self.lemma_handles();
        }
        let (first, second) = match (self.first, self.second) {
            (Some(first), Some(second)) => (first, second),
            _ => {
                return ;
            },
        };
        let moved_first = match follow(first.portal, second.portal, player) {
            Some(moved) => Slot { generation: first.generation, portal: moved.0 },
            None => first,
        };
        let moved_second = match follow(second.portal, first.portal, player) {
            Some(moved) => Slot { generation: second.generation, portal: moved.0 },
            None => second,
        };
        *self = PortalRegistry { first: Some(moved_first), second: Some(moved_second), issued: self.issued };
    }

    /// The portal that `handle` names, if it exists.
    pub fn get(&self, handle: PortalHandle) -> (portal: Option<Portal>)
        ensures
            portal == (if self@.contains_key(handle) {
                Some(self@[handle])
            } else {
                None
            }),
    {
        match self.slot_of(handle.id) {
            Some(slot) => if slot.generation == handle.generation {
                Some(slot.portal)
            } else {
                None
            },
            None => None,
        }
    }

    /// Whether `handle` names a portal that exists.
    pub fn contains(&self, handle: PortalHandle) -> (live: bool)
        ensures
            live == self@.contains_key(handle),
    {
        self.get(handle).is_some()
    }

    /// The handle of the portal with identity `id`, if it exists.
    pub fn find(&self, id: PortalId) -> (handle: Option<PortalHandle>)
        ensures
            handle == self.handle_of(id),
            handle matches Some(h) ==> self@.contains_key(h) && self@[h].id == id && h.id == id,
            handle is None ==> forall|g: PortalHandle| self@.contains_key(g) ==> self@[g].id != id,
    {
        proof {
            use_type_invariant(self);
            self.lemma_handles();
        }
        match self.slot_of(id) {
            Some(slot) => Some(PortalHandle { id, generation: slot.generation }),
            None => None,
        }
    }

    /// The portal that the portal `handle` is linked with: `None` when
    /// `handle` names no portal or names one that is alone.
    pub fn pair_of(&self, handle: PortalHandle) -> (pair: Option<PortalHandle>)
        ensures
            pair == (if self@.contains_key(handle) {
                self@[handle].pair
            } else {
                None
            }),
    {
        match self.get(handle) {
            Some(portal) => portal.pair,
            None => None,
        }
    }

    /// How many portals exist.
    pub fn len(&self) -> (count: usize)
        ensures
            count == self@.dom().len(),
            count <= 2,
    {
        proof {
            self.lemma_handles();
            self.lemma_domain();
        }
        let mut count: usize = 0;
        if self.first.is_some() {
            count = count + 1;
        }
        if self.second.is_some() {
            count = count + 1;
        }
        count
    }

    /// The handles of the portals that exist: the first identity's before
    /// the second's.
    pub fn handles(&self) -> (handles: Vec<PortalHandle>)
        ensures
            handles@ == self.handle_seq(),
            forall|g: PortalHandle| handles@.contains(g) <==> self@.contains_key(g),
            handles@.no_duplicates(),
    {
        let mut handles: Vec<PortalHandle> = Vec::new();
        if let Some(h) = self.find(PortalId::A) {
            handles.push(h);
        }
        if let Some(h) = self.find(PortalId::B) {
            handles.push(h);
        }
        proof {
            self.lemma_handles();
            assert(handles@ =~= self.handle_seq());
            self.lemma_handle_seq();
        }
        handles
    }

    /// The handles of the portals that exist: the first identity's before
    /// the second's.
    pub open spec fn handle_seq(&self) -> Seq<PortalHandle> {
        let first = match self.handle_of(PortalId::A) {
            Some(h) => seq![h],
            None => Seq::<PortalHandle>::empty(),
        };
        match self.handle_of(PortalId::B) {
            Some(h) => first.push(h),
            None => first,
        }
    }

    /// `handle_seq` lists the handles of the portals that exist, each once.
    pub proof fn lemma_handle_seq(&self)
        ensures
            forall|g: PortalHandle| self.handle_seq().contains(g) <==> self@.contains_key(g),
            self.handle_seq().no_duplicates(),
    {
        self.lemma_handles();
        let s = self.handle_seq();
        assert forall|g: PortalHandle| s.contains(g) <==> self@.contains_key(g) by {
            if self@.contains_key(g) {
                match g.id {
                    PortalId::A => {
                        assert(s[0] == g);
                    },
                    PortalId::B => {
                        assert(s[s.len() - 1] == g);
                    },
                }
            }
        }
    }

    /// The portals that exist are those that `handle_of` gives for the two
    /// identities, so there are as many as identities that have one.
    pub proof fn lemma_domain(&self)
        ensures
            self@.dom().finite(),
            self@.dom().len() == (if self.handle_of(PortalId::A) is Some { 1nat } else { 0nat })
                + (if self.handle_of(PortalId::B) is Some { 1nat } else { 0nat }),
            forall|g: PortalHandle| self@.contains_key(g) <==> self.handle_of(g.id) == Some(g),
    {
        self.lemma_handles();
        let a = match self.handle_of(PortalId::A) {
            Some(h) => set![h],
            None => Set::<PortalHandle>::empty(),
        };
        let dom = match self.handle_of(PortalId::B) {
            Some(h) => a.insert(h),
            None => a,
        };
        assert(self@.dom() =~= dom);
    }
}

impl PortalRegistry {
    /// Links are mutual: the portal that a portal is linked with exists, is
    /// the portal of the other identity, and is linked back.
    pub proof fn lemma_pairing_is_mutual(&self, x: PortalHandle, y: PortalHandle)
        requires
            self.wf(),
            self@.contains_key(x),
            self@[x].pair == Some(y),
        ensures
            self@.contains_key(y),
            self@[y].pair == Some(x),
            self@[y].id == self@[x].id.spec_pair(),
            x != y,
    {
    }

    /// No two portals have the same identity.
    pub proof fn lemma_one_portal_per_identity(&self, x: PortalHandle, y: PortalHandle)
        requires
            self.wf(),
            self@.contains_key(x),
            self@.contains_key(y),
            self@[x].id == self@[y].id,
        ensures
            x == y,
    {
    }

    /// Two portals that exist together are linked with each other.
    pub proof fn lemma_linked_when_both_exist(&self, x: PortalHandle, y: PortalHandle)
        requires
            self.wf(),
            self@.contains_key(x),
            self@.contains_key(y),
            x != y,
        ensures
            self@[x].pair == Some(y),
            self@[y].pair == Some(x),
    {
    }

    /// Of a portal that exists: its handle carries its identity and was
    /// given out by this registry, it is linked with the portal of the
    /// other identity or, if there is none, with nothing, and its camera
    /// renders exactly while it is linked, with a near plane within the
    /// clip range.
    pub proof fn lemma_portal(&self, x: PortalHandle)
        requires
            self.wf(),
            self@.contains_key(x),
        ensures
            self@[x].id == x.id,
            x.generation < self.issued(),
            self@[x].pair == self.handle_of(x.id.spec_pair()),
            self@[x].camera.is_active == (self@[x].pair is Some),
            self@[x].camera.projection.wf(),
            self@[x].transform.spec_is_rigid(),
            NEAR_CLIP_MIN <= self@[x].camera.projection.spec_near()
                <= self@[x].camera.projection.spec_far(),
    {
        self.lemma_handles();
        lemma_clip_range(self@[x].camera.projection);
    }

    /// There is at most one portal of each identity: the one that
    /// `handle_of` gives, if it gives one.
    pub proof fn lemma_instances(&self, id: PortalId)
        requires
            self.wf(),
        ensures
            self.instances(id).finite(),
            self.instances(id).len() <= 1,
            self.handle_of(id) matches Some(h) ==> self.instances(id) == set![h],
            self.handle_of(id) is None ==> self.instances(id) == Set::<PortalHandle>::empty(),
    {
        self.lemma_handles();
        match self.handle_of(id) {
            Some(h) => {
                assert(self.instances(id) =~= set![h]);
            },
            None => {
                assert(self.instances(id) =~= Set::<PortalHandle>::empty());
            },
        }
    }
}

/// Removes every portal if the player asks for it, and says whether the
/// player did. Otherwise nothing changes.
pub fn remove_portals(controls: &Controls, registry: &mut PortalRegistry) -> (removed: bool)
    ensures
        removed == controls.remove_portals,
        final(registry).wf(),
        final(registry).issued() == old(registry).issued(),
        controls.remove_portals ==> final(registry)@ == Map::<PortalHandle, Portal>::empty(),
        !controls.remove_portals ==> *final(registry) == *old(registry),
{
    if controls.remove_portals {
        registry.remove_all();
        true
    } else {
        proof {
            use_type_invariant(&*registry);
        }
        false
    }
}

} // verus!
