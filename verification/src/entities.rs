use crate::fixed::{normalize_angle, normalized, PI, TWO_PI};
use vstd::prelude::*;

verus! {

/// What kind of thing an entity is.
#[derive(Clone, Copy, Debug, PartialEq, Eq, Structural)]
pub enum EntityType {
    /// Controlled by a player.
    Player,
    /// Alive, but not controlled by a player.
    Living,
    /// An object or a pickup: it does not move and looks nowhere.
    NoneLiving,
}

/// Anything that stands somewhere in the world and can look at it.
pub trait Entity {
    /// The kind of the entity.
    fn get_type(&self) -> EntityType;

    /// Where the entity stands, in fixed-point cells.
    fn position(&self) -> (i64, i64);

    /// The angle the entity faces, in fixed-point radians.
    fn direction(&self) -> i64;

    /// The width of the entity's field of view, in fixed-point radians.
    fn get_fov(&self) -> i64;
}

/// What an observer is at one moment: where it stands, the angle it faces
/// and how wide it sees. The facing angle lies in `[0, TWO_PI)` and the
/// field of view in `(0, PI)`.
#[derive(Clone, Copy, Debug)]
pub struct ObserverState {
    position: (i64, i64),
    direction: i64,
    fov: i64,
}

/// Whether `fov` is a width that a field of view can have.
pub open spec fn valid_fov(fov: int) -> bool {
    0 < fov < PI
}

/// Whether `state` is the observer made of these values: none if `fov` is
/// no width that a field of view can have, and else the observer at
/// `position` that sees `fov` wide and faces `direction`, brought into
/// `[0, TWO_PI)` by whole turns.
pub open spec fn state_of(
    position: (i64, i64),
    direction: int,
    fov: int,
    state: Option<ObserverState>,
) -> bool {
    &&& state is Some <==> valid_fov(fov)
    &&& state is Some ==> {
        let o = state->Some_0;
        &&& o.wf()
        &&& o.position_spec() == position
        &&& o.direction_spec() == normalized(direction)
        &&& o.fov_spec() == fov
    }
}

/// Whether `state` is one in which `entity` can be observed: the observer
/// made of a position, a facing angle and a field of view that the
/// entity's own methods can give for it.
pub open spec fn observed<E: Entity>(entity: &E, state: Option<ObserverState>) -> bool {
    exists|p: (i64, i64), d: i64, f: i64|
        #![trigger
            call_ensures(E::position, (entity,), p),
            call_ensures(E::direction, (entity,), d),
            call_ensures(E::get_fov, (entity,), f)
        ]
        {
            &&& call_ensures(E::position, (entity,), p)
            &&& call_ensures(E::direction, (entity,), d)
            &&& call_ensures(E::get_fov, (entity,), f)
            &&& state_of(p, d as int, f as int, state)
        }
}

impl ObserverState {
    /// The facing angle lies within one turn, and the field of view is one
    /// that an observer can have.
    #[verifier::type_invariant]
    pub closed spec fn wf(&self) -> bool {
        0 <= self.direction < TWO_PI && valid_fov(self.fov as int)
    }

    /// Where the observer stands.
    pub closed spec fn position_spec(&self) -> (i64, i64) {
        self.position
    }

    /// The angle the observer faces.
    pub closed spec fn direction_spec(&self) -> int {
        self.direction as int
    }

    /// The width of the observer's field of view.
    pub closed spec fn fov_spec(&self) -> int {
        self.fov as int
    }

    /// What validity says of an observer.
    pub proof fn lemma_bounds(&self)
        requires
            self.wf(),
        ensures
            0 <= self.direction_spec() < TWO_PI,
            valid_fov(self.fov_spec()),
    {
    }

    /// The observer at `position` that faces `direction` and sees `fov`
    /// wide. The facing angle is brought into `[0, TWO_PI)` by whole turns.
    /// There is no observer with a field of view outside `(0, PI)`.
    pub fn new(position: (i64, i64), direction: i64, fov: i64) -> (r: Option<ObserverState>)
        ensures
            r is Some <==> valid_fov(fov as int),
            r is Some ==> {
                let o = r->Some_0;
                &&& o.wf()
                &&& o.position_spec() == position
                &&& o.direction_spec() == normalized(direction as int)
                &&& o.fov_spec() == fov
            },
    {
        if 0 < fov && fov < PI {
            Some(ObserverState { position, direction: normalize_angle(direction), fov })
        } else {
            None
        }
    }

    /// The state of `entity` at this moment: the observer made of the
    /// position, the facing angle and the field of view that the entity
    /// gives, if that field of view is one that an observer can have.
    pub fn observe<E: Entity>(entity: &E) -> (r: Option<ObserverState>)
        ensures
            observed(entity, r),
            r is Some ==> r->Some_0.wf(),
    {
        let p = entity.position();
        let d = entity.direction();
        let f = entity.get_fov();
        let r = ObserverState::new(p, d, f);
        assert(state_of(p, d as int, f as int, r));
        r
    }

    /// Where the observer stands.
    pub fn position(&self) -> (p: (i64, i64))
        ensures
            p == self.position_spec(),
    {
        self.position
    }

    /// The angle the observer faces.
    pub fn direction(&self) -> (d: i64)
        ensures
            d == self.direction_spec(),
            0 <= d < TWO_PI,
    {
        proof {
            use_type_invariant(self);
        }
        self.direction
    }

    /// The width of the observer's field of view.
    pub fn fov(&self) -> (f: i64)
        ensures
            f == self.fov_spec(),
            valid_fov(f as int),
    {
        proof {
            use_type_invariant(self);
        }
        self.fov
    }
}

} // verus!
