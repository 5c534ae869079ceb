//! Scoped belief: the canonical state machine, cells, and views.

pub mod cell;
pub mod state;
pub mod view;

pub use self::cell::{BeliefCell, Transition, TransitionError};
pub use self::state::{
    transition, transition_table, BeliefEvent, BeliefState, EventKind, InvalidTransition, NarrowReason,
    QuarantineReason, RemovalBasis, RevocationEvent, RevocationSupport, RevocationTarget, SuspicionBasis,
};
pub use self::view::MembershipView;
