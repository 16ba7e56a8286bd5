//! What the commander holds: a structure to build, a strike to call, the hovered cell, the
//! selected structure, and a structure picked up to move.

use vstd::prelude::*;
use crate::defs::{BuildKind, StrikeKind};
use crate::grid::Grid;
use crate::placement::PlaceError;

verus! {

#[derive(Clone, Copy, Debug)]
pub struct Hand {
    pub build: BuildKind,
    pub strike: StrikeKind,
    pub hover: Option<(i32, i32)>,
    pub selected: Option<u32>,
    pub lift: Option<u32>,
}

impl Hand {
    /// An empty hand: inspecting, nothing armed, hovered, selected or lifted.
    pub open spec fn empty() -> Hand {
        Hand {
            build: BuildKind::Inspect,
            strike: StrikeKind::Unarmed,
            hover: None,
            selected: None,
            lift: None,
        }
    }

    /// The hand holds something that a cancel drops.
    pub open spec fn is_busy(self) -> bool {
        self.build != BuildKind::Inspect || self.strike != StrikeKind::Unarmed || self.selected
            is Some || self.lift is Some
    }

    pub fn fresh() -> (r: Hand)
        ensures
            r == Hand::empty(),
    {
        Hand {
            build: BuildKind::Inspect,
            strike: StrikeKind::Unarmed,
            hover: None,
            selected: None,
            lift: None,
        }
    }

    /// Takes up the buildable with wire code `kind` and drops any lifted structure; taking
    /// up a structure also clears the selection and disarms the strike.
    pub fn set_build(&mut self, kind: u8)
        ensures
            final(self).build == BuildKind::decoded(kind),
            final(self).lift is None,
            final(self).hover == old(self).hover,
            BuildKind::decoded(kind) != BuildKind::Inspect ==> final(self).selected is None
                && final(self).strike == StrikeKind::Unarmed,
            BuildKind::decoded(kind) == BuildKind::Inspect ==> final(self).selected == old(
                self,
            ).selected && final(self).strike == old(self).strike,
    {
        self.build = BuildKind::from_u8(kind);
        self.lift = None;
        if self.build.is_structure() {
            self.selected = None;
            self.strike = StrikeKind::Unarmed;
        }
    }

    /// Arms the strike with wire code `kind`; arming one puts down the buildable and drops
    /// the selection and any lifted structure.
    pub fn set_strike(&mut self, kind: u8)
        ensures
            final(self).strike == StrikeKind::decoded(kind),
            final(self).hover == old(self).hover,
            StrikeKind::decoded(kind) != StrikeKind::Unarmed ==> final(self).build
                == BuildKind::Inspect && final(self).selected is None && final(self).lift is None,
            StrikeKind::decoded(kind) == StrikeKind::Unarmed ==> final(self).build == old(
                self,
            ).build && final(self).selected == old(self).selected && final(self).lift == old(
                self,
            ).lift,
    {
        self.strike = StrikeKind::from_u8(kind);
        if self.strike != StrikeKind::Unarmed {
            self.build = BuildKind::Inspect;
            self.selected = None;
            self.lift = None;
        }
    }

    /// Hovers over `(x, y)`, or over nothing when the cell is off the grid.
    pub fn set_hover(&mut self, grid: &Grid, x: i32, y: i32)
        ensures
            final(self).hover == if grid.inside(x as int, y as int) {
                Some((x, y))
            } else {
                None::<(i32, i32)>
            },
            final(self).build == old(self).build,
            final(self).strike == old(self).strike,
            final(self).selected == old(self).selected,
            final(self).lift == old(self).lift,
    {
        self.hover = if grid.in_bounds(x, y) {
            Some((x, y))
        } else {
            None
        };
    }

    pub fn clear_hover(&mut self)
        ensures
            *final(self) == (Hand { hover: None, ..*old(self) }),
    {
        self.hover = None;
    }

    /// Empties the hand; says whether it held anything to drop.
    pub fn cancel(&mut self) -> (busy: bool)
        ensures
            *final(self) == Hand::empty(),
            busy == old(self).is_busy(),
    {
        let busy = self.build.is_structure() || self.strike != StrikeKind::Unarmed
            || self.selected.is_some() || self.lift.is_some();
        *self = Hand::fresh();
        busy
    }

    /// What a click on a cell does with this hand: off the grid it drops the selection; a
    /// lifted structure is set down there; an armed strike is called there; a structure in
    /// hand is built there; otherwise the cell's structure is selected.
    pub open spec fn click_action_of(self, inside: bool) -> ClickAction {
        if !inside {
            ClickAction::Deselect
        } else if self.lift is Some {
            ClickAction::Relocate(self.lift->0)
        } else if self.strike != StrikeKind::Unarmed {
            ClickAction::Strike(self.strike)
        } else if self.build != BuildKind::Inspect {
            ClickAction::Place(self.build)
        } else {
            ClickAction::Select
        }
    }

    pub fn click_action(&self, inside: bool) -> (r: ClickAction)
        ensures
            r == self.click_action_of(inside),
    {
        if !inside {
            return ClickAction::Deselect;
        }
        if let Some(id) = self.lift {
            return ClickAction::Relocate(id);
        }
        if self.strike != StrikeKind::Unarmed {
            return ClickAction::Strike(self.strike);
        }
        if self.build.is_structure() {
            return ClickAction::Place(self.build);
        }
        ClickAction::Select
    }

    /// After trying to set a lifted structure down: a move that went through, or one whose
    /// structure is gone, ends the lift; any other refusal keeps it in hand.
    pub fn after_move(&mut self, result: Result<(), PlaceError>)
        ensures
            *final(self) == (if result is Ok || result == Err::<(), PlaceError>(PlaceError::NothingToMove) {
                Hand { lift: None, ..*old(self) }
            } else {
                *old(self)
            }),
    {
        match result {
            Ok(()) => self.lift = None,
            Err(e) => {
                if e == PlaceError::NothingToMove {
                    self.lift = None;
                }
            },
        }
    }

    /// The lift order: a pending move is cancelled (`Ok(false)`); otherwise the selected
    /// structure, when `standing` says it still stands, is picked up (`Ok(true)`), putting
    /// down the buildable and disarming the strike.
    pub fn toggle_lift(&mut self, standing: bool) -> (r: Result<bool, PlaceError>)
        ensures
            old(self).lift is Some ==> r == Ok::<bool, PlaceError>(false) && *final(self) == (Hand {
                lift: None,
                ..*old(self)
            }),
            old(self).lift is None && (old(self).selected is None || !standing) ==> r == Err::<
                bool,
                PlaceError,
            >(PlaceError::NothingToMove) && *final(self) == *old(self),
            old(self).lift is None && old(self).selected is Some && standing ==> r == Ok::<
                bool,
                PlaceError,
            >(true) && *final(self) == (Hand {
                build: BuildKind::Inspect,
                strike: StrikeKind::Unarmed,
                lift: old(self).selected,
                ..*old(self)
            }),
    {
        if self.lift.is_some() {
            self.lift = None;
            return Ok(false);
        }
        let id = match self.selected {
            Some(id) => id,
            None => {
                return Err(PlaceError::NothingToMove);
            },
        };
        if !standing {
            return Err(PlaceError::NothingToMove);
        }
        self.build = BuildKind::Inspect;
        self.strike = StrikeKind::Unarmed;
        self.lift = Some(id);
        Ok(true)
    }

    /// Forgets a structure that is gone: it is no longer selected or lifted.
    pub fn forget(&mut self, id: u32)
        ensures
            final(self).selected == (if old(self).selected == Some(id) {
                None
            } else {
                old(self).selected
            }),
            final(self).lift == (if old(self).lift == Some(id) {
                None
            } else {
                old(self).lift
            }),
            final(self).build == old(self).build,
            final(self).strike == old(self).strike,
            final(self).hover == old(self).hover,
    {
        if self.selected == Some(id) {
            self.selected = None;
        }
        if self.lift == Some(id) {
            self.lift = None;
        }
    }
}

/// What a click on a cell does.
#[derive(Clone, Copy, Debug, PartialEq, Eq, Structural)]
pub enum ClickAction {
    Deselect,
    Relocate(u32),
    Strike(StrikeKind),
    Place(BuildKind),
    Select,
}

} // verus!
