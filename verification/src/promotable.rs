//! The promotion overlay: once a move that needs a role choice is committed,
//! this sub-state machine owns the pointer until a candidate role is picked
//! or the choice is cancelled.

use vstd::prelude::*;

use crate::board::{LegalMove, LegalMoveSet, Role, Square};

verus! {

/// A pending promotion: the committed origin and destination of the move,
/// and the candidate role the pointer currently hovers.
#[derive(Clone, Copy, PartialEq, Eq, Structural, Debug)]
pub struct Promoting {
    pub orig: Square,
    pub dest: Square,
    pub hover: Option<Role>,
}

/// The candidate role drawn on `sq` while `p` is pending: the overlay lists
/// queen, rook, bishop and knight down the destination file, starting at the
/// destination square and growing toward the board center.
pub open spec fn spec_role_at(p: Promoting, sq: Square) -> Option<Role> {
    if sq.file == p.dest.file {
        let off: int = if p.dest.rank >= 4 {
            p.dest.rank - sq.rank
        } else {
            sq.rank - p.dest.rank
        };
        if off == 0 {
            Some(Role::Queen)
        } else if off == 1 {
            Some(Role::Rook)
        } else if off == 2 {
            Some(Role::Bishop)
        } else if off == 3 {
            Some(Role::Knight)
        } else {
            None
        }
    } else {
        None
    }
}

/// The move a pointer-down at `square` commits while `p` is pending: the
/// hovered candidate role, but only when the externally supplied legal-move
/// list holds exactly that promotion.
pub open spec fn spec_promotion_pick(
    p: Promoting,
    legals: Seq<LegalMove>,
    square: Option<Square>,
) -> Option<(Square, Square, Role)> {
    match square {
        Some(sq) => match spec_role_at(p, sq) {
            Some(role) => if legals.contains(
                LegalMove { from: p.orig, to: p.dest, promotion: Some(role) },
            ) {
                Some((p.orig, p.dest, role))
            } else {
                None
            },
            None => None,
        },
        None => None,
    }
}

/// The promotion overlay state.
pub struct Promotable {
    promoting: Option<Promoting>,
}

impl Promotable {
    /// The pending promotion, if any.
    pub closed spec fn pending(&self) -> Option<Promoting> {
        self.promoting
    }

    /// Any pending promotion names real squares.
    pub open spec fn wf(&self) -> bool {
        match self.pending() {
            Some(p) => p.orig.wf() && p.dest.wf(),
            None => true,
        }
    }

    /// No promotion pending.
    pub fn new() -> (r: Promotable)
        ensures
            r.pending() is None,
            r.wf(),
    {
        Promotable { promoting: None }
    }

    /// Whether a promotion choice is open.
    pub fn is_pending(&self) -> (r: bool)
        ensures
            r == self.pending() is Some,
    {
        self.promoting.is_some()
    }

    /// Whether the overlay covers `sq`, so the figurines there must be
    /// suppressed.
    pub fn is_promoting(&self, sq: Square) -> (r: bool)
        ensures
            r == match self.pending() {
                Some(p) => p.orig == sq || p.dest == sq,
                None => false,
            },
    {
        match &self.promoting {
            Some(p) => p.orig == sq || p.dest == sq,
            None => false,
        }
    }

    /// The squares the overlay hides, for the renderer.
    pub fn hide_squares(&self) -> (r: Option<(Square, Square)>)
        ensures
            r == match self.pending() {
                Some(p) => Some((p.orig, p.dest)),
                None => None::<(Square, Square)>,
            },
    {
        match &self.promoting {
            Some(p) => Some((p.orig, p.dest)),
            None => None,
        }
    }

    /// Open the overlay for the committed move `orig` to `dest`.
    pub fn start_promoting(&mut self, orig: Square, dest: Square)
        requires
            orig.wf(),
            dest.wf(),
        ensures
            final(self).pending() == Some(Promoting { orig, dest, hover: None }),
            final(self).wf(),
    {
        self.promoting = Some(Promoting { orig, dest, hover: None });
    }

    /// Track the pointer over the overlay's role options. Returns whether
    /// the overlay consumed the event.
    pub fn mouse_move(&mut self, square: Option<Square>) -> (handled: bool)
        requires
            old(self).wf(),
        ensures
            final(self).wf(),
            handled == old(self).pending() is Some,
            final(self).pending() == match old(self).pending() {
                Some(p) => Some(
                    Promoting {
                        hover: match square {
                            Some(sq) => spec_role_at(p, sq),
                            None => None,
                        },
                        ..p
                    },
                ),
                None => None::<Promoting>,
            },
    {
        match self.promoting {
            Some(p) => {
                let hover = match square {
                    Some(sq) => role_at(p, sq),
                    None => None,
                };
                self.promoting = Some(Promoting { hover, ..p });
                true
            },
            None => false,
        }
    }

    /// Handle a pointer-down while the overlay is open: a click on a role
    /// option commits the promotion (only if that exact promotion is legal),
    /// any other click cancels it; either way the overlay closes. Returns
    /// whether the overlay consumed the event and the committed move, if any.
    pub fn mouse_down(&mut self, legals: &LegalMoveSet, square: Option<Square>) -> (r: (
        bool,
        Option<(Square, Square, Role)>,
    ))
        requires
            old(self).wf(),
        ensures
            final(self).wf(),
            r.0 == old(self).pending() is Some,
            old(self).pending() is None ==> final(self).pending() == old(self).pending() && r.1
                is None,
            old(self).pending() matches Some(p) ==> final(self).pending() is None && r.1
                == spec_promotion_pick(p, legals@, square),
            r.1 matches Some((o, d, role)) ==> legals@.contains(
                LegalMove { from: o, to: d, promotion: Some(role) },
            ),
    {
        match self.promoting {
            Some(p) => {
                self.promoting = None;
                let pick: Option<(Square, Square, Role)> = match square {
                    Some(sq) => match role_at(p, sq) {
                        Some(role) => {
                            if legals.contains_entry(p.orig, p.dest, Some(role)) {
                                Some((p.orig, p.dest, role))
                            } else {
                                None
                            }
                        },
                        None => None,
                    },
                    None => None,
                };
                (true, pick)
            },
            None => (false, None),
        }
    }
}

/// The candidate role drawn on `sq` while `p` is pending.
fn role_at(p: Promoting, sq: Square) -> (r: Option<Role>)
    ensures
        r == spec_role_at(p, sq),
{
    if sq.file == p.dest.file {
        let off: i16 = if p.dest.rank >= 4 {
            p.dest.rank as i16 - sq.rank as i16
        } else {
            sq.rank as i16 - p.dest.rank as i16
        };
        if off == 0 {
            Some(Role::Queen)
        } else if off == 1 {
            Some(Role::Rook)
        } else if off == 2 {
            Some(Role::Bishop)
        } else if off == 3 {
            Some(Role::Knight)
        } else {
            None
        }
    } else {
        None
    }
}

} // verus!
