//! Plain value types for the board: colors, roles, pieces, squares, the
//! occupancy snapshot handed over by the host's rules engine, and the
//! externally supplied legal-move list.

use vstd::prelude::*;

verus! {

/// A side of the game; doubles as the board orientation (which side is drawn
/// at the bottom).
#[derive(Clone, Copy, PartialEq, Eq, Structural, Debug)]
pub enum Color {
    White,
    Black,
}

/// A piece role.
#[derive(Clone, Copy, PartialEq, Eq, Structural, Debug)]
pub enum Role {
    Pawn,
    Knight,
    Bishop,
    Rook,
    Queen,
    King,
}

/// A piece kind: color and role.
#[derive(Clone, Copy, PartialEq, Eq, Structural, Debug)]
pub struct Piece {
    pub color: Color,
    pub role: Role,
}

/// A board square, as a file (0 = a, ..., 7 = h) and a rank (0 = first rank,
/// ..., 7 = eighth rank).
#[derive(Clone, Copy, PartialEq, Eq, Structural, Debug)]
pub struct Square {
    pub file: u8,
    pub rank: u8,
}

impl Square {
    /// Both coordinates on the board.
    pub open spec fn wf(self) -> bool {
        self.file < 8 && self.rank < 8
    }

    /// The square's position in a 64-slot occupancy table, rank-major.
    pub open spec fn spec_index(self) -> int {
        self.rank * 8 + self.file
    }

    pub fn new(file: u8, rank: u8) -> (sq: Square)
        requires
            file < 8,
            rank < 8,
        ensures
            sq == (Square { file, rank }),
    {
        Square { file, rank }
    }

    /// The rank-major table slot of this square.
    pub fn index(self) -> (i: usize)
        requires
            self.wf(),
        ensures
            i == self.spec_index(),
            i < 64,
    {
        self.rank as usize * 8 + self.file as usize
    }

    /// Chebyshev distance: the number of king steps between two squares.
    pub fn distance(self, other: Square) -> (d: u8)
        requires
            self.wf(),
            other.wf(),
        ensures
            d == spec_distance(self, other),
    {
        let df = if self.file >= other.file {
            self.file - other.file
        } else {
            other.file - self.file
        };
        let dr = if self.rank >= other.rank {
            self.rank - other.rank
        } else {
            other.rank - self.rank
        };
        if df >= dr {
            df
        } else {
            dr
        }
    }
}

/// Chebyshev distance between two squares.
pub open spec fn spec_distance(a: Square, b: Square) -> int {
    let df = if a.file >= b.file {
        a.file - b.file
    } else {
        b.file - a.file
    };
    let dr = if a.rank >= b.rank {
        a.rank - b.rank
    } else {
        b.rank - a.rank
    };
    if df >= dr {
        df
    } else {
        dr
    }
}

/// The square whose rank-major table slot is `i`.
pub open spec fn square_of_index(i: int) -> Square {
    Square { file: (i % 8) as u8, rank: (i / 8) as u8 }
}

/// A well-formed square's table slot determines the square.
pub proof fn lemma_square_index_injective(a: Square, b: Square)
    requires
        a.wf(),
        b.wf(),
        a.spec_index() == b.spec_index(),
    ensures
        a == b,
{
    vstd::arithmetic::div_mod::lemma_fundamental_div_mod_converse(
        a.spec_index(),
        8,
        a.rank as int,
        a.file as int,
    );
    vstd::arithmetic::div_mod::lemma_fundamental_div_mod_converse(
        b.spec_index(),
        8,
        b.rank as int,
        b.file as int,
    );
}

/// A board occupancy snapshot: which piece, if any, stands on each square.
/// Supplied wholesale by the host's rules engine; the core never mutates a
/// snapshot it was handed, it only diffs consecutive ones.
pub struct Board {
    slots: Vec<Option<Piece>>,
}

impl View for Board {
    type V = Seq<Option<Piece>>;

    /// A snapshot is a 64-entry table from rank-major square slots to
    /// occupants.
    closed spec fn view(&self) -> Seq<Option<Piece>> {
        self.slots@
    }
}

impl Board {
    /// The table always has one slot per square.
    pub open spec fn wf(&self) -> bool {
        self@.len() == 64
    }

    /// An empty board.
    pub fn empty() -> (b: Board)
        ensures
            b.wf(),
            forall|i: int| 0 <= i < 64 ==> b@[i] is None,
    {
        let mut slots: Vec<Option<Piece>> = Vec::new();
        for k in 0..64
            invariant
                slots@.len() == k,
                forall|i: int| 0 <= i < k ==> slots@[i] is None,
        {
            slots.push(None);
        }
        Board { slots }
    }

    /// The occupant of `sq`, if any.
    pub fn piece_at(&self, sq: Square) -> (p: Option<Piece>)
        requires
            self.wf(),
            sq.wf(),
        ensures
            p == self@[sq.spec_index()],
    {
        self.slots[sq.index()]
    }

    /// Whether `sq` is occupied.
    pub fn occupied(&self, sq: Square) -> (r: bool)
        requires
            self.wf(),
            sq.wf(),
        ensures
            r == self@[sq.spec_index()] is Some,
    {
        self.piece_at(sq).is_some()
    }

    /// The standard chess starting position.
    pub fn standard() -> (b: Board)
        ensures
            b.wf(),
            forall|sq: Square| sq.wf() ==> b@[#[trigger] sq.spec_index()] == spec_starting_piece(sq),
    {
        let mut slots: Vec<Option<Piece>> = Vec::new();
        for idx in 0..64usize
            invariant
                slots@.len() == idx,
                forall|sq: Square|
                    sq.wf() && sq.spec_index() < idx ==> slots@[#[trigger] sq.spec_index()]
                        == spec_starting_piece(sq),
        {
            let sq = Square { file: (idx % 8) as u8, rank: (idx / 8) as u8 };
            proof {
                vstd::arithmetic::div_mod::lemma_fundamental_div_mod(idx as int, 8);
                assert(sq.wf() && sq.spec_index() == idx);
            }
            let p: Option<Piece> = if sq.rank == 0 {
                Some(Piece { color: Color::White, role: back_role(sq.file) })
            } else if sq.rank == 1 {
                Some(Piece { color: Color::White, role: Role::Pawn })
            } else if sq.rank == 6 {
                Some(Piece { color: Color::Black, role: Role::Pawn })
            } else if sq.rank == 7 {
                Some(Piece { color: Color::Black, role: back_role(sq.file) })
            } else {
                None
            };
            slots.push(p);
            proof {
                assert forall|s2: Square| s2.wf() && s2.spec_index() < idx + 1 implies slots@[
                    #[trigger] s2.spec_index()
                ] == spec_starting_piece(s2) by {
                    if s2.spec_index() == idx {
                        lemma_square_index_injective(s2, sq);
                    }
                }
            }
        }
        Board { slots }
    }

    /// Place `p` on `sq` (or clear it with `None`). For hosts and tests that
    /// build snapshots by hand.
    pub fn set_piece_at(&mut self, sq: Square, p: Option<Piece>)
        requires
            old(self).wf(),
            sq.wf(),
        ensures
            final(self).wf(),
            final(self)@ == old(self)@.update(sq.spec_index(), p),
    {
        let i = sq.index();
        self.slots[i] = p;
    }
}

/// The back-rank role on `file` in the standard starting position.
pub open spec fn spec_back_role(file: u8) -> Role {
    if file == 0 || file == 7 {
        Role::Rook
    } else if file == 1 || file == 6 {
        Role::Knight
    } else if file == 2 || file == 5 {
        Role::Bishop
    } else if file == 3 {
        Role::Queen
    } else {
        Role::King
    }
}

/// The occupant of `sq` in the standard starting position.
pub open spec fn spec_starting_piece(sq: Square) -> Option<Piece> {
    if sq.rank == 0 {
        Some(Piece { color: Color::White, role: spec_back_role(sq.file) })
    } else if sq.rank == 1 {
        Some(Piece { color: Color::White, role: Role::Pawn })
    } else if sq.rank == 6 {
        Some(Piece { color: Color::Black, role: Role::Pawn })
    } else if sq.rank == 7 {
        Some(Piece { color: Color::Black, role: spec_back_role(sq.file) })
    } else {
        None
    }
}

fn back_role(file: u8) -> (r: Role)
    ensures
        r == spec_back_role(file),
{
    if file == 0 || file == 7 {
        Role::Rook
    } else if file == 1 || file == 6 {
        Role::Knight
    } else if file == 2 || file == 5 {
        Role::Bishop
    } else if file == 3 {
        Role::Queen
    } else {
        Role::King
    }
}

/// Equality of two optional roles, usable in verified code.
pub fn role_opt_eq(a: Option<Role>, b: Option<Role>) -> (r: bool)
    ensures
        r == (a == b),
{
    match (a, b) {
        (None, None) => true,
        (Some(x), Some(y)) => x == y,
        _ => false,
    }
}

/// One entry of the externally supplied legal-move list: origin, destination
/// and, for promotions, the role the pawn turns into.
#[derive(Clone, Copy, PartialEq, Eq, Structural, Debug)]
pub struct LegalMove {
    pub from: Square,
    pub to: Square,
    pub promotion: Option<Role>,
}

/// The legal-move list for the current position. The core treats it as a
/// read-only oracle handed over by the rules engine and never recomputes it.
pub struct LegalMoveSet {
    moves: Vec<LegalMove>,
}

impl View for LegalMoveSet {
    type V = Seq<LegalMove>;

    closed spec fn view(&self) -> Seq<LegalMove> {
        self.moves@
    }
}

/// Whether the list holds a move from `orig` to `dest` (with any promotion).
pub open spec fn spec_has_move(legals: Seq<LegalMove>, orig: Square, dest: Square) -> bool {
    exists|k: int| 0 <= k < legals.len() && legals[k].from == orig && legals[k].to == dest
}

/// Whether the list holds a move from `orig` to `dest` that carries a
/// promotion role.
pub open spec fn spec_has_promotion(legals: Seq<LegalMove>, orig: Square, dest: Square) -> bool {
    exists|k: int|
        0 <= k < legals.len() && legals[k].from == orig && legals[k].to == dest
            && legals[k].promotion is Some
}

impl LegalMoveSet {
    /// An empty move list: no gesture can commit a move until the host
    /// supplies the real one.
    pub fn new() -> (s: LegalMoveSet)
        ensures
            s@ =~= Seq::<LegalMove>::empty(),
    {
        LegalMoveSet { moves: Vec::new() }
    }

    /// Append one entry; for hosts and tests that build the list by hand.
    pub fn push(&mut self, m: LegalMove)
        ensures
            final(self)@ == old(self)@.push(m),
    {
        self.moves.push(m);
    }

    pub fn len(&self) -> (n: usize)
        ensures
            n == self@.len(),
    {
        self.moves.len()
    }

    /// Whether some legal move goes from `orig` to `dest`.
    pub fn contains_move(&self, orig: Square, dest: Square) -> (r: bool)
        ensures
            r == spec_has_move(self@, orig, dest),
    {
        let n = self.moves.len();
        for i in 0..n
            invariant
                n == self@.len(),
                forall|k: int| 0 <= k < i ==> !(self@[k].from == orig && self@[k].to == dest),
        {
            let m = self.moves[i];
            if m.from == orig && m.to == dest {
                return true;
            }
        }
        false
    }

    /// Whether some legal move from `orig` to `dest` requires a promotion
    /// choice.
    pub fn contains_promotion(&self, orig: Square, dest: Square) -> (r: bool)
        ensures
            r == spec_has_promotion(self@, orig, dest),
    {
        let n = self.moves.len();
        for i in 0..n
            invariant
                n == self@.len(),
                forall|k: int|
                    0 <= k < i
                        ==> !(self@[k].from == orig && self@[k].to == dest
                        && self@[k].promotion is Some),
        {
            let m = self.moves[i];
            if m.from == orig && m.to == dest && m.promotion.is_some() {
                return true;
            }
        }
        false
    }

    /// Whether the exact entry `(orig, dest, promotion)` is in the list.
    pub fn contains_entry(&self, orig: Square, dest: Square, promotion: Option<Role>) -> (r: bool)
        ensures
            r == self@.contains(LegalMove { from: orig, to: dest, promotion }),
    {
        let n = self.moves.len();
        for i in 0..n
            invariant
                n == self@.len(),
                forall|k: int|
                    0 <= k < i ==> self@[k] != (LegalMove { from: orig, to: dest, promotion }),
        {
            let m = self.moves[i];
            if m.from == orig && m.to == dest && role_opt_eq(m.promotion, promotion) {
                assert(self@.contains(LegalMove { from: orig, to: dest, promotion })) by {
                    assert(self@[i as int] == (LegalMove { from: orig, to: dest, promotion }));
                }
                return true;
            }
        }
        false
    }

    /// All destinations of legal moves leaving `orig`, in list order
    /// (duplicates possible when several promotions share a destination).
    pub fn targets_from(&self, orig: Square) -> (ts: Vec<Square>)
        ensures
            forall|k: int| 0 <= k < ts@.len() ==> spec_has_move(self@, orig, #[trigger] ts@[k]),
            forall|dest: Square| spec_has_move(self@, orig, dest) ==> ts@.contains(dest),
    {
        let mut ts: Vec<Square> = Vec::new();
        let n = self.moves.len();
        for i in 0..n
            invariant
                n == self@.len(),
                forall|k: int| 0 <= k < ts@.len() ==> spec_has_move(self@, orig, #[trigger] ts@[k]),
                forall|j: int|
                    0 <= j < i && self@[j].from == orig ==> ts@.contains(#[trigger] self@[j].to),
        {
            let m = self.moves[i];
            if m.from == orig {
                let ghost prior = ts@;
                ts.push(m.to);
                proof {
                    assert forall|j: int| 0 <= j < i + 1 && self@[j].from == orig implies ts@.contains(
                        #[trigger] self@[j].to,
                    ) by {
                        if j < i {
                            let w = choose|w: int|
                                0 <= w < prior.len() && prior[w] == self@[j].to;
                            assert(ts@[w] == self@[j].to);
                        } else {
                            assert(ts@[ts@.len() - 1] == self@[j].to);
                        }
                    }
                }
            }
        }
        ts
    }
}

} // verus!
