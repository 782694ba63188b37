//! Successor generation: the legal one-step moves out of a cell, in a fixed
//! enumeration order (offset column ascending, then offset row ascending).

use vstd::prelude::*;
use crate::grid::{cell_cost, Board, Cell, Pos};

verus! {

/// One legal move out of a cell: the destination and the cost of entering it.
#[derive(Clone, Copy, Debug, Eq, PartialEq, PartialOrd, Structural)]
pub struct Successor {
    pub pos: Pos,
    pub cost: u8,
}

impl PartialEq<(Pos, u8)> for Successor {
    /// A successor equals a (position, cost) pair with the same fields;
    /// mainly a convenience for writing expected values.
    fn eq(&self, other: &(Pos, u8)) -> (r: bool) {
        self.pos == other.0 && self.cost == other.1
    }
}

impl vstd::std_specs::cmp::PartialEqSpecImpl<(Pos, u8)> for Successor {
    open spec fn obeys_eq_spec() -> bool {
        true
    }

    open spec fn eq_spec(&self, other: &(Pos, u8)) -> bool {
        self.pos == other.0 && self.cost == other.1
    }
}

/// The candidate offsets in enumeration order. Without diagonal movement
/// only the four orthogonal offsets remain; with it, all eight around the
/// cell. Both lists ascend by column offset first, then by row offset.
pub open spec fn offsets(allow_diagonal: bool) -> Seq<(i16, i16)> {
    if allow_diagonal {
        seq![(-1i16, -1i16), (-1i16, 0i16), (-1i16, 1i16), (0i16, -1i16), (0i16, 1i16), (1i16, -1i16), (1i16, 0i16), (1i16, 1i16)]
    } else {
        seq![(-1i16, 0i16), (0i16, -1i16), (0i16, 1i16), (1i16, 0i16)]
    }
}

/// The move that one offset yields from `p` on board `b`: `None` when the
/// destination falls outside the board or is blocked, otherwise the
/// destination position with the destination cell's cost.
pub open spec fn succ_at(b: Board, p: Pos, off: (i16, i16)) -> Option<Successor> {
    let nx = p.0 as int + off.0 as int;
    let ny = p.1 as int + off.1 as int;
    if 0 <= nx < b.width as int && 0 <= ny < b.height as int {
        match b.cell_at(nx, ny) {
            Cell::Blocked => None,
            Cell::Cost(c) => Some(Successor { pos: Pos(nx as i16, ny as i16), cost: c }),
        }
    } else {
        None
    }
}

/// A possible move as a sequence: a singleton when the move is legal,
/// empty otherwise.
pub open spec fn opt_seq(o: Option<Successor>) -> Seq<Successor> {
    match o {
        Some(s) => seq![s],
        None => Seq::empty(),
    }
}

/// The moves a list of offsets yields, kept in the list's order.
pub open spec fn succs_of_offsets(b: Board, p: Pos, offs: Seq<(i16, i16)>) -> Seq<Successor>
    decreases offs.len(),
{
    if offs.len() == 0 {
        Seq::empty()
    } else {
        succs_of_offsets(b, p, offs.drop_last()) + opt_seq(succ_at(b, p, offs.last()))
    }
}

/// All legal moves out of `p` on board `b`, in enumeration order.
pub open spec fn spec_successors(b: Board, p: Pos) -> Seq<Successor> {
    succs_of_offsets(b, p, offsets(b.allow_diagonal))
}

impl Board {
    /// Enumerates the legal moves out of `position`: for each candidate
    /// offset in the fixed order, the destination if it lies on the board
    /// and is not blocked, with the destination cell's cost.
    pub fn get_successors(&self, position: &Pos) -> (r: Vec<Successor>)
        requires
            self.wf(),
        ensures
            r@ == spec_successors(*self, *position),
    {
        let offs: Vec<(i16, i16)> = if self.allow_diagonal {
            vec![(-1, -1), (-1, 0), (-1, 1), (0, -1), (0, 1), (1, -1), (1, 0), (1, 1)]
        } else {
            vec![(-1, 0), (0, -1), (0, 1), (1, 0)]
        };
        proof {
            assert(offs@ =~= offsets(self.allow_diagonal));
        }
        let mut successors: Vec<Successor> = Vec::new();
        let mut i: usize = 0;
        while i < offs.len()
            invariant
                self.wf(),
                0 <= i <= offs@.len(),
                offs@ == offsets(self.allow_diagonal),
                successors@ == succs_of_offsets(*self, *position, offs@.take(i as int)),
            decreases offs@.len() - i,
        {
            let (dx, dy) = offs[i];
            let nx = position.0 as i32 + dx as i32;
            let ny = position.1 as i32 + dy as i32;
            if 0 <= nx && nx < self.width as i32 && 0 <= ny && ny < self.height as i32 {
                match self.data[ny as usize][nx as usize] {
                    Cell::Blocked => {},
                    Cell::Cost(c) => {
                        successors.push(Successor { pos: Pos(nx as i16, ny as i16), cost: c });
                    },
                }
            }
            proof {
                let taken = offs@.take(i as int + 1);
                assert(taken.drop_last() =~= offs@.take(i as int));
                assert(taken.last() == offs@[i as int]);
            }
            i += 1;
        }
        proof {
            assert(offs@.take(offs@.len() as int) =~= offs@);
        }
        successors
    }
}

/// Without diagonal movement, the successor sequence is the concatenation of
/// the four orthogonal candidate moves in enumeration order.
pub proof fn lemma_successors_unfold_orthogonal(b: Board, p: Pos)
    requires
        !b.allow_diagonal,
    ensures
        spec_successors(b, p) == opt_seq(succ_at(b, p, (-1i16, 0i16))) + opt_seq(
            succ_at(b, p, (0i16, -1i16)),
        ) + opt_seq(succ_at(b, p, (0i16, 1i16))) + opt_seq(succ_at(b, p, (1i16, 0i16))),
{
    let s0 = Seq::<(i16, i16)>::empty();
    let s1 = seq![(-1i16, 0i16)];
    let s2 = seq![(-1i16, 0i16), (0i16, -1i16)];
    let s3 = seq![(-1i16, 0i16), (0i16, -1i16), (0i16, 1i16)];
    let s4 = offsets(false);
    reveal_with_fuel(succs_of_offsets, 6);
    assert(s4.drop_last() =~= s3);
    assert(s3.drop_last() =~= s2);
    assert(s2.drop_last() =~= s1);
    assert(s1.drop_last() =~= s0);
    assert(s1.last() == (-1i16, 0i16));
    assert(s2.last() == (0i16, -1i16));
    assert(s3.last() == (0i16, 1i16));
    assert(s4.last() == (1i16, 0i16));
    assert(succs_of_offsets(b, p, s0) =~= Seq::<Successor>::empty());
    assert(succs_of_offsets(b, p, s1) =~= opt_seq(succ_at(b, p, (-1i16, 0i16))));
    assert(succs_of_offsets(b, p, s2) =~= succs_of_offsets(b, p, s1) + opt_seq(
        succ_at(b, p, (0i16, -1i16)),
    ));
    assert(succs_of_offsets(b, p, s3) =~= succs_of_offsets(b, p, s2) + opt_seq(
        succ_at(b, p, (0i16, 1i16)),
    ));
    assert(succs_of_offsets(b, p, s4) =~= opt_seq(succ_at(b, p, (-1i16, 0i16))) + opt_seq(
        succ_at(b, p, (0i16, -1i16)),
    ) + opt_seq(succ_at(b, p, (0i16, 1i16))) + opt_seq(succ_at(b, p, (1i16, 0i16))));
}

/// With diagonal movement, the successor sequence is the concatenation of
/// all eight candidate moves around the cell in enumeration order.
pub proof fn lemma_successors_unfold_diagonal(b: Board, p: Pos)
    requires
        b.allow_diagonal,
    ensures
        spec_successors(b, p) == opt_seq(succ_at(b, p, (-1i16, -1i16))) + opt_seq(
            succ_at(b, p, (-1i16, 0i16)),
        ) + opt_seq(succ_at(b, p, (-1i16, 1i16))) + opt_seq(succ_at(b, p, (0i16, -1i16)))
            + opt_seq(succ_at(b, p, (0i16, 1i16))) + opt_seq(succ_at(b, p, (1i16, -1i16)))
            + opt_seq(succ_at(b, p, (1i16, 0i16))) + opt_seq(succ_at(b, p, (1i16, 1i16))),
{
    let s0 = Seq::<(i16, i16)>::empty();
    let s1 = seq![(-1i16, -1i16)];
    let s2 = seq![(-1i16, -1i16), (-1i16, 0i16)];
    let s3 = seq![(-1i16, -1i16), (-1i16, 0i16), (-1i16, 1i16)];
    let s4 = seq![(-1i16, -1i16), (-1i16, 0i16), (-1i16, 1i16), (0i16, -1i16)];
    let s5 = seq![(-1i16, -1i16), (-1i16, 0i16), (-1i16, 1i16), (0i16, -1i16), (0i16, 1i16)];
    let s6 = seq![
        (-1i16, -1i16),
        (-1i16, 0i16),
        (-1i16, 1i16),
        (0i16, -1i16),
        (0i16, 1i16),
        (1i16, -1i16),
    ];
    let s7 = seq![
        (-1i16, -1i16),
        (-1i16, 0i16),
        (-1i16, 1i16),
        (0i16, -1i16),
        (0i16, 1i16),
        (1i16, -1i16),
        (1i16, 0i16),
    ];
    let s8 = offsets(true);
    reveal_with_fuel(succs_of_offsets, 10);
    assert(s8.drop_last() =~= s7);
    assert(s7.drop_last() =~= s6);
    assert(s6.drop_last() =~= s5);
    assert(s5.drop_last() =~= s4);
    assert(s4.drop_last() =~= s3);
    assert(s3.drop_last() =~= s2);
    assert(s2.drop_last() =~= s1);
    assert(s1.drop_last() =~= s0);
    assert(s1.last() == (-1i16, -1i16));
    assert(s2.last() == (-1i16, 0i16));
    assert(s3.last() == (-1i16, 1i16));
    assert(s4.last() == (0i16, -1i16));
    assert(s5.last() == (0i16, 1i16));
    assert(s6.last() == (1i16, -1i16));
    assert(s7.last() == (1i16, 0i16));
    assert(s8.last() == (1i16, 1i16));
    assert(succs_of_offsets(b, p, s0) =~= Seq::<Successor>::empty());
    assert(succs_of_offsets(b, p, s1) =~= opt_seq(succ_at(b, p, (-1i16, -1i16))));
    assert(succs_of_offsets(b, p, s2) =~= succs_of_offsets(b, p, s1) + opt_seq(
        succ_at(b, p, (-1i16, 0i16)),
    ));
    assert(succs_of_offsets(b, p, s3) =~= succs_of_offsets(b, p, s2) + opt_seq(
        succ_at(b, p, (-1i16, 1i16)),
    ));
    assert(succs_of_offsets(b, p, s4) =~= opt_seq(succ_at(b, p, (-1i16, -1i16))) + opt_seq(
        succ_at(b, p, (-1i16, 0i16)),
    ) + opt_seq(succ_at(b, p, (-1i16, 1i16))) + opt_seq(succ_at(b, p, (0i16, -1i16))));
    assert(succs_of_offsets(b, p, s5) =~= succs_of_offsets(b, p, s4) + opt_seq(
        succ_at(b, p, (0i16, 1i16)),
    ));
    assert(succs_of_offsets(b, p, s6) =~= succs_of_offsets(b, p, s5) + opt_seq(
        succ_at(b, p, (1i16, -1i16)),
    ));
    assert(succs_of_offsets(b, p, s7) =~= succs_of_offsets(b, p, s6) + opt_seq(
        succ_at(b, p, (1i16, 0i16)),
    ));
    assert(succs_of_offsets(b, p, s8) =~= opt_seq(succ_at(b, p, (-1i16, -1i16))) + opt_seq(
        succ_at(b, p, (-1i16, 0i16)),
    ) + opt_seq(succ_at(b, p, (-1i16, 1i16))) + opt_seq(succ_at(b, p, (0i16, -1i16))) + opt_seq(
        succ_at(b, p, (0i16, 1i16)),
    ) + opt_seq(succ_at(b, p, (1i16, -1i16))) + opt_seq(succ_at(b, p, (1i16, 0i16))) + opt_seq(
        succ_at(b, p, (1i16, 1i16)),
    ));
}

/// Whether the cell at (`x`, `y`) lies on the board and can be entered.
pub open spec fn open_at(b: Board, x: int, y: int) -> bool {
    &&& 0 <= x < b.width as int
    &&& 0 <= y < b.height as int
    &&& !(b.cell_at(x, y) is Blocked)
}

/// A successor that points at a board cell and carries that cell's cost.
pub open spec fn successor_ok(b: Board, s: Successor) -> bool {
    &&& 0 <= s.pos.0 as int && (s.pos.0 as int) < b.width as int
    &&& 0 <= s.pos.1 as int && (s.pos.1 as int) < b.height as int
    &&& b.cell_at(s.pos.0 as int, s.pos.1 as int) == Cell::Cost(s.cost)
}

proof fn lemma_succs_of_offsets_sound(b: Board, p: Pos, offs: Seq<(i16, i16)>)
    ensures
        forall|i: int|
            0 <= i < succs_of_offsets(b, p, offs).len() ==> successor_ok(
                b,
                #[trigger] succs_of_offsets(b, p, offs)[i],
            ),
    decreases offs.len(),
{
    if offs.len() == 0 {
    } else {
        lemma_succs_of_offsets_sound(b, p, offs.drop_last());
        let pre = succs_of_offsets(b, p, offs.drop_last());
        let whole = succs_of_offsets(b, p, offs);
        match succ_at(b, p, offs.last()) {
            Some(s) => {
                assert(whole == pre + seq![s]);
                assert(successor_ok(b, s));
                assert(forall|i: int| 0 <= i < pre.len() ==> whole[i] == pre[i]);
                assert(whole[whole.len() - 1] == s);
            },
            None => {
                assert(whole =~= pre);
            },
        }
    }
}

/// Every successor's cost equals the destination cell's stored value — the
/// cost of a move is attributed to entering a cell, never to leaving one —
/// and every successor lies on the board.
pub proof fn lemma_successor_cost_is_destination(b: Board, p: Pos)
    ensures
        forall|i: int|
            0 <= i < spec_successors(b, p).len() ==> successor_ok(
                b,
                #[trigger] spec_successors(b, p)[i],
            ),
{
    lemma_succs_of_offsets_sound(b, p, offsets(b.allow_diagonal));
}

/// For a position strictly interior to a grid with no obstacles and
/// 4-connected movement there are exactly four successors, one per
/// orthogonal direction in enumeration order, each carrying the destination
/// cell's stored cost.
pub proof fn lemma_interior_open_grid_successors(b: Board, p: Pos)
    requires
        b.wf(),
        !b.allow_diagonal,
        forall|x: int, y: int|
            0 <= x < b.width as int && 0 <= y < b.height as int ==> !((#[trigger] b.cell_at(
                x,
                y,
            )) is Blocked),
        0 < p.0 as int && (p.0 as int) < b.width as int - 1,
        0 < p.1 as int && (p.1 as int) < b.height as int - 1,
    ensures
        spec_successors(b, p).len() == 4,
        (spec_successors(b, p)[0] == Successor {
            pos: Pos((p.0 - 1) as i16, p.1),
            cost: cell_cost(b.cell_at(p.0 - 1, p.1 as int)),
        }),
        (spec_successors(b, p)[1] == Successor {
            pos: Pos(p.0, (p.1 - 1) as i16),
            cost: cell_cost(b.cell_at(p.0 as int, p.1 - 1)),
        }),
        (spec_successors(b, p)[2] == Successor {
            pos: Pos(p.0, (p.1 + 1) as i16),
            cost: cell_cost(b.cell_at(p.0 as int, p.1 + 1)),
        }),
        (spec_successors(b, p)[3] == Successor {
            pos: Pos((p.0 + 1) as i16, p.1),
            cost: cell_cost(b.cell_at(p.0 + 1, p.1 as int)),
        }),
{
    lemma_successors_unfold_orthogonal(b, p);
    assert(succ_at(b, p, (-1i16, 0i16)) is Some);
    assert(succ_at(b, p, (0i16, -1i16)) is Some);
    assert(succ_at(b, p, (0i16, 1i16)) is Some);
    assert(succ_at(b, p, (1i16, 0i16)) is Some);
}

/// On a 1-by-1 grid the only cell has no successors: there is no move to
/// the cell itself, with or without diagonal movement.
pub proof fn lemma_single_cell_no_successors(b: Board, p: Pos)
    requires
        b.width == 1,
        b.height == 1,
        p.0 == 0,
        p.1 == 0,
    ensures
        spec_successors(b, p).len() == 0,
{
    if b.allow_diagonal {
        lemma_successors_unfold_diagonal(b, p);
    } else {
        lemma_successors_unfold_orthogonal(b, p);
    }
}

/// A cell whose eight surrounding cells are each off the board or blocked
/// has no successors, whether or not diagonal movement is enabled.
pub proof fn lemma_surrounded_no_successors(b: Board, p: Pos)
    requires
        forall|x: int, y: int|
            p.0 - 1 <= x <= p.0 + 1 && p.1 - 1 <= y <= p.1 + 1 && !(x == p.0 as int && y
                == p.1 as int) ==> !(#[trigger] open_at(b, x, y)),
    ensures
        spec_successors(b, p).len() == 0,
{
    assert(!open_at(b, p.0 - 1, p.1 - 1));
    assert(!open_at(b, p.0 - 1, p.1 as int));
    assert(!open_at(b, p.0 - 1, p.1 + 1));
    assert(!open_at(b, p.0 as int, p.1 - 1));
    assert(!open_at(b, p.0 as int, p.1 + 1));
    assert(!open_at(b, p.0 + 1, p.1 - 1));
    assert(!open_at(b, p.0 + 1, p.1 as int));
    assert(!open_at(b, p.0 + 1, p.1 + 1));
    if b.allow_diagonal {
        lemma_successors_unfold_diagonal(b, p);
    } else {
        lemma_successors_unfold_orthogonal(b, p);
    }
}

/// How many legal diagonal moves leave `p`: the diagonal neighbors that lie
/// on the board and are not blocked.
pub open spec fn diagonal_move_count(b: Board, p: Pos) -> int {
    (if succ_at(b, p, (-1i16, -1i16)) is Some {
        1int
    } else {
        0int
    }) + (if succ_at(b, p, (-1i16, 1i16)) is Some {
        1int
    } else {
        0int
    }) + (if succ_at(b, p, (1i16, -1i16)) is Some {
        1int
    } else {
        0int
    }) + (if succ_at(b, p, (1i16, 1i16)) is Some {
        1int
    } else {
        0int
    })
}

/// Enabling diagonal movement on an otherwise identical grid adds exactly
/// the legal diagonal moves, interleaved into the same enumeration order:
/// the successor count grows by the number of diagonal neighbors on the
/// board and not blocked, which is at most four, and grows strictly
/// whenever at least one such neighbor exists.
pub proof fn lemma_diagonal_adds_moves(b: Board, bd: Board, p: Pos)
    requires
        !b.allow_diagonal,
        bd.allow_diagonal,
        bd.width == b.width,
        bd.height == b.height,
        bd.data@ == b.data@,
    ensures
        spec_successors(bd, p) == opt_seq(succ_at(b, p, (-1i16, -1i16))) + opt_seq(
            succ_at(b, p, (-1i16, 0i16)),
        ) + opt_seq(succ_at(b, p, (-1i16, 1i16))) + opt_seq(succ_at(b, p, (0i16, -1i16)))
            + opt_seq(succ_at(b, p, (0i16, 1i16))) + opt_seq(succ_at(b, p, (1i16, -1i16)))
            + opt_seq(succ_at(b, p, (1i16, 0i16))) + opt_seq(succ_at(b, p, (1i16, 1i16))),
        spec_successors(bd, p).len() == spec_successors(b, p).len() + diagonal_move_count(b, p),
        0 <= diagonal_move_count(b, p) <= 4,
        diagonal_move_count(b, p) > 0 ==> spec_successors(bd, p).len() > spec_successors(
            b,
            p,
        ).len(),
{
    lemma_successors_unfold_orthogonal(b, p);
    lemma_successors_unfold_diagonal(bd, p);
    assert(succ_at(bd, p, (-1i16, -1i16)) == succ_at(b, p, (-1i16, -1i16)));
    assert(succ_at(bd, p, (-1i16, 0i16)) == succ_at(b, p, (-1i16, 0i16)));
    assert(succ_at(bd, p, (-1i16, 1i16)) == succ_at(b, p, (-1i16, 1i16)));
    assert(succ_at(bd, p, (0i16, -1i16)) == succ_at(b, p, (0i16, -1i16)));
    assert(succ_at(bd, p, (0i16, 1i16)) == succ_at(b, p, (0i16, 1i16)));
    assert(succ_at(bd, p, (1i16, -1i16)) == succ_at(b, p, (1i16, -1i16)));
    assert(succ_at(bd, p, (1i16, 0i16)) == succ_at(b, p, (1i16, 0i16)));
    assert(succ_at(bd, p, (1i16, 1i16)) == succ_at(b, p, (1i16, 1i16)));
}

} // verus!
