use vstd::prelude::*;

use bulletformat::AtaxxBoard;

verus! {

#[verifier::external_type_specification]
#[verifier::external_body]
pub struct ExAtaxxBoard(AtaxxBoard);

/// Squares on one Ataxx board.
pub const SQUARES: usize = 49;

/// The colour code seen by the other side: red and blue swap, gaps stay gaps.
pub open spec fn opposite(pc: nat) -> nat {
    if pc == 0 {
        1
    } else if pc == 1 {
        0
    } else {
        pc
    }
}

/// The feature indices of piece code `pc` on square `sq`: from the side to move, and
/// from the other side.
pub open spec fn feature_pair_spec(pc: nat, sq: nat) -> (usize, usize) {
    ((49 * pc + sq) as usize, (49 * opposite(pc) + sq) as usize)
}

/// The feature indices of one occupied square; `piece` is 0 for the side to move,
/// 1 for the other side and 2 for a gap.
pub fn feature_pair(piece: u8, square: u8) -> (r: (usize, usize))
    requires
        piece < 3,
    ensures
        r == feature_pair_spec(piece as nat, square as nat),
{
    let pc = piece as usize;
    let sq = square as usize;
    let stm_idx = SQUARES * pc + sq;
    let nstm_idx = if pc == 2 {
        stm_idx
    } else {
        assert(pc ^ 1 == if pc == 0 { 1usize } else { 0usize }) by (bit_vector)
            requires
                pc < 2,
        ;
        SQUARES * (pc ^ 1) + sq
    };
    (stm_idx, nstm_idx)
}

/// The own and opposing index of an occupied square are equal exactly for a gap.
pub proof fn lemma_feature_symmetry(pc: nat, sq: nat)
    requires
        pc < 3,
        sq < 64,
    ensures
        feature_pair_spec(pc, sq).0 == feature_pair_spec(pc, sq).1 <==> pc == 2,
{
}

/// Every piece code is one of the three colours.
pub open spec fn pieces_valid(pieces: Seq<(u8, u8)>) -> bool {
    forall|i: int| 0 <= i < pieces.len() ==> (#[trigger] pieces[i]).0 < 3
}

/// Bit `i` of `b` is set.
pub open spec fn bit_set(b: u64, i: u64) -> bool {
    (b >> i) & 1u64 == 1u64
}

/// `(code, square)` for each set bit of `b` below `i`, in ascending order.
pub open spec fn squares_upto(b: u64, code: u8, i: nat) -> Seq<(u8, u8)>
    decreases i,
{
    if i == 0 {
        Seq::empty()
    } else {
        let rest = squares_upto(b, code, (i - 1) as nat);
        if bit_set(b, (i - 1) as u64) {
            rest.push((code, (i - 1) as u8))
        } else {
            rest
        }
    }
}

/// The occupied squares of a board: the side to move's pieces, then the other side's,
/// then the gaps, each in ascending square order.
pub open spec fn board_squares(bbs: Seq<u64>) -> Seq<(u8, u8)> {
    squares_upto(bbs[0], 0, 64) + squares_upto(bbs[1], 1, 64) + squares_upto(bbs[2], 2, 64)
}

/// Appends `(code, square)` for each set bit of `b`, in ascending square order.
fn push_squares(out: &mut Vec<(u8, u8)>, b: u64, code: u8)
    requires
        code < 3,
        pieces_valid(old(out)@),
    ensures
        final(out)@ == old(out)@ + squares_upto(b, code, 64),
        pieces_valid(final(out)@),
{
    let mut i: u64 = 0;
    while i < 64
        invariant
            i <= 64,
            code < 3,
            out@ == old(out)@ + squares_upto(b, code, i as nat),
            pieces_valid(out@),
        decreases 64 - i,
    {
        let ghost before = out@;
        if (b >> i) & 1 == 1 {
            out.push((code, i as u8));
        }
        i = i + 1;
        assert(out@ =~= old(out)@ + squares_upto(b, code, i as nat)) by {
            assert(squares_upto(b, code, i as nat) == if bit_set(b, (i - 1) as u64) {
                squares_upto(b, code, (i - 1) as nat).push((code, (i - 1) as u8))
            } else {
                squares_upto(b, code, (i - 1) as nat)
            });
        }
    }
}

/// The three bitboards of an Ataxx position: the side to move, the other side, the gaps.
#[derive(Clone, Copy, Debug)]
pub struct AtaxxBitboards {
    pub bbs: [u64; 3],
}

/// Relies on `AtaxxBoard::bbs`: it returns the board's three bitboards, side to move first.
#[verifier::external_body]
fn board_bitboards(pos: &AtaxxBoard) -> (r: [u64; 3]) {
    pos.bbs()
}

impl AtaxxBitboards {
    /// The bitboards of a stored position.
    pub fn from_board(pos: &AtaxxBoard) -> (r: AtaxxBitboards) {
        AtaxxBitboards { bbs: board_bitboards(pos) }
    }
}

/// The Ataxx input set: 3 colours on 49 squares, one bucket.
#[derive(Clone, Copy, Debug, Default)]
pub struct Ataxx147 {}

/// The feature pairs of one position, handed out one by one.
#[derive(Debug)]
pub struct Ataxx147Iter {
    pieces: Vec<(u8, u8)>,
    next: usize,
}

impl Ataxx147Iter {
    pub closed spec fn pieces_spec(&self) -> Seq<(u8, u8)> {
        self.pieces@
    }

    pub closed spec fn next_spec(&self) -> nat {
        self.next as nat
    }

    pub open spec fn wf(&self) -> bool {
        &&& pieces_valid(self.pieces_spec())
        &&& self.next_spec() <= self.pieces_spec().len()
    }

    /// The pairs of the given `(piece, square)` list, from its start.
    pub fn from_pieces(pieces: Vec<(u8, u8)>) -> (r: Ataxx147Iter)
        requires
            pieces_valid(pieces@),
        ensures
            r.wf(),
            r.pieces_spec() == pieces@,
            r.next_spec() == 0,
    {
        Ataxx147Iter { pieces, next: 0 }
    }

    /// The feature pair of the next occupied square, or `None` once all are handed out.
    pub fn next(&mut self) -> (r: Option<(usize, usize)>)
        requires
            old(self).wf(),
        ensures
            final(self).wf(),
            final(self).pieces_spec() == old(self).pieces_spec(),
            old(self).next_spec() < old(self).pieces_spec().len() ==> {
                let (pc, sq) = old(self).pieces_spec()[old(self).next_spec() as int];
                &&& r == Some(feature_pair_spec(pc as nat, sq as nat))
                &&& final(self).next_spec() == old(self).next_spec() + 1
            },
            old(self).next_spec() == old(self).pieces_spec().len() ==> r is None
                && final(self).next_spec() == old(self).next_spec(),
    {
        if self.next < self.pieces.len() {
            let (pc, sq) = self.pieces[self.next];
            self.next = self.next + 1;
            Some(feature_pair(pc, sq))
        } else {
            None
        }
    }
}

impl Ataxx147 {
    pub fn inputs(&self) -> (r: usize)
        ensures
            r == 147,
    {
        147
    }

    pub fn buckets(&self) -> (r: usize)
        ensures
            r == 1,
    {
        1
    }

    /// The feature pairs of every occupied square of `pos`, in `board_squares` order.
    pub fn feature_iter(&self, pos: &AtaxxBitboards) -> (r: Ataxx147Iter)
        ensures
            r.wf(),
            r.next_spec() == 0,
            r.pieces_spec() == board_squares(pos.bbs@),
    {
        let mut pieces: Vec<(u8, u8)> = Vec::new();
        push_squares(&mut pieces, pos.bbs[0], 0);
        push_squares(&mut pieces, pos.bbs[1], 1);
        push_squares(&mut pieces, pos.bbs[2], 2);
        assert(pieces@ =~= board_squares(pos.bbs@));
        Ataxx147Iter::from_pieces(pieces)
    }
}

} // verus!
