use crate::base128::{front_groups, groups_stream, lemma_encode_decode, spec_encode, Base128Decoder, Base128Encoder};
use crate::bits::{bits_of, lemma_p2_values, zeros};
use crate::color::Color;
use crate::moves::{SetupMove, SETUP_MOVE_SIZE};
use crate::piece::Piece;
use vstd::prelude::*;

verus! {

/// The code of a piece kind: as many 1 bits as its rank (four for the wazir), then a 0
/// bit (none for the wazir).
pub open spec fn piece_code(p: Piece) -> Seq<bool> {
    match p {
        Piece::Alfil => seq![false],
        Piece::Dabbaba => seq![true, false],
        Piece::Ferz => seq![true, true, false],
        Piece::Knight => seq![true, true, true, false],
        Piece::Wazir => seq![true, true, true, true],
    }
}

/// The piece whose code starts the stream and the length of the code, `None` if the
/// stream ends before a code is complete.
pub open spec fn piece_read(s: Seq<bool>) -> Option<(Piece, nat)> {
    if s.len() < 1 {
        None
    } else if !s[0] {
        Some((Piece::Alfil, 1nat))
    } else if s.len() < 2 {
        None
    } else if !s[1] {
        Some((Piece::Dabbaba, 2nat))
    } else if s.len() < 3 {
        None
    } else if !s[2] {
        Some((Piece::Ferz, 3nat))
    } else if s.len() < 4 {
        None
    } else if !s[3] {
        Some((Piece::Knight, 4nat))
    } else {
        Some((Piece::Wazir, 4nat))
    }
}

/// The codes of the pieces, in order.
pub open spec fn pieces_code(ps: Seq<Piece>) -> Seq<bool>
    decreases ps.len(),
{
    if ps.len() == 0 {
        Seq::empty()
    } else {
        pieces_code(ps.drop_last()) + piece_code(ps.last())
    }
}

/// The first `n` pieces whose codes start the stream, and the bits they take.
pub open spec fn pieces_read(s: Seq<bool>, n: nat) -> Option<(Seq<Piece>, nat)>
    decreases n,
{
    if n == 0 {
        Some((Seq::empty(), 0nat))
    } else {
        match pieces_read(s, (n - 1) as nat) {
            None => None,
            Some((ps, k)) => match piece_read(s.skip(k as int)) {
                None => None,
                Some((p, l)) => Some((ps.push(p), k + l)),
            },
        }
    }
}

/// Writes the code of a piece.
pub fn encode_piece(encoder: &mut Base128Encoder, piece: Piece)
    requires
        old(encoder).wf(),
    ensures
        final(encoder).wf(),
        final(encoder).bits() == old(encoder).bits() + piece_code(piece),
{
    proof {
        lemma_p2_values();
        reveal_with_fuel(bits_of, 5);
    }
    match piece {
        Piece::Alfil => {
            encoder.encode_bits(1, 0);
            assert(bits_of(1, 0) =~= piece_code(piece));
        },
        Piece::Dabbaba => {
            encoder.encode_bits(2, 1);
            assert(bits_of(2, 1) =~= piece_code(piece));
        },
        Piece::Ferz => {
            encoder.encode_bits(3, 3);
            assert(bits_of(3, 3) =~= piece_code(piece));
        },
        Piece::Knight => {
            encoder.encode_bits(4, 7);
            assert(bits_of(4, 7) =~= piece_code(piece));
        },
        Piece::Wazir => {
            encoder.encode_bits(4, 15);
            assert(bits_of(4, 15) =~= piece_code(piece));
        },
    }
}

/// Reads one bit.
fn read_bit(decoder: &mut Base128Decoder) -> (r: bool)
    requires
        old(decoder).wf(),
        old(decoder).stream().len() >= 1,
    ensures
        final(decoder).wf(),
        r == old(decoder).stream()[0],
        final(decoder).stream() == old(decoder).stream().skip(1),
{
    let ghost s = decoder.stream();
    let b = decoder.decode_bits(1);
    proof {
        let t = s.take(1);
        assert(t.drop_first() =~= Seq::<bool>::empty());
        assert(crate::bits::value_of(t.drop_first()) == 0);
    }
    b == 1
}

/// Reads the code of a piece.
pub fn decode_piece(decoder: &mut Base128Decoder) -> (r: Piece)
    requires
        old(decoder).wf(),
        piece_read(old(decoder).stream()) is Some,
    ensures
        final(decoder).wf(),
        piece_read(old(decoder).stream()) matches Some((p, k)) && r == p && final(decoder).stream()
            == old(decoder).stream().skip(k as int),
{
    let ghost s = decoder.stream();
    if !read_bit(decoder) {
        return Piece::Alfil;
    }
    if !read_bit(decoder) {
        assert(decoder.stream() =~= s.skip(2));
        return Piece::Dabbaba;
    }
    if !read_bit(decoder) {
        assert(decoder.stream() =~= s.skip(3));
        return Piece::Ferz;
    }
    let last = read_bit(decoder);
    assert(decoder.stream() =~= s.skip(4));
    if !last {
        Piece::Knight
    } else {
        Piece::Wazir
    }
}

/// Writes the codes of the pieces of a setup move, in order.
pub fn encode_setup_move(encoder: &mut Base128Encoder, setup_move: SetupMove)
    requires
        old(encoder).wf(),
    ensures
        final(encoder).wf(),
        final(encoder).bits() == old(encoder).bits() + pieces_code(setup_move.pieces@),
{
    let mut i: usize = 0;
    while i < SETUP_MOVE_SIZE
        invariant
            i <= 16,
            encoder.wf(),
            encoder.bits() == old(encoder).bits() + pieces_code(setup_move.pieces@.subrange(0, i as int)),
        decreases 16 - i,
    {
        let ghost before = encoder.bits();
        encode_piece(encoder, setup_move.pieces[i]);
        proof {
            let ps = setup_move.pieces@.subrange(0, i + 1);
            assert(ps.drop_last() =~= setup_move.pieces@.subrange(0, i as int));
            assert(encoder.bits() =~= old(encoder).bits() + pieces_code(ps));
        }
        i = i + 1;
    }
    assert(setup_move.pieces@.subrange(0, 16) =~= setup_move.pieces@);
}

/// Reads the codes of the 16 pieces of a setup move of `color`.
pub fn decode_setup_move(decoder: &mut Base128Decoder, color: Color) -> (r: SetupMove)
    requires
        old(decoder).wf(),
        pieces_read(old(decoder).stream(), 16) is Some,
    ensures
        final(decoder).wf(),
        r.color == color,
        pieces_read(old(decoder).stream(), 16) matches Some((ps, k)) && r.pieces@ == ps
            && final(decoder).stream() == old(decoder).stream().skip(k as int),
{
    let ghost s = decoder.stream();
    let mut pieces = [Piece::Alfil; 16];
    let mut i: usize = 0;
    proof {
        lemma_pieces_read_prefix(s, 0, 16);
        assert(s.skip(0) =~= s);
    }
    while i < SETUP_MOVE_SIZE
        invariant
            i <= 16,
            decoder.wf(),
            pieces_read(s, 16) is Some,
            pieces_read(s, i as nat) is Some,
            pieces@.len() == 16,
            pieces_read(s, i as nat) matches Some((ps, k)) && pieces@.subrange(0, i as int) == ps
                && decoder.stream() == s.skip(k as int),
        decreases 16 - i,
    {
        proof {
            lemma_pieces_read_prefix(s, (i + 1) as nat, 16);
            lemma_pieces_read_len(s, i as nat);
        }
        let p = decode_piece(decoder);
        let ghost old_pieces = pieces@;
        pieces[i] = p;
        proof {
            let (ps, k) = pieces_read(s, i as nat)->0;
            let (q, l) = piece_read(s.skip(k as int))->0;
            assert(pieces@.subrange(0, i + 1) =~= old_pieces.subrange(0, i as int).push(p));
            assert(piece_read(s.skip(k as int)) is Some);
            assert(s.skip(k as int).len() >= l);
            assert(s.skip(k as int).skip(l as int) =~= s.skip((k + l) as int));
            assert(decoder.stream() =~= s.skip((k + l) as int));
        }
        i = i + 1;
    }
    assert(pieces@.subrange(0, 16) =~= pieces@);
    SetupMove { color, pieces }
}

/// The pieces read take no more bits than the stream has.
proof fn lemma_pieces_read_len(s: Seq<bool>, n: nat)
    requires
        pieces_read(s, n) is Some,
    ensures
        pieces_read(s, n) matches Some((ps, k)) && k <= s.len(),
    decreases n,
{
    if n > 0 {
        lemma_pieces_read_len(s, (n - 1) as nat);
    }
}

/// Reading fewer pieces succeeds where reading more does.
proof fn lemma_pieces_read_prefix(s: Seq<bool>, m: nat, n: nat)
    requires
        m <= n,
        pieces_read(s, n) is Some,
    ensures
        pieces_read(s, m) is Some,
    decreases n,
{
    if m < n {
        lemma_pieces_read_prefix(s, m, (n - 1) as nat);
    }
}

/// Reading back the codes of pieces gives the pieces, whatever follows.
pub proof fn lemma_pieces_roundtrip(ps: Seq<Piece>, rest: Seq<bool>)
    ensures
        pieces_read(pieces_code(ps) + rest, ps.len()) == Some((ps, pieces_code(ps).len())),
    decreases ps.len(),
{
    if ps.len() > 0 {
        let prev = ps.drop_last();
        let p = ps.last();
        let s = pieces_code(ps) + rest;
        assert(s =~= pieces_code(prev) + (piece_code(p) + rest));
        lemma_pieces_roundtrip(prev, piece_code(p) + rest);
        let k = pieces_code(prev).len();
        assert(s.skip(k as int) =~= piece_code(p) + rest);
        assert(prev.push(p) =~= ps);
    } else {
        assert(pieces_code(ps) + rest =~= rest);
        assert(ps =~= Seq::<Piece>::empty());
    }
}

/// The text of the codes of 16 pieces, as `Base128Encoder::finish` gives it, reads back
/// as those pieces.
pub proof fn lemma_setup_text_roundtrip(pieces: Seq<Piece>)
    requires
        pieces.len() == 16,
    ensures
        pieces_read(groups_stream(front_groups(spec_encode(pieces_code(pieces)))), 16) == Some(
            (pieces, pieces_code(pieces).len()),
        ),
{
    let bs = pieces_code(pieces);
    lemma_encode_decode(bs);
    let k = choose|k: nat|
        k < 14 && groups_stream(front_groups(spec_encode(bs))) == bs + seq![true] + #[trigger] zeros(k);
    let tail = seq![true] + zeros(k);
    assert(bs + seq![true] + zeros(k) =~= bs + tail);
    lemma_pieces_roundtrip(pieces, tail);
}

} // verus!
