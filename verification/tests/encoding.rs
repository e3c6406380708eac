use wazir_drop::base128::{Base128Decoder, Base128Encoder};
use wazir_drop::base128_decoder::Base128Decoder as Decoder63;
use wazir_drop::book::{decode_piece, decode_setup_move, encode_piece, encode_setup_move};
use wazir_drop::color::Color;
use wazir_drop::moves::SetupMove;
use wazir_drop::piece::Piece;

#[test]
fn base128_bits_roundtrip() {
    let mut e = Base128Encoder::new();
    e.encode_bits(3, 5);
    e.encode_bits(32, 0xdead_beef);
    e.encode_bits(7, 0);
    e.encode_bits(1, 1);
    let s = e.finish();
    let mut d = Base128Decoder::new(&s);
    assert_eq!(d.decode_bits(3), 5);
    assert_eq!(d.decode_bits(32), 0xdead_beef);
    assert_eq!(d.decode_bits(7), 0);
    assert_eq!(d.decode_bits(1), 1);
    d.finish();
}

#[test]
fn base128_special_groups_become_two_byte_characters() {
    // a group of seven zero bits is written with the next group as one character
    let mut e = Base128Encoder::new();
    e.encode_bits(7, 0);
    e.encode_bits(7, 65);
    let s = e.finish();
    let chars: Vec<char> = s.chars().collect();
    assert_eq!(chars[0] as u32, 2 * 128 + 65);
    let mut d = Base128Decoder::new(&s);
    assert_eq!(d.decode_bits(7), 0);
    assert_eq!(d.decode_bits(7), 65);
    d.finish();
}

#[test]
fn base128_varints() {
    let values = [0, 1, -1, 31, 32, -33, 1000, -100000, i32::MAX, i32::MIN];
    let mut e = Base128Encoder::new();
    for &v in &values {
        e.encode_varint(v);
    }
    let s = e.finish();
    let mut d = Base128Decoder::new(&s);
    for &v in &values {
        assert_eq!(d.decode_varint(), v);
    }
    d.finish();
}

#[test]
fn base128_empty_stream() {
    let s = Base128Encoder::new().finish();
    assert_eq!(s.chars().count(), 1);
    Base128Decoder::new(&s).finish();
}

#[test]
fn other_varint_layout_reads_bits() {
    let mut e = Base128Encoder::new();
    // sign 0, 6 bits 5, no extension
    e.encode_bits(1, 0);
    e.encode_bits(6, 5);
    e.encode_bits(1, 0);
    let s = e.finish();
    let mut d = Decoder63::new(&s);
    assert_eq!(d.decode_varint(), 5);
    d.finish();
}

#[test]
fn book_pieces_roundtrip() {
    let pieces = [Piece::Alfil, Piece::Dabbaba, Piece::Ferz, Piece::Knight, Piece::Wazir];
    let mut e = Base128Encoder::new();
    for &p in &pieces {
        encode_piece(&mut e, p);
    }
    let s = e.finish();
    let mut d = Base128Decoder::new(&s);
    for &p in &pieces {
        assert_eq!(decode_piece(&mut d), p);
    }
    d.finish();
}

#[test]
fn book_setup_roundtrip() {
    let mut pieces = [Piece::Alfil; 16];
    pieces[0] = Piece::Wazir;
    pieces[5] = Piece::Knight;
    pieces[6] = Piece::Ferz;
    pieces[9] = Piece::Ferz;
    for i in 10..14 {
        pieces[i] = Piece::Dabbaba;
    }
    let m = SetupMove { color: Color::Blue, pieces };
    let mut e = Base128Encoder::new();
    encode_setup_move(&mut e, m);
    let s = e.finish();
    let mut d = Base128Decoder::new(&s);
    let back = decode_setup_move(&mut d, Color::Blue);
    assert_eq!(back, m);
    d.finish();
}

#[test]
fn base128_varint_with_padding_groups() {
    // sign 0, low bits 3, then two groups: 1 and a padding group of 0
    let mut e = Base128Encoder::new();
    e.encode_bits(1, 0);
    e.encode_bits(5, 3);
    e.encode_bits(1, 1);
    e.encode_bits(2, 1);
    e.encode_bits(1, 1);
    e.encode_bits(2, 0);
    e.encode_bits(1, 0);
    // negative: sign 1, magnitude 4 reads as -5
    e.encode_bits(1, 1);
    e.encode_bits(5, 4);
    e.encode_bits(1, 0);
    let s = e.finish();
    let mut d = Base128Decoder::new(&s);
    assert_eq!(d.decode_varint(), 3 + 32);
    assert_eq!(d.decode_varint(), -5);
    d.finish();
}

#[test]
fn base128_varint_high_bits_wrap() {
    // 14 groups: the group at bit 31 keeps only its low bit
    let mut e = Base128Encoder::new();
    e.encode_bits(1, 0);
    e.encode_bits(5, 0);
    for _ in 0..13 {
        e.encode_bits(1, 1);
        e.encode_bits(2, 0);
    }
    e.encode_bits(1, 1);
    e.encode_bits(2, 3);
    e.encode_bits(1, 0);
    let s = e.finish();
    let mut d = Base128Decoder::new(&s);
    assert_eq!(d.decode_varint(), i32::MIN);
    d.finish();
}

#[test]
fn base128_can_finish_only_at_the_end() {
    let mut e = Base128Encoder::new();
    e.encode_bits(5, 19);
    e.encode_varint(-7);
    let s = e.finish();
    let mut d = Base128Decoder::new(&s);
    assert!(!d.can_finish_now());
    assert_eq!(d.decode_bits(5), 19);
    assert!(!d.can_finish_now());
    assert_eq!(d.decode_varint(), -7);
    assert!(d.can_finish_now());
    d.finish();
}

#[test]
fn base128_cannot_finish_with_text_left() {
    let mut e = Base128Encoder::new();
    e.encode_bits(20, 0xabcde);
    let s = e.finish();
    let d = Base128Decoder::new(&s);
    assert!(!d.can_finish_now());
    let mut d63 = Decoder63::new(&s);
    assert!(!d63.can_finish_now());
    assert_eq!(d63.decode_bits(20), 0xabcde);
    assert!(d63.can_finish_now());
    d63.finish();
}
