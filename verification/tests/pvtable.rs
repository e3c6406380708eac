use std::str::FromStr;
use wazir_drop::moves::RegularMove;
use wazir_drop::pvtable::PVTable;
use wazir_drop::variation::{ExtendableVariation, LongVariation, NonEmptyVariation, Variation};

#[test]
fn pvtable_test_ttable() {
    let mut ttable = PVTable::new(1 << 14);
    let hash = 0x1234567890abcdef;
    let variation = LongVariation::empty().add_front(RegularMove::from_str("A@a1").unwrap());
    ttable.set(hash, variation.clone());
    assert_eq!(ttable.get(hash).unwrap().to_string(), "A@a1");
    assert!(ttable.get(hash + 1).is_none());
}

#[test]
fn pvtable_overwrites_same_hash() {
    let mut table = PVTable::new(1 << 14);
    let hash = 0x0000_0001_0000_0003;
    let a = LongVariation::empty().add_front(RegularMove::from_str("A@a1").unwrap());
    let b = LongVariation::empty().add_front(RegularMove::from_str("D@b2").unwrap());
    table.set(hash, a);
    table.set(hash, b);
    assert_eq!(table.get(hash).unwrap().to_string(), "D@b2");
}

#[test]
fn pvtable_new_epoch_keeps_entries() {
    let mut table = PVTable::new(1 << 14);
    let hash = 0x0000_0005_0000_0001;
    let a = LongVariation::empty().add_front(RegularMove::from_str("A@a1").unwrap());
    table.set(hash, a);
    table.new_epoch();
    assert_eq!(table.get(hash).unwrap().to_string(), "A@a1");
}

#[test]
fn variation_text_and_truncation() {
    let m = RegularMove::from_str("A@a1").unwrap();
    let mut v = LongVariation::empty();
    for _ in 0..100 {
        v = v.add_front(m);
    }
    assert_eq!(v.moves.len(), 100);
    assert!(!v.truncated);
    let w = v.add_front(RegularMove::from_str("D@b2").unwrap());
    assert_eq!(w.moves.len(), 100);
    assert!(w.truncated);
    assert_eq!(w.first(), Some(RegularMove::from_str("D@b2").unwrap()));
    let two = LongVariation::empty().add_front(m).add_front(RegularMove::from_str("D@b2").unwrap());
    assert_eq!(two.to_string(), "D@b2 A@a1");
    assert_eq!(LongVariation::empty_truncated().to_string(), " (trunc)");
}
