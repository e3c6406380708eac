use std::str::FromStr;
use wazir_drop::moves::RegularMove;
use wazir_drop::score::Score;
use wazir_drop::ttable::{TTable, TTableEntry, TTableScore, TTableScoreType};

#[test]
fn ttable_test_ttable() {
    let mut ttable = TTable::new(1024);
    let hash = 0x1234567890abcdef;
    let entry = TTableEntry {
        depth: 10,
        mov: Some(RegularMove::from_str("A@a1").unwrap()),
        score: TTableScore::Exact(Score::from_eval(100)),
    };
    ttable.set(hash, entry);
    assert_eq!(ttable.get(hash), Some(entry));
    assert!(ttable.get(hash + 1).is_none());
}

#[test]
fn ttable_keeps_four_entries_per_bucket() {
    // 1024 bytes: 16 buckets; hashes with the same low bits share a bucket
    let mut table = TTable::new(1024);
    let entry = |d: u16| TTableEntry { depth: d, mov: None, score: TTableScore::LowerBound(Score::from_eval(d as i32)) };
    for k in 1..=4u64 {
        table.set((k << 32) | 3, entry(k as u16));
    }
    for k in 1..=4u64 {
        assert_eq!(table.get((k << 32) | 3), Some(entry(k as u16)));
    }
    // a fifth tag replaces one of them
    table.set((5u64 << 32) | 3, entry(5));
    assert_eq!(table.get((5u64 << 32) | 3), Some(entry(5)));
    let kept = (1..=4u64).filter(|&k| table.get((k << 32) | 3).is_some()).count();
    assert_eq!(kept, 3);
}

#[test]
fn ttable_score_type() {
    assert_eq!(TTableScore::Exact(Score::from_eval(1)).score_type(), TTableScoreType::Exact);
    assert_eq!(TTableScore::UpperBound(Score::from_eval(1)).score_type(), TTableScoreType::UpperBound);
    assert_eq!(TTableScore::NoScore.score_type(), TTableScoreType::NoScore);
}
