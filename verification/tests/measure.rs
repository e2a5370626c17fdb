use rainbow_beacon::digest::{chunk_id, ChunkId};
use rainbow_beacon::measure::{measure_dup, DupReport};

fn id(byte: u8, len: usize) -> ChunkId {
    ChunkId { hash: [byte; 32], len }
}

#[test]
fn nothing_listed() {
    assert_eq!(
        measure_dup(&vec![]),
        DupReport { total_count: 0, total_len: 0, unique_count: 0, unique_len: 0 }
    );
}

#[test]
fn repeats_count_once_as_unique() {
    let ids = vec![id(1, 10), id(2, 20), id(1, 10), id(3, 5), id(2, 20), id(1, 10)];
    let report = measure_dup(&ids);
    assert_eq!(
        report,
        DupReport { total_count: 6, total_len: 75, unique_count: 3, unique_len: 35 }
    );
    assert_eq!(report.total_line(), "total : 6 (75)");
    assert_eq!(report.unique_line(), "unique: 3 (35)");
}

#[test]
fn same_hash_with_another_length_is_another_chunk() {
    let report = measure_dup(&vec![id(1, 10), id(1, 11)]);
    assert_eq!(report.unique_count, 2);
    assert_eq!(report.unique_len, 21);
}

#[test]
fn hashes_that_differ_anywhere_are_distinct() {
    for at in 0..32 {
        let mut hash = [0u8; 32];
        hash[at] = 1;
        let report = measure_dup(&vec![id(0, 4), ChunkId { hash, len: 4 }]);
        assert_eq!(report.unique_count, 2);
        assert_eq!(report.unique_len, 8);
    }
}

#[test]
fn listing_order_does_not_matter() {
    let ids = vec![id(1, 10), id(2, 20), id(1, 10), id(3, 5)];
    let mut reversed = ids.clone();
    reversed.reverse();
    assert_eq!(measure_dup(&ids), measure_dup(&reversed));
}

#[test]
fn unique_is_total_only_without_repeats() {
    let report = measure_dup(&vec![id(1, 10), id(2, 20)]);
    assert_eq!(report.unique_count, report.total_count);
    assert_eq!(report.unique_len, report.total_len);
}

#[test]
fn listing_again_adds_to_the_total_alone() {
    let once = vec![id(1, 10), id(2, 20)];
    let mut twice = once.clone();
    twice.extend_from_slice(&once);
    let a = measure_dup(&once);
    let b = measure_dup(&twice);
    assert_eq!(b.total_len, 2 * a.total_len);
    assert_eq!(b.total_count, 2 * a.total_count);
    assert_eq!((b.unique_count, b.unique_len), (a.unique_count, a.unique_len));
}

#[test]
fn chunks_are_compared_by_content() {
    let ids = vec![chunk_id(b"one"), chunk_id(b"two"), chunk_id(b"one")];
    let report = measure_dup(&ids);
    assert_eq!(report.unique_line(), "unique: 2 (6)");
}
