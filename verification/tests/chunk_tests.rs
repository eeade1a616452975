use keyscan::chunk::{chunk_of, count_chunks, split_chunks, CHUNK_SIZE};

fn numbered(n: usize) -> Vec<String> {
    (0..n).map(|i| format!("key:{}", i)).collect()
}

#[test]
fn chunk_size_is_one_thousand() {
    assert_eq!(CHUNK_SIZE, 1000);
}

#[test]
fn chunk_count_rounds_up() {
    assert_eq!(count_chunks(0), 0);
    assert_eq!(count_chunks(1), 1);
    assert_eq!(count_chunks(999), 1);
    assert_eq!(count_chunks(1000), 1);
    assert_eq!(count_chunks(1001), 2);
    assert_eq!(count_chunks(2000), 2);
    assert_eq!(count_chunks(2500), 3);
    assert_eq!(count_chunks(usize::MAX), usize::MAX / 1000 + 1);
}

#[test]
fn chunks_of_2500_are_1000_1000_500() {
    let keys = numbered(2500);
    let parts = split_chunks(&keys);
    let sizes: Vec<usize> = parts.iter().map(|p| p.len()).collect();
    assert_eq!(sizes, vec![1000, 1000, 500]);
}

#[test]
fn chunks_rebuild_the_list() {
    for n in [0usize, 1, 999, 1000, 1001, 2500, 3000] {
        let keys = numbered(n);
        let parts = split_chunks(&keys);
        assert_eq!(parts.len(), (n + 999) / 1000);
        assert_eq!(parts.concat(), keys);
    }
}

#[test]
fn chunks_match_the_standard_chunks() {
    let keys = numbered(2345);
    let expected: Vec<Vec<String>> = keys.chunks(1000).map(|c| c.to_vec()).collect();
    assert_eq!(split_chunks(&keys), expected);
}

#[test]
fn chunk_of_picks_one_chunk() {
    let keys = numbered(2500);
    assert_eq!(chunk_of(&keys, 0), keys[0..1000].to_vec());
    assert_eq!(chunk_of(&keys, 1), keys[1000..2000].to_vec());
    assert_eq!(chunk_of(&keys, 2), keys[2000..2500].to_vec());
}

#[test]
fn chunk_of_past_the_end_is_empty() {
    let keys = numbered(2500);
    assert_eq!(chunk_of(&keys, 3), Vec::<String>::new());
    assert_eq!(chunk_of(&keys, usize::MAX), Vec::<String>::new());
    assert_eq!(chunk_of(&Vec::new(), 0), Vec::<String>::new());
}
