use chronicle::chunks::ChunksExt;

fn collect_all(items: Vec<u32>, size: usize) -> Vec<Vec<u32>> {
    let mut chunks = items.chunks(size).into_iter();
    let mut out = Vec::new();
    while let Some(mut chunk) = chunks.next() {
        let mut v = Vec::new();
        while let Some(x) = chunk.next(&mut chunks) {
            v.push(x);
        }
        chunk.drop(&mut chunks);
        out.push(v);
    }
    out
}

#[test]
fn chunks_of_three() {
    assert_eq!(
        collect_all((1..=7).collect(), 3),
        vec![vec![1, 2, 3], vec![4, 5, 6], vec![7]]
    );
}

#[test]
fn chunks_exact() {
    assert_eq!(collect_all(vec![1, 2, 3, 4], 2), vec![vec![1, 2], vec![3, 4]]);
}

#[test]
fn chunks_of_empty() {
    assert_eq!(collect_all(Vec::new(), 3), Vec::<Vec<u32>>::new());
}

#[test]
fn chunk_size_zero_is_one_chunk() {
    assert_eq!(collect_all(vec![5, 6, 7], 0), vec![vec![5, 6, 7]]);
}

#[test]
fn chunks_read_out_of_order() {
    let mut chunks = vec![1u32, 2, 3, 4, 5].chunks(2).into_iter();
    let mut first = chunks.next().unwrap();
    let mut second = chunks.next().unwrap();
    let mut third = chunks.next().unwrap();
    assert!(chunks.next().is_none());
    // The later chunks are served first; the earlier items are buffered.
    assert_eq!(third.next(&mut chunks), Some(5));
    assert_eq!(third.next(&mut chunks), None);
    assert_eq!(second.next(&mut chunks), Some(3));
    assert_eq!(second.next(&mut chunks), Some(4));
    assert_eq!(second.next(&mut chunks), None);
    assert_eq!(first.next(&mut chunks), Some(1));
    assert_eq!(first.next(&mut chunks), Some(2));
    assert_eq!(first.next(&mut chunks), None);
}

#[test]
fn dropped_chunk_is_skipped() {
    let mut chunks = vec![1u32, 2, 3, 4, 5, 6].chunks(2).into_iter();
    let first = chunks.next().unwrap();
    first.drop(&mut chunks);
    let mut second = chunks.next().unwrap();
    assert_eq!(second.next(&mut chunks), Some(3));
    assert_eq!(second.next(&mut chunks), Some(4));
    assert_eq!(second.next(&mut chunks), None);
    let mut third = chunks.next().unwrap();
    assert_eq!(third.next(&mut chunks), Some(5));
    assert_eq!(third.next(&mut chunks), Some(6));
    assert_eq!(third.next(&mut chunks), None);
    assert!(chunks.next().is_none());
}

#[test]
fn all_chunks_taken_then_read_backwards() {
    let mut chunks = vec![1u32, 2, 3, 4, 5, 6, 7].chunks(3).into_iter();
    let mut handles = Vec::new();
    while let Some(c) = chunks.next() {
        handles.push(c);
    }
    assert_eq!(handles.len(), 3);
    let mut read = Vec::new();
    for c in handles.iter_mut().rev() {
        let mut items = Vec::new();
        while let Some(x) = c.next(&mut chunks) {
            items.push(x);
        }
        read.push(items);
    }
    assert_eq!(read, vec![vec![7], vec![4, 5, 6], vec![1, 2, 3]]);
}
