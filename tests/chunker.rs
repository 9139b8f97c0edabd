use corro_types::change::{Change, CrsqlSeq, CrsqlSeqRange, SqliteValue};
use corro_types::chunker::{ChunkedChanges, MAX_CHANGES_BYTE_SIZE};

fn dbsr(start: u64, end: u64) -> CrsqlSeqRange {
    CrsqlSeqRange::new(CrsqlSeq(start), CrsqlSeq(end))
}

fn changes() -> Vec<Change> {
    (0..100)
        .map(|seq| Change {
            seq: CrsqlSeq(seq),
            ..Default::default()
        })
        .collect()
}

#[test]
fn test_change_chunker() {
    // empty interator
    let mut chunker: ChunkedChanges<String> =
        ChunkedChanges::new(vec![], CrsqlSeq(0), CrsqlSeq(100), 50);

    assert_eq!(chunker.next(), Some(Ok((vec![], dbsr(0, 100)))));
    assert_eq!(chunker.next(), None);

    let changes = changes();

    // 2 iterations
    let mut chunker: ChunkedChanges<String> = ChunkedChanges::new(
        vec![
            Ok(changes[0].clone()),
            Ok(changes[1].clone()),
            Ok(changes[2].clone()),
        ],
        CrsqlSeq(0),
        CrsqlSeq(100),
        changes[0].estimated_byte_size() + changes[1].estimated_byte_size(),
    );

    assert_eq!(
        chunker.next(),
        Some(Ok((
            vec![changes[0].clone(), changes[1].clone()],
            dbsr(0, 1)
        )))
    );
    assert_eq!(
        chunker.next(),
        Some(Ok((vec![changes[2].clone()], dbsr(2, 100))))
    );
    assert_eq!(chunker.next(), None);

    let mut chunker: ChunkedChanges<String> = ChunkedChanges::new(
        vec![Ok(changes[0].clone()), Ok(changes[1].clone())],
        CrsqlSeq(0),
        CrsqlSeq(0),
        changes[0].estimated_byte_size(),
    );

    assert_eq!(
        chunker.next(),
        Some(Ok((vec![changes[0].clone()], dbsr(0, 0))))
    );
    assert_eq!(chunker.next(), None);

    // gaps
    let mut chunker: ChunkedChanges<String> = ChunkedChanges::new(
        vec![Ok(changes[0].clone()), Ok(changes[2].clone())],
        CrsqlSeq(0),
        CrsqlSeq(100),
        changes[0].estimated_byte_size() + changes[2].estimated_byte_size(),
    );

    assert_eq!(
        chunker.next(),
        Some(Ok((
            vec![changes[0].clone(), changes[2].clone()],
            dbsr(0, 100)
        )))
    );

    assert_eq!(chunker.next(), None);

    // gaps
    let mut chunker: ChunkedChanges<String> = ChunkedChanges::new(
        vec![
            Ok(changes[2].clone()),
            Ok(changes[4].clone()),
            Ok(changes[7].clone()),
            Ok(changes[8].clone()),
        ],
        CrsqlSeq(0),
        CrsqlSeq(100),
        100000, // just send them all!
    );

    assert_eq!(
        chunker.next(),
        Some(Ok((
            vec![
                changes[2].clone(),
                changes[4].clone(),
                changes[7].clone(),
                changes[8].clone()
            ],
            dbsr(0, 100)
        )))
    );

    assert_eq!(chunker.next(), None);

    // gaps
    let mut chunker: ChunkedChanges<String> = ChunkedChanges::new(
        vec![
            Ok(changes[2].clone()),
            Ok(changes[4].clone()),
            Ok(changes[7].clone()),
            Ok(changes[8].clone()),
        ],
        CrsqlSeq(0),
        CrsqlSeq(10),
        changes[2].estimated_byte_size() + changes[4].estimated_byte_size(),
    );

    assert_eq!(
        chunker.next(),
        Some(Ok((
            vec![changes[2].clone(), changes[4].clone(),],
            dbsr(0, 4)
        )))
    );

    assert_eq!(
        chunker.next(),
        Some(Ok((
            vec![changes[7].clone(), changes[8].clone(),],
            dbsr(5, 10)
        )))
    );

    assert_eq!(chunker.next(), None);
}

#[test]
fn empty_stream_yields_one_chunk_over_the_span() {
    let mut chunker: ChunkedChanges<String> =
        ChunkedChanges::new(vec![], CrsqlSeq(0), CrsqlSeq(100), 50);
    assert_eq!(chunker.next(), Some(Ok((vec![], dbsr(0, 100)))));
    assert_eq!(chunker.next(), None);
}

#[test]
fn exact_budget_splits_after_two_records() {
    let c = changes();
    let budget = c[0].estimated_byte_size() + c[1].estimated_byte_size();
    let mut chunker: ChunkedChanges<String> = ChunkedChanges::new(
        vec![Ok(c[0].clone()), Ok(c[1].clone()), Ok(c[2].clone())],
        CrsqlSeq(0),
        CrsqlSeq(100),
        budget,
    );
    assert_eq!(chunker.next(), Some(Ok((vec![c[0].clone(), c[1].clone()], dbsr(0, 1)))));
    assert_eq!(chunker.next(), Some(Ok((vec![c[2].clone()], dbsr(2, 100)))));
    assert_eq!(chunker.next(), None);
}

#[test]
fn single_terminal_record_has_no_trailing_chunk() {
    let c = changes();
    let mut chunker: ChunkedChanges<String> = ChunkedChanges::new(
        vec![Ok(c[0].clone())],
        CrsqlSeq(0),
        CrsqlSeq(0),
        c[0].estimated_byte_size(),
    );
    assert_eq!(chunker.next(), Some(Ok((vec![c[0].clone()], dbsr(0, 0)))));
    assert_eq!(chunker.next(), None);
}

#[test]
fn gaps_with_large_budget_give_one_chunk() {
    let c = changes();
    let mut chunker: ChunkedChanges<String> = ChunkedChanges::new(
        vec![Ok(c[2].clone()), Ok(c[4].clone()), Ok(c[7].clone()), Ok(c[8].clone())],
        CrsqlSeq(0),
        CrsqlSeq(100),
        100000,
    );
    assert_eq!(
        chunker.next(),
        Some(Ok((vec![c[2].clone(), c[4].clone(), c[7].clone(), c[8].clone()], dbsr(0, 100))))
    );
    assert_eq!(chunker.next(), None);
}

#[test]
fn gaps_with_tight_budget_split_in_two() {
    let c = changes();
    let mut chunker: ChunkedChanges<String> = ChunkedChanges::new(
        vec![Ok(c[2].clone()), Ok(c[4].clone()), Ok(c[7].clone()), Ok(c[8].clone())],
        CrsqlSeq(0),
        CrsqlSeq(10),
        c[2].estimated_byte_size() + c[4].estimated_byte_size(),
    );
    assert_eq!(chunker.next(), Some(Ok((vec![c[2].clone(), c[4].clone()], dbsr(0, 4)))));
    assert_eq!(chunker.next(), Some(Ok((vec![c[7].clone(), c[8].clone()], dbsr(5, 10)))));
    assert_eq!(chunker.next(), None);
}

#[test]
fn pulls_past_the_end_keep_yielding_nothing() {
    let c = changes();
    let mut chunker: ChunkedChanges<String> =
        ChunkedChanges::new(vec![Ok(c[3].clone())], CrsqlSeq(0), CrsqlSeq(5), 10);
    assert_eq!(chunker.next(), Some(Ok((vec![c[3].clone()], dbsr(0, 5)))));
    for _ in 0..5 {
        assert_eq!(chunker.next(), None);
    }
}

#[test]
fn oversized_record_is_its_own_chunk() {
    let c = changes();
    let mut chunker: ChunkedChanges<String> = ChunkedChanges::new(
        vec![Ok(c[0].clone()), Ok(c[1].clone()), Ok(c[2].clone())],
        CrsqlSeq(0),
        CrsqlSeq(2),
        1,
    );
    assert_eq!(chunker.next(), Some(Ok((vec![c[0].clone()], dbsr(0, 0)))));
    assert_eq!(chunker.next(), Some(Ok((vec![c[1].clone()], dbsr(1, 1)))));
    assert_eq!(chunker.next(), Some(Ok((vec![c[2].clone()], dbsr(2, 2)))));
    assert_eq!(chunker.next(), None);
}

#[test]
fn source_fault_is_passed_on_and_ends_the_stream() {
    let c = changes();
    let mut chunker: ChunkedChanges<String> = ChunkedChanges::new(
        vec![Ok(c[0].clone()), Err("disk".to_string()), Ok(c[2].clone())],
        CrsqlSeq(0),
        CrsqlSeq(10),
        100000,
    );
    assert_eq!(chunker.next(), Some(Err("disk".to_string())));
    assert_eq!(chunker.next(), None);
}

#[test]
fn chunks_tile_the_span_and_keep_every_record() {
    let c = changes();
    let picked: Vec<Change> = [1usize, 2, 5, 6, 9, 13, 14].iter().map(|i| c[*i].clone()).collect();
    let budget = c[0].estimated_byte_size() * 2;
    let mut chunker: ChunkedChanges<String> = ChunkedChanges::new(
        picked.iter().cloned().map(Ok).collect(),
        CrsqlSeq(0),
        CrsqlSeq(20),
        budget,
    );
    let mut next_start = 0u64;
    let mut seen: Vec<Change> = vec![];
    let mut last_end = None;
    while let Some(item) = chunker.next() {
        let (records, range) = item.unwrap();
        assert_eq!(range.start, CrsqlSeq(next_start));
        assert!(range.start <= range.end);
        for r in &records {
            assert!(range.start <= r.seq && r.seq <= range.end);
        }
        next_start = range.end.0 + 1;
        last_end = Some(range.end);
        seen.extend(records);
    }
    assert_eq!(last_end, Some(CrsqlSeq(20)));
    assert_eq!(seen, picked);
}

#[test]
fn budget_can_be_read_and_changed() {
    let mut chunker: ChunkedChanges<String> =
        ChunkedChanges::new(vec![], CrsqlSeq(0), CrsqlSeq(1), MAX_CHANGES_BYTE_SIZE);
    assert_eq!(chunker.max_buf_size(), 8192);
    chunker.set_max_buf_size(10);
    assert_eq!(chunker.max_buf_size(), 10);
}

#[test]
fn byte_size_of_a_default_change() {
    let c = Change::default();
    assert_eq!(c.estimated_byte_size(), 1 + 56);
}

#[test]
fn byte_size_counts_variable_fields() {
    let c = Change {
        table: "tests".to_string(),
        pk: vec![1, 2, 3],
        cid: "text".to_string(),
        val: SqliteValue::Text("h\u{e9}llo".to_string()),
        ..Default::default()
    };
    assert_eq!(c.estimated_byte_size(), 5 + 3 + 4 + 6 + 56);
    let b = Change { val: SqliteValue::Blob(vec![0; 10]), ..Default::default() };
    assert_eq!(b.estimated_byte_size(), 10 + 56);
    let i = Change { val: SqliteValue::Integer(-4), ..Default::default() };
    assert_eq!(i.estimated_byte_size(), 8 + 56);
    let r = Change { val: SqliteValue::Real(1.5f64.to_bits()), ..Default::default() };
    assert_eq!(r.estimated_byte_size(), 8 + 56);
}
