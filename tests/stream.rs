use trackable_s3_stream::slice::SliceBodyStream;
use trackable_s3_stream::stream::{
    ConfigError, Phase, Progress, Pull, TrackableBodyStream, DEFAULT_BUFFER_SIZE,
};

fn source(n: usize) -> Vec<u8> {
    (0..n).map(|i| (i % 251) as u8).collect()
}

fn chunk_lengths(chunks: &[Vec<u8>]) -> Vec<usize> {
    chunks.iter().map(|c| c.len()).collect()
}

#[test]
fn five_thousand_bytes_in_default_chunks() {
    let data = source(5000);
    let mut s = SliceBodyStream::new(&data);
    assert_eq!(s.stream().content_length(), 5000);
    let mut lengths = Vec::new();
    let mut records = Vec::new();
    loop {
        match s.pull() {
            Pull::Chunk(bytes, p) => {
                lengths.push(bytes.len());
                records.push(p);
            }
            Pull::End => break,
            other => panic!("unexpected pull: {:?}", other),
        }
    }
    assert_eq!(lengths, vec![2048, 2048, 904]);
    assert_eq!(
        records,
        vec![
            Progress { total: 5000, sent: 2048, chunk: 2048 },
            Progress { total: 5000, sent: 4096, chunk: 2048 },
            Progress { total: 5000, sent: 5000, chunk: 904 },
        ]
    );
    assert_eq!(s.stream().bytes_read(), 5000);
    assert_eq!(s.stream().current_phase(), Phase::Ended);
}

#[test]
fn empty_source_ends_at_once() {
    let data: Vec<u8> = Vec::new();
    let mut s = SliceBodyStream::new(&data);
    assert_eq!(s.stream().content_length(), 0);
    assert!(matches!(s.pull(), Pull::End));
    let (chunks, records) = SliceBodyStream::new(&data).drain();
    assert!(chunks.is_empty());
    assert!(records.is_empty());
}

#[test]
fn pulls_after_the_end_keep_ending() {
    let data = source(10);
    let mut s = SliceBodyStream::new(&data);
    assert!(matches!(s.pull(), Pull::Chunk(ref b, _) if b.len() == 10));
    for _ in 0..3 {
        assert!(matches!(s.pull(), Pull::End));
        assert_eq!(s.stream().bytes_read(), 10);
    }
}

#[test]
fn chunks_rebuild_the_source_in_order() {
    for &(n, c) in &[(0usize, 1usize), (1, 1), (7, 3), (9, 3), (5000, 2048), (4096, 2048), (100, 1000)] {
        let data = source(n);
        let mut s = SliceBodyStream::new(&data);
        s.set_buffer_size(c).unwrap();
        let (chunks, records) = s.drain();
        let joined: Vec<u8> = chunks.concat();
        assert_eq!(joined, data);
        assert_eq!(chunks.len(), (n + c - 1) / c);
        assert_eq!(records.len(), chunks.len());
        assert!(chunks.iter().all(|ch| !ch.is_empty()));
        let mut sent = 0u64;
        for (ch, p) in chunks.iter().zip(records.iter()) {
            sent += ch.len() as u64;
            assert_eq!(*p, Progress { total: n as u64, sent, chunk: ch.len() as u64 });
        }
        assert_eq!(sent, n as u64);
        if let Some(last) = records.last() {
            assert_eq!(last.sent, n as u64);
        }
    }
}

#[test]
fn callback_count_is_size_over_chunk_rounded_up() {
    let data = source(10);
    let mut s = SliceBodyStream::new(&data);
    s.set_buffer_size(4).unwrap();
    let (chunks, records) = s.drain();
    assert_eq!(chunk_lengths(&chunks), vec![4, 4, 2]);
    assert_eq!(records.iter().map(|p| p.sent).collect::<Vec<_>>(), vec![4, 8, 10]);
}

#[test]
fn zero_buffer_size_is_refused() {
    let data = source(10);
    let mut s = SliceBodyStream::new(&data);
    assert_eq!(s.set_buffer_size(0), Err(ConfigError::ZeroBufferSize));
    let mut t = TrackableBodyStream::new(10);
    assert_eq!(t.set_buffer_size(0), Err(ConfigError::ZeroBufferSize));
    assert_eq!(t.read_request::<()>().ok(), Some(DEFAULT_BUFFER_SIZE));
    assert_eq!(t.set_buffer_size(16), Ok(()));
    assert_eq!(t.read_request::<()>().ok(), Some(16));
}

#[test]
fn read_failure_ends_the_sequence() {
    let mut t = TrackableBodyStream::new(100);
    t.set_buffer_size(30).unwrap();
    let first = t.complete_read::<&str>(Ok(vec![1u8; 30]));
    assert!(matches!(first, Pull::Chunk(ref b, p) if b == &vec![1u8; 30]
        && p == Progress { total: 100, sent: 30, chunk: 30 }));
    let second = t.complete_read::<&str>(Ok(vec![2u8; 30]));
    assert!(matches!(second, Pull::Chunk(_, p) if p.sent == 60));
    let failed = t.complete_read::<&str>(Err("disk gone"));
    assert!(matches!(failed, Pull::Failed("disk gone")));
    assert_eq!(t.bytes_read(), 60);
    assert_eq!(t.current_phase(), Phase::Failed);
    assert!(matches!(t.read_request::<&str>(), Err(Pull::Rejected)));
    assert!(matches!(t.complete_read::<&str>(Ok(vec![3u8; 5])), Pull::Rejected));
    assert_eq!(t.bytes_read(), 60);
    if let Pull::Chunk(bytes, _) = first {
        assert_eq!(bytes, vec![1u8; 30]);
    }
}

#[test]
fn empty_read_ends_cleanly() {
    let mut t = TrackableBodyStream::new(3);
    assert!(matches!(t.complete_read::<()>(Ok(vec![9, 9, 9])), Pull::Chunk(_, p) if p.sent == 3));
    assert!(matches!(t.complete_read::<()>(Ok(Vec::new())), Pull::End));
    assert_eq!(t.current_phase(), Phase::Ended);
    assert!(matches!(t.read_request::<()>(), Err(Pull::End)));
    assert!(matches!(t.complete_read::<()>(Ok(vec![1])), Pull::End));
    assert_eq!(t.bytes_read(), 3);
}

#[test]
fn size_hint_tracks_what_is_left() {
    let mut t = TrackableBodyStream::new(100);
    assert_eq!(t.size_hint(), (100, Some(100)));
    t.complete_read::<()>(Ok(vec![0; 40]));
    assert_eq!(t.size_hint(), (60, Some(100)));
    t.complete_read::<()>(Ok(vec![0; 70]));
    assert_eq!(t.bytes_read(), 110);
    assert_eq!(t.size_hint(), (0, Some(100)));
}

#[test]
fn content_length_saturates() {
    assert_eq!(TrackableBodyStream::new(7).content_length(), 7);
    assert_eq!(TrackableBodyStream::new(i64::MAX as u64).content_length(), i64::MAX);
    assert_eq!(TrackableBodyStream::new(u64::MAX).content_length(), i64::MAX);
}
