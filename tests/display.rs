use gz_inspector::scan::ChunkInfo;
use gz_inspector::settings::{route_chunk, ChunkFilterSettings, PreviewSettings};
use gz_inspector::tail::TailBuffer;

fn chunk(n: usize) -> ChunkInfo {
    ChunkInfo {
        chunk_number: n,
        offset: 100 * n as u64,
        compressed_size: 100,
        uncompressed_size: 300,
        header_info: "deflate|".to_string(),
        preview_data: None,
    }
}

fn numbers(b: &TailBuffer) -> Vec<usize> {
    b.get_buffered().iter().map(|c| c.chunk_number).collect()
}

#[test]
fn tail_buffer_keeps_last_three_of_seven() {
    let mut b = TailBuffer::new(3);
    for n in 0..7 {
        b.add(chunk(n));
    }
    assert_eq!(b.total_seen, 7);
    assert_eq!(b.chunks.len(), 3);
    assert_eq!(numbers(&b), vec![4, 5, 6]);
}

#[test]
fn tail_buffer_orders_every_fill_level() {
    for cap in 1..6usize {
        let mut b = TailBuffer::new(cap);
        for n in 0..20usize {
            b.add(chunk(n));
            let seen = n + 1;
            let first = seen.saturating_sub(cap);
            assert_eq!(numbers(&b), (first..seen).collect::<Vec<_>>());
        }
    }
}

#[test]
fn tail_buffer_under_capacity_and_empty() {
    let mut b = TailBuffer::new(4);
    assert!(numbers(&b).is_empty());
    b.add(chunk(0));
    b.add(chunk(1));
    assert_eq!(numbers(&b), vec![0, 1]);
    let mut z = TailBuffer::new(0);
    z.add(chunk(0));
    z.add(chunk(1));
    assert_eq!(z.total_seen, 2);
    assert!(numbers(&z).is_empty());
}

#[test]
fn should_buffer_counts_from_total_seen() {
    let mut b = TailBuffer::new(3);
    assert!(b.should_buffer(0));
    for n in 0..5 {
        b.add(chunk(n));
    }
    assert!(!b.should_buffer(1));
    assert!(b.should_buffer(2));
    assert!(b.should_buffer(9));
}

#[test]
fn preview_settings_parse() {
    let p = PreviewSettings::parse(Some("5:3")).unwrap();
    assert_eq!((p.head_lines, p.tail_lines), (5, Some(3)));
    let p = PreviewSettings::parse(Some("12")).unwrap();
    assert_eq!((p.head_lines, p.tail_lines), (12, None));
    let p = PreviewSettings::parse(Some("abc:2")).unwrap();
    assert_eq!((p.head_lines, p.tail_lines), (5, Some(2)));
    let p = PreviewSettings::parse(Some("+7:")).unwrap();
    assert_eq!((p.head_lines, p.tail_lines), (7, None));
    let p = PreviewSettings::parse(Some("1:x")).unwrap();
    assert_eq!((p.head_lines, p.tail_lines), (1, None));
    let p = PreviewSettings::parse(Some("10:4:9")).unwrap();
    assert_eq!((p.head_lines, p.tail_lines), (10, Some(4)));
    let p = PreviewSettings::parse(Some("")).unwrap();
    assert_eq!((p.head_lines, p.tail_lines), (5, None));
    let p = PreviewSettings::parse(Some("-1:99999999999999999999999")).unwrap();
    assert_eq!((p.head_lines, p.tail_lines), (5, None));
    assert!(PreviewSettings::parse(None).is_none());
}

#[test]
fn chunk_filter_parse_and_selection() {
    let f = ChunkFilterSettings::parse(Some("2:3")).unwrap();
    assert_eq!((f.head_chunks, f.tail_chunks), (2, Some(3)));
    assert!(f.should_print_chunk(0, 10));
    assert!(f.should_print_chunk(1, 10));
    assert!(!f.should_print_chunk(2, 10));
    assert!(!f.should_print_chunk(6, 10));
    assert!(f.should_print_chunk(7, 10));
    assert!(f.should_print_chunk(9, 10));
    let g = ChunkFilterSettings::parse(Some("1")).unwrap();
    assert!(!g.should_print_chunk(5, 10));
    assert!(ChunkFilterSettings::parse(None).is_none());
}

#[test]
fn routing_sends_head_out_and_tail_to_buffer() {
    let filter = ChunkFilterSettings::parse(Some("2:2"));
    let mut tail = Some(TailBuffer::new(2));
    let mut shown = Vec::new();
    for n in 0..6 {
        if let Some(c) = route_chunk(&filter, &mut tail, chunk(n)) {
            shown.push(c.chunk_number);
        }
    }
    assert_eq!(shown, vec![0, 1]);
    assert_eq!(numbers(tail.as_ref().unwrap()), vec![4, 5]);

    let mut none: Option<TailBuffer> = None;
    assert!(route_chunk(&None, &mut none, chunk(9)).is_some());
    let head_only = ChunkFilterSettings::parse(Some("1"));
    assert!(route_chunk(&head_only, &mut none, chunk(9)).is_some());
}
