use rbashorg::assembler::Assembler;
use rbashorg::chunks::{prepare_chunks, Joke};
use rbashorg::dirs::DirManager;
use rbashorg::http::body_start;
use rbashorg::locator::{BackwardScan, ForwardScan, ScanStep};
use rbashorg::partition::divide_range_into_intervals;
use rbashorg::selector::{
    choose_record, records_from_delimiters, DelimiterIndex, LazyProbe, ProbeStep,
};

fn find_next(file: &[u8], from: u32, width: u32) -> Option<u32> {
    let mut scan = ForwardScan::new(from, file.len() as u32, width);
    let mut step = scan.request();
    loop {
        match step {
            ScanStep::Read(s, e) => step = scan.feed(&file[s as usize..e as usize]),
            ScanStep::Found(o) => return Some(o),
            ScanStep::NotFound => return None,
        }
    }
}

fn find_prev(file: &[u8], before: u32, width: u32) -> Option<u32> {
    let mut scan = BackwardScan::new(before, width);
    let mut step = scan.request();
    loop {
        match step {
            ScanStep::Read(s, e) => step = scan.feed(&file[s as usize..e as usize]),
            ScanStep::Found(o) => return Some(o),
            ScanStep::NotFound => return None,
        }
    }
}

fn run_probe(file: &[u8], mut probe: LazyProbe) -> Option<(u32, u32)> {
    let mut step = probe.request();
    loop {
        match step {
            ProbeStep::Read(s, e) => step = probe.feed(&file[s as usize..e as usize]),
            ProbeStep::Record(s, e) => return Some((s, e)),
            ProbeStep::NotFound => return None,
        }
    }
}

fn eager_records(file: &[u8], width: u32) -> Vec<(u32, u32)> {
    let mut index = DelimiterIndex::new();
    for (s, e) in divide_range_into_intervals(0, file.len() as u32, width) {
        index.feed(&file[s as usize..e as usize]);
    }
    records_from_delimiters(&index.offsets)
}

fn assemble(file: &[u8], start: u32, end: u32, width: u32) -> String {
    let windows = divide_range_into_intervals(start, end, width);
    let mut assembler = Assembler::new();
    let mut out = String::new();
    for (k, (s, e)) in windows.iter().enumerate() {
        let is_last = k + 1 == windows.len();
        out.push_str(&assembler.push_window(&file[*s as usize..*e as usize], is_last));
    }
    out
}

#[test]
fn partition_exact_windows() {
    assert_eq!(divide_range_into_intervals(0, 12, 5), vec![(0, 5), (5, 10), (10, 12)]);
    assert_eq!(divide_range_into_intervals(3, 8, 5), vec![(3, 8)]);
    assert_eq!(divide_range_into_intervals(3, 6, 1), vec![(3, 4), (4, 5), (5, 6)]);
}

#[test]
fn partition_tiles_the_range() {
    for start in 0u32..12 {
        for end in start..20 {
            for width in 1u32..7 {
                let w = divide_range_into_intervals(start, end, width);
                let mut cur = start;
                for (k, (s, e)) in w.iter().enumerate() {
                    assert_eq!(*s, cur);
                    assert!(s < e);
                    assert!(e - s <= width);
                    if k + 1 < w.len() {
                        assert_eq!(e - s, width);
                    }
                    cur = *e;
                }
                assert_eq!(cur, end);
            }
        }
    }
}

#[test]
fn partition_empty_range() {
    assert!(divide_range_into_intervals(7, 7, 5).is_empty());
    assert!(divide_range_into_intervals(9, 7, 5).is_empty());
}

#[test]
fn partition_near_the_top_of_u32() {
    let w = divide_range_into_intervals(u32::MAX - 7, u32::MAX, 5);
    assert_eq!(w, vec![(u32::MAX - 7, u32::MAX - 2), (u32::MAX - 2, u32::MAX)]);
}

#[test]
fn forward_scan_finds_first_delimiter() {
    let file = b"ab%cd%ef";
    for width in 1u32..10 {
        assert_eq!(find_next(file, 0, width), Some(2));
        assert_eq!(find_next(file, 2, width), Some(2));
        assert_eq!(find_next(file, 3, width), Some(5));
        assert_eq!(find_next(file, 6, width), None);
    }
}

#[test]
fn backward_scan_finds_last_delimiter() {
    let file = b"ab%cd%ef";
    for width in 1u32..10 {
        assert_eq!(find_prev(file, 8, width), Some(5));
        assert_eq!(find_prev(file, 5, width), Some(2));
        assert_eq!(find_prev(file, 2, width), None);
        assert_eq!(find_prev(file, 0, width), None);
    }
}

#[test]
fn next_then_prev_gives_the_other_delimiter() {
    let file = b"x%abcd%y";
    for from in 2u32..7 {
        for width in 1u32..5 {
            let next = find_next(file, from, width).unwrap();
            assert_eq!(next, 6);
            assert_eq!(find_prev(file, next, width), Some(1));
        }
    }
}

#[test]
fn lazy_probe_selects_surrounding_record() {
    let file = b"%AAA%BB%";
    let size = file.len() as u32;
    assert_eq!(run_probe(file, LazyProbe::new(2, size, 2)), Some((1, 4)));
    assert_eq!(run_probe(file, LazyProbe::new(4, size, 2)), Some((1, 4)));
    assert_eq!(run_probe(file, LazyProbe::new(5, size, 3)), Some((5, 7)));
    assert_eq!(run_probe(file, LazyProbe::new(0, size, 3)), None);
}

#[test]
fn lazy_probe_contains_probe_off_delimiter() {
    let file = b"%one%%three%x%four,five%";
    let size = file.len() as u32;
    for probe in 0..size {
        for width in 1u32..6 {
            let got = run_probe(file, LazyProbe::new(probe, size, width));
            if file[probe as usize] != b'%' && probe > 0 && probe < size - 1 {
                let (s, e) = got.unwrap();
                assert!(s <= probe && probe < e);
                assert_eq!(file[s as usize - 1], b'%');
                assert_eq!(file[e as usize], b'%');
            }
        }
    }
}

#[test]
fn lazy_probe_without_delimiters() {
    let file = b"no records here";
    let size = file.len() as u32;
    for probe in 0..size {
        assert_eq!(run_probe(file, LazyProbe::new(probe, size, 4)), None);
    }
}

#[test]
fn lazy_probe_random_lands_in_a_record() {
    let file = b"%AAA%BB%";
    for _ in 0..50 {
        let probe = LazyProbe::random(file.len() as u32, 3);
        assert!(probe.probe < file.len() as u32);
        let got = run_probe(file, probe);
        assert!(got.is_none() || got == Some((1, 4)) || got == Some((5, 7)));
    }
}

#[test]
fn eager_index_skips_zero_width_gaps() {
    for width in 1u32..10 {
        assert_eq!(eager_records(b"%AAA%BB%", width), vec![(1, 4), (5, 7)]);
        assert_eq!(eager_records(b"%%a%%", width), vec![(2, 3)]);
    }
}

#[test]
fn delimiter_index_offsets() {
    let mut index = DelimiterIndex::new();
    index.feed(b"%ab");
    index.feed(b"%");
    index.feed(b"");
    index.feed(b"c%");
    assert_eq!(index.offsets, vec![0, 3, 5]);
    assert_eq!(index.scanned, 6);
}

#[test]
fn eager_index_without_records() {
    assert!(eager_records(b"plain text", 4).is_empty());
    assert!(eager_records(b"%", 4).is_empty());
    assert_eq!(choose_record(&eager_records(b"%%%", 2)), None);
}

#[test]
fn uniform_pick_is_one_of_the_records() {
    let records = eager_records(b"%AAA%BB%", 5);
    for _ in 0..50 {
        let r = choose_record(&records).unwrap();
        assert!(r == (1, 4) || r == (5, 7));
    }
}

#[test]
fn reassembly_independent_of_width() {
    let text = "%h\u{e9}llo w\u{f6}rld \u{20ac} \u{1d11e}!%";
    let file = text.as_bytes();
    let end = file.len() as u32 - 1;
    let expected = "h\u{e9}llo w\u{f6}rld \u{20ac} \u{1d11e}!";
    for width in [1u32, 2, 3, 4, 5, end - 1] {
        assert_eq!(assemble(file, 1, end, width), expected);
        assert_eq!(assemble(file, 1, end + 1, width), expected);
    }
}

#[test]
fn split_character_is_carried() {
    let mut a = Assembler::new();
    let bytes = "\u{e9}".as_bytes();
    assert_eq!(a.push_window(&bytes[..1], false), "");
    assert_eq!(a.carry, vec![bytes[0]]);
    assert_eq!(a.push_window(&bytes[1..], true), "\u{e9}");
    assert!(a.carry.is_empty());
}

#[test]
fn trailing_delimiter_dropped_only_at_record_end() {
    let mut a = Assembler::new();
    assert_eq!(a.push_window(b"ab%", false), "ab%");
    assert_eq!(a.push_window(b"cd%", true), "cd");
    let mut b = Assembler::new();
    assert_eq!(b.push_window(b"%", true), "");
}

#[test]
fn invalid_bytes_are_held_back() {
    let mut a = Assembler::new();
    assert_eq!(a.push_window(&[b'o', b'k', 0xff, b'x'], false), "ok");
    assert_eq!(a.carry, vec![0xff, b'x']);
    assert_eq!(a.push_window(b"yz", true), "");
    assert_eq!(a.carry, vec![0xff, b'x', b'y', b'z']);
}

#[test]
fn content_and_index_paths() {
    let d = DirManager::new("/home/u/.local/share/rbashorg".to_string());
    assert_eq!(d.get_content_path(), "/home/u/.local/share/rbashorg/bashorg.txt");
    assert_eq!(d.get_indexes_path(), "/home/u/.local/share/rbashorg/indexes.txt");
    let slash = DirManager::new("/data/".to_string());
    assert_eq!(slash.get_content_path(), "/data/bashorg.txt");
    let empty = DirManager::new(String::new());
    assert_eq!(empty.get_indexes_path(), "indexes.txt");
}

#[test]
fn chunk_cursor_walks_windows() {
    let d = DirManager::new("/c".to_string());
    let mut chunks = prepare_chunks(&d, 3, 15);
    assert_eq!(chunks.path, "/c/bashorg.txt");
    let spans: Vec<(u32, u32)> = chunks.chunks.iter().map(|j: &Joke| (j.start, j.end)).collect();
    assert_eq!(spans, vec![(3, 8), (8, 13), (13, 15)]);
    assert!(!chunks.is_done());
    assert_eq!(chunks.next(), Some((3, 8)));
    assert_eq!(chunks.next(), Some((8, 13)));
    assert_eq!(chunks.next(), Some((13, 15)));
    assert!(chunks.is_done());
    assert_eq!(chunks.next(), None);
    assert!(prepare_chunks(&d, 4, 4).is_done());
}

#[test]
fn end_to_end_hello_world() {
    let file = b"%hello%world%";
    let records = eager_records(file, 5);
    assert_eq!(records, vec![(1, 6), (7, 12)]);
    let d = DirManager::new("/c".to_string());
    let mut printed = Vec::new();
    for (s, e) in &records {
        let mut chunks = prepare_chunks(&d, *s, *e);
        let mut a = Assembler::new();
        let mut out = String::new();
        while let Some((ws, we)) = chunks.next() {
            out.push_str(&a.push_window(&file[ws as usize..we as usize], chunks.is_done()));
        }
        printed.push(out);
    }
    assert_eq!(printed, vec!["hello".to_string(), "world".to_string()]);
    let picked = choose_record(&records).unwrap();
    assert!(records.contains(&picked));
}

#[test]
fn http_body_after_first_blank_line() {
    assert_eq!(body_start(b"HTTP/1.1 200 OK\r\nA: b\r\n\r\n%x%\r\n\r\n"), Some(25));
    assert_eq!(body_start(b"\r\n\r\n"), Some(4));
    assert_eq!(body_start(b"HTTP/1.1 200 OK\r\n\r"), None);
    assert_eq!(body_start(b""), None);
}
