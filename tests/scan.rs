use smem::compare::{Arith, FloatOps, FloatOrder, FloatPair, FloatSyntax, ScanMode};
use smem::value::ValueType;

fn ops() -> FloatOps<
    impl Fn(Vec<char>, FloatSyntax) -> Option<ValueType>,
    impl Fn(FloatPair) -> FloatOrder,
    impl Fn(FloatPair, Arith) -> u64,
> {
    FloatOps {
        parse: |t: Vec<char>, syntax: FloatSyntax| {
            let text: String = t.into_iter().collect();
            match syntax {
                FloatSyntax::Single => text.parse::<f32>().ok().map(|x| ValueType::Float32(x.to_bits())),
                FloatSyntax::Double => text.parse::<f64>().ok().map(|x| ValueType::Float64(x.to_bits())),
                FloatSyntax::Auto => text.parse::<f64>().ok().map(|x| {
                    if x.abs() <= f32::MAX as f64 {
                        ValueType::Float32((x as f32).to_bits())
                    } else {
                        ValueType::Float64(x.to_bits())
                    }
                }),
            }
        },
        order: |p: FloatPair| {
            let (close, above, below) = match p {
                FloatPair::Single(a, b) => {
                    let (x, y) = (f32::from_bits(a), f32::from_bits(b));
                    ((x - y).abs() < f32::EPSILON, x > y, x < y)
                }
                FloatPair::Double(a, b) => {
                    let (x, y) = (f64::from_bits(a), f64::from_bits(b));
                    ((x - y).abs() < f64::EPSILON, x > y, x < y)
                }
            };
            if close {
                FloatOrder::Close
            } else if above {
                FloatOrder::Above
            } else if below {
                FloatOrder::Below
            } else {
                FloatOrder::Unordered
            }
        },
        arith: |p: FloatPair, op: Arith| match p {
            FloatPair::Single(a, b) => {
                let (x, y) = (f32::from_bits(a), f32::from_bits(b));
                (match op {
                    Arith::Sum => x + y,
                    Arith::Difference => x - y,
                })
                .to_bits() as u64
            }
            FloatPair::Double(a, b) => {
                let (x, y) = (f64::from_bits(a), f64::from_bits(b));
                (match op {
                    Arith::Sum => x + y,
                    Arith::Difference => x - y,
                })
                .to_bits()
            }
        },
    }
}

use smem::region::{parse_maps, select_regions, MemoryRegion, RegionGroup};
use smem::scan::{keys_of, scan_tags, Candidate, MemoryScanner, ScanError};

const A: usize = 0x1000;

fn anon(start: usize, end: usize) -> Vec<RegionGroup> {
    vec![RegionGroup {
        name: "[Anonymous]".to_string(),
        enabled: true,
        regions: vec![MemoryRegion { start, end }],
    }]
}

/// The reads a refinement needs at each current result, one per scanned variant, taken
/// from a byte image of memory starting at `base`.
fn reads_at(s: &MemoryScanner, image: &[u8], base: usize, tags: &[ValueType]) -> Vec<Vec<Option<Vec<u8>>>> {
    s.scan_results
        .iter()
        .map(|&a| {
            tags.iter()
                .map(|t| {
                    let n = ValueType::type_size(t);
                    let off = a - base;
                    if off + n <= image.len() {
                        Some(image[off..off + n].to_vec())
                    } else {
                        None
                    }
                })
                .collect()
        })
        .collect()
}

fn tags_of(text: &str) -> Vec<ValueType> {
    let inp = ValueType::parse_user_value(text, &ops()).unwrap();
    scan_tags(&inp, &None)
}

#[test]
fn exact_scan_finds_the_int32() {
    let fl = ops();
    let mut s = MemoryScanner::new(1);
    let groups = anon(A, A + 4);
    let reads = vec![Some(vec![0x2a, 0, 0, 0])];
    assert_eq!(s.first_scan(&groups, &None, "42", ScanMode::Exact, &None, &reads, &fl), Ok(()));
    assert_eq!(s.scan_results, vec![A]);
    assert_eq!(s.scan_history.len(), 1);
    // An exact scan compares within one variant, so only the input's own variant
    // (`Int8` for a bare 42) can match.
    assert_eq!(s.scan_history[0], vec![Candidate { addr: A, value: ValueType::Int8(42) }]);
}

#[test]
fn increased_keeps_the_grown_value() {
    let fl = ops();
    let mut s = MemoryScanner::new(1);
    let groups = anon(A, A + 4);
    let reads = vec![Some(vec![0x2a, 0, 0, 0])];
    s.first_scan(&groups, &None, "42", ScanMode::Exact, &None, &reads, &fl).unwrap();
    let image = [0x2b, 0, 0, 0];
    let r = reads_at(&s, &image, A, &tags_of("42"));
    assert_eq!(s.next_scan("42", ScanMode::Increased, &None, &r, &fl), Ok(()));
    assert_eq!(s.scan_results, vec![A]);
    assert_eq!(s.scan_history[1], vec![Candidate { addr: A, value: ValueType::Int8(43) }]);
    let r = reads_at(&s, &image, A, &tags_of("42"));
    assert_eq!(s.next_scan("42", ScanMode::Exact, &None, &r, &fl), Ok(()));
    assert_eq!(s.scan_results, Vec::<usize>::new());
    assert_eq!(s.scan_history.len(), 3);
}

#[test]
fn exact_float_scan_matches_within_epsilon() {
    let fl = ops();
    let mut s = MemoryScanner::new(1);
    let mut bytes = Vec::new();
    bytes.extend_from_slice(&3.14f32.to_ne_bytes());
    bytes.extend_from_slice(&1.0f32.to_ne_bytes());
    bytes.extend_from_slice(&3.14000001f32.to_ne_bytes());
    bytes.extend_from_slice(&7.5f32.to_ne_bytes());
    let groups = anon(A, A + bytes.len());
    assert_eq!(s.first_scan(&groups, &None, "3.14", ScanMode::Exact, &None, &vec![Some(bytes)], &fl), Ok(()));
    assert_eq!(s.scan_results, vec![A, A + 8]);
}

#[test]
fn baseline_records_every_slot_outside_exact() {
    let fl = ops();
    let mut s = MemoryScanner::new(1);
    let groups = anon(A, A + 4);
    let reads = vec![Some(vec![1, 2, 3, 4])];
    s.first_scan(&groups, &None, "0", ScanMode::Unchanged, &None, &reads, &fl).unwrap();
    assert_eq!(s.scan_results, vec![A, A + 1, A + 2, A + 3]);
    assert_eq!(s.scan_history[0][0].value, ValueType::Int32(0x0403_0201));
    assert_eq!(s.scan_history[0][1].value, ValueType::Int8(2));
    assert_eq!(s.scan_history[0][2].value, ValueType::Int16(0x0403));
}

#[test]
fn unreadable_regions_contribute_nothing() {
    let fl = ops();
    let mut s = MemoryScanner::new(1);
    let mut groups = anon(A, A + 4);
    groups[0].regions.push(MemoryRegion { start: 0x2000, end: 0x2004 });
    let reads = vec![None, Some(vec![42, 0, 0, 0])];
    s.first_scan(&groups, &None, "42", ScanMode::Exact, &None, &reads, &fl).unwrap();
    assert_eq!(s.scan_results, vec![0x2000]);
}

#[test]
fn explicit_type_overrides_the_scan_list() {
    let fl = ops();
    let mut s = MemoryScanner::new(1);
    let groups = anon(A, A + 4);
    let reads = vec![Some(vec![42, 0, 0, 0])];
    let only = Some(vec![ValueType::Int8(0)]);
    s.first_scan(&groups, &None, "42", ScanMode::Exact, &only, &reads, &fl).unwrap();
    assert_eq!(s.scan_history[0], vec![Candidate { addr: A, value: ValueType::Int8(42) }]);
}

#[test]
fn first_scan_errors() {
    let fl = ops();
    let mut s = MemoryScanner::new(1);
    let groups = anon(A, A + 4);
    assert_eq!(
        s.first_scan(&groups, &None, "nope", ScanMode::Exact, &None, &vec![None], &fl),
        Err(ScanError::BadValue)
    );
    let mut off = anon(A, A + 4);
    off[0].enabled = false;
    assert_eq!(
        s.first_scan(&off, &None, "1", ScanMode::Exact, &None, &vec![], &fl),
        Err(ScanError::NoRegions)
    );
    assert!(s.scan_history.is_empty());
    assert_eq!(
        s.next_scan("1", ScanMode::Exact, &None, &vec![], &fl),
        Err(ScanError::NoBaseline)
    );
    assert_eq!(ScanError::NoBaseline.message(), "No baseline");
}

#[test]
fn previous_scan_undoes_a_refinement() {
    let fl = ops();
    let mut s = MemoryScanner::new(1);
    let groups = anon(A, A + 4);
    s.first_scan(&groups, &None, "0", ScanMode::Unchanged, &None, &vec![Some(vec![5, 5, 5, 5])], &fl).unwrap();
    let base = s.scan_results.clone();
    let r = reads_at(&s, &[5, 6, 5, 5], A, &tags_of("0"));
    s.next_scan("0", ScanMode::Changed, &None, &r, &fl).unwrap();
    assert_ne!(s.scan_results, base);
    s.previous_scan();
    assert_eq!(s.scan_results, base);
    assert_eq!(s.scan_history.len(), 1);
    s.previous_scan();
    assert_eq!(s.scan_history.len(), 1);
    s.reset_scan();
    assert!(s.scan_history.is_empty());
    assert!(s.scan_results.is_empty());
}

#[test]
fn refinements_narrow_the_baseline() {
    let fl = ops();
    let mut s = MemoryScanner::new(1);
    let groups = anon(A, A + 8);
    s.first_scan(&groups, &None, "0", ScanMode::Unchanged, &None, &vec![Some(vec![1; 8])], &fl).unwrap();
    let image = [1, 1, 2, 1, 0, 1, 1, 1];
    let r = reads_at(&s, &image, A, &tags_of("0"));
    s.next_scan("0", ScanMode::Unchanged, &None, &r, &fl).unwrap();
    for a in &s.scan_history[1] {
        assert!(s.scan_history[0].iter().any(|b| b.addr == a.addr));
    }
    assert!(s.scan_history[1].len() < s.scan_history[0].len());
}

#[test]
fn increased_by_and_decreased_by() {
    let fl = ops();
    let mut s = MemoryScanner::new(1);
    let groups = anon(A, A + 1);
    s.first_scan(&groups, &None, "10", ScanMode::Exact, &None, &vec![Some(vec![10])], &fl).unwrap();
    assert_eq!(s.scan_results, vec![A]);
    let only = Some(vec![ValueType::Int8(0)]);
    s.next_scan("5", ScanMode::IncreasedBy, &only, &vec![vec![Some(vec![15])]], &fl).unwrap();
    assert_eq!(s.scan_results, vec![A]);
    s.next_scan("5", ScanMode::DecreasedBy, &only, &vec![vec![Some(vec![11])]], &fl).unwrap();
    assert!(s.scan_results.is_empty());
}

#[test]
fn address_set_encodes_the_value() {
    let fl = ops();
    let s = MemoryScanner::new(1);
    assert_eq!(s.address_set("0", &fl), Ok(vec![0]));
    assert_eq!(s.address_set("int:0", &fl), Ok(vec![0, 0, 0, 0]));
    assert_eq!(s.address_set("i16:258", &fl), Ok(258i16.to_ne_bytes().to_vec()));
    assert_eq!(s.address_set("?", &fl), Err(ScanError::BadValue));
}

#[test]
fn attach_state() {
    let mut s = MemoryScanner::new(0);
    assert!(!s.needs_attach());
    s.set_pid(5);
    assert!(s.needs_attach());
    s.set_attached();
    assert!(!s.needs_attach());
    s.set_pid(6);
    assert!(!s.is_attached);
    assert_eq!(s.pid, 6);
    s.set_attached();
    s.detach();
    assert!(!s.is_attached);
}

#[test]
fn keys_follow_the_map() {
    let m = vec![
        Candidate { addr: 3, value: ValueType::Int8(1) },
        Candidate { addr: 9, value: ValueType::Bool(true) },
    ];
    assert_eq!(keys_of(&m), vec![3, 9]);
}

const MAPS: &str = "\
55d0c0000000-55d0c0001000 r--p 00000000 08:01 1234 /usr/bin/app
7f0000000000-7f0000001000 rw-p 00000000 00:00 0 [stack]
55d0c1000000-55d0c1021000 rw-p 00000000 00:00 0 [heap]
7f1000000000-7f1000002000 rw-p 00000000 00:00 0
7f2000000000-7f2000001000 r-xp 00000000 08:01 99 /lib/libc.so
7f3000000000-7f3000001000 ---p 00000000 00:00 0
7f4000000000-7f4000001000 rw-p 00000000 00:00 0
7f5000000000-7f5000001000 rw-p 00000000 08:01 1234 /usr/bin/app
7f6000000000-7f6000000000 rw-p 00000000 00:00 0
";

#[test]
fn map_groups_sort_anonymous_heap_brackets_files() {
    let g = parse_maps(MAPS).unwrap();
    let names: Vec<&str> = g.iter().map(|g| g.name.as_str()).collect();
    assert_eq!(names, vec!["[Anonymous]", "[heap]", "[stack]", "/lib/libc.so", "/usr/bin/app"]);
    assert!(g.iter().all(|g| g.enabled));
    assert_eq!(
        g[0].regions,
        vec![
            MemoryRegion { start: 0x7f1000000000, end: 0x7f1000002000 },
            MemoryRegion { start: 0x7f4000000000, end: 0x7f4000001000 },
        ]
    );
    assert_eq!(g[4].regions.len(), 2);
}

#[test]
fn map_group_order_named_in_the_description() {
    let text = "1000-2000 rw-p 0 0 0 [stack]\n3000-4000 rw-p 0 0 0 [heap]\n5000-6000 rw-p\n7000-8000 r--p 0 0 0 libc.so\n9000-a000 r--p 0 0 0 app\n";
    let g = parse_maps(text).unwrap();
    let names: Vec<&str> = g.iter().map(|g| g.name.as_str()).collect();
    assert_eq!(names, vec!["[Anonymous]", "[heap]", "[stack]", "app", "libc.so"]);
}

#[test]
fn map_paths_with_spaces_are_joined() {
    let g = parse_maps("1000-2000 r--p 0 0 0 /tmp/a   b (deleted)").unwrap();
    assert_eq!(g[0].name, "/tmp/a b (deleted)");
}

#[test]
fn map_with_bad_range_is_refused() {
    assert!(parse_maps("zz-2000 r--p 0 0 0 x\n").is_none());
    assert!(parse_maps("").unwrap().is_empty());
    assert!(parse_maps("garbage\n1000 r--p\n").unwrap().is_empty());
}

#[test]
fn selection_follows_focus_and_enabled() {
    let mut g = parse_maps(MAPS).unwrap();
    assert_eq!(select_regions(&g, &None).len(), 7);
    assert_eq!(
        select_regions(&g, &Some("[heap]".to_string())),
        vec![MemoryRegion { start: 0x55d0c1000000, end: 0x55d0c1021000 }]
    );
    g[1].enabled = false;
    assert!(select_regions(&g, &Some("[heap]".to_string())).is_empty());
    assert_eq!(select_regions(&g, &None).len(), 6);
}

#[test]
fn error_messages() {
    assert_eq!(ScanError::BadValue.message(), "Failed to parse value");
    assert_eq!(ScanError::NoRegions.message(), "No enabled regions");
    assert_eq!(ScanError::NotAttached.message(), "not attached");
    assert_eq!(ScanError::IoError.message(), "I/O error");
}

#[test]
fn focus_limits_the_first_scan() {
    let fl = ops();
    let mut s = MemoryScanner::new(1);
    let mut groups = anon(A, A + 1);
    groups.push(RegionGroup {
        name: "[heap]".to_string(),
        enabled: true,
        regions: vec![MemoryRegion { start: 0x9000, end: 0x9001 }],
    });
    let focus = Some("[heap]".to_string());
    s.first_scan(&groups, &focus, "7", ScanMode::Exact, &None, &vec![Some(vec![7])], &fl).unwrap();
    assert_eq!(s.scan_results, vec![0x9000]);
}

#[test]
fn later_regions_win_on_shared_addresses() {
    let fl = ops();
    let mut s = MemoryScanner::new(1);
    let mut groups = anon(A, A + 1);
    groups[0].regions.push(MemoryRegion { start: A, end: A + 1 });
    let only = Some(vec![ValueType::UInt8(0)]);
    s.first_scan(&groups, &None, "0", ScanMode::Unchanged, &only, &vec![Some(vec![1]), Some(vec![2])], &fl).unwrap();
    assert_eq!(s.scan_history[0], vec![Candidate { addr: A, value: ValueType::UInt8(2) }]);
}
