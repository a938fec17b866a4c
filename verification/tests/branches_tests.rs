use angora::branches::bucket;
use angora::branches::merge_trace;
use angora::branches::GlobalBranches;
use angora::status::StatusType;

#[test]
fn buckets() {
    let expected = [
        (0u8, 0u8),
        (1, 1),
        (2, 2),
        (3, 4),
        (4, 8),
        (7, 8),
        (8, 16),
        (15, 16),
        (16, 32),
        (31, 32),
        (32, 64),
        (127, 64),
        (128, 128),
        (255, 128),
    ];
    for (count, bit) in expected {
        assert_eq!(bucket(count), bit);
    }
}

#[test]
fn merge_marks_buckets() {
    let mut map = vec![255u8; 4];
    let r = merge_trace(&mut map, &vec![0, 1, 3, 200]);
    assert_eq!(r, (true, true, 3));
    assert_eq!(map, vec![255, 254, 251, 127]);
    // the same edges in other buckets: a new path, no new edge
    let r = merge_trace(&mut map, &vec![0, 2, 3, 200]);
    assert_eq!(r, (true, false, 3));
    assert_eq!(map, vec![255, 252, 251, 127]);
}

#[test]
fn replay_finds_nothing() {
    let trace = vec![0u8, 1, 5, 0, 77, 255, 2, 3];
    let mut map = vec![255u8; 8];
    let first = merge_trace(&mut map, &trace);
    assert_eq!(first, (true, true, 6));
    let seen = map.clone();
    let again = merge_trace(&mut map, &trace);
    assert_eq!(again, (false, false, 6));
    assert_eq!(map, seen);
}

#[test]
fn maps_of_other_lengths() {
    let mut short = vec![255u8; 2];
    assert_eq!(merge_trace(&mut short, &vec![0, 0, 9]), (false, false, 1));
    assert_eq!(short, vec![255, 255]);
    let mut long = vec![255u8; 3];
    assert_eq!(merge_trace(&mut long, &vec![1]), (true, true, 1));
    assert_eq!(long, vec![254, 255, 255]);
    let mut empty: Vec<u8> = vec![];
    assert_eq!(merge_trace(&mut empty, &vec![]), (false, false, 0));
}

#[test]
fn one_map_for_each_status() {
    let mut g = GlobalBranches::new(4);
    assert_eq!(g.virgin_branches, vec![255u8; 4]);
    let trace = vec![1u8, 0, 0, 4];
    assert_eq!(g.has_new(&trace, StatusType::Normal), (true, true, 2));
    assert_eq!(g.has_new(&trace, StatusType::Normal), (false, false, 2));
    // what ran normally is still news as a crash and as a hang
    assert_eq!(g.has_new(&trace, StatusType::Crash), (true, true, 2));
    assert_eq!(g.has_new(&trace, StatusType::Crash), (false, false, 2));
    assert_eq!(g.has_new(&trace, StatusType::Timeout), (true, true, 2));
    assert_eq!(g.has_new(&trace, StatusType::Timeout), (false, false, 2));
    // runs that are not filed find nothing and leave no mark
    let mut h = GlobalBranches::new(4);
    assert_eq!(h.has_new(&trace, StatusType::Skip), (false, false, 0));
    assert_eq!(h.has_new(&trace, StatusType::Error), (false, false, 0));
    assert_eq!(h.virgin_branches, vec![255u8; 4]);
    assert_eq!(h.tmouts_branches, vec![255u8; 4]);
    assert_eq!(h.crashes_branches, vec![255u8; 4]);
}
