use jbod_mirror::filelist::FileEntry;
use jbod_mirror::group::{make_group_key, GroupBy};
use jbod_mirror::index::VolumeIndex;
use jbod_mirror::paths::{file_name_of, join_path};
use jbod_mirror::placement::{
    build_preload_index, compile_group_by, roll_weighed_dice, ConfigError, WorkerSettings,
};
use jbod_mirror::coordinator::Coordinator;
use std::collections::VecDeque;

fn fe(relpath: &str, size: u64) -> FileEntry {
    FileEntry { relpath: relpath.to_string(), size }
}

fn plain_settings(dst_paths: Vec<&str>) -> WorkerSettings {
    WorkerSettings {
        endpoint: "http://localhost:3000".to_string(),
        auth: "token".to_string(),
        dst_paths: dst_paths.into_iter().map(|s| s.to_string()).collect(),
        dry_run: false,
        group_by: None,
        index_preload: VolumeIndex::new(),
    }
}

#[test]
fn join_and_file_name() {
    assert_eq!(join_path("m1", "somedir/f.bin"), "m1/somedir/f.bin".to_string());
    assert_eq!(file_name_of("somedir/sub/f.bin"), "f.bin".to_string());
    assert_eq!(file_name_of("f.bin"), "f.bin".to_string());
}

#[test]
fn group_key_uses_first_capture_group() {
    let g = GroupBy::compile(r"^(\w{12})_([a-z])$").unwrap();
    assert_eq!(
        make_group_key(&g, "somedir/xlq7ocsbaxlm_h"),
        Some("xlq7ocsbaxlm".to_string())
    );
    assert_eq!(make_group_key(&g, "somedir/nomatch"), None);
}

#[test]
fn group_key_without_captures_is_whole_match() {
    let g = GroupBy::compile(r"^\w{12}").unwrap();
    assert_eq!(
        make_group_key(&g, "somedir/xlq7ocsbaxlm_h"),
        Some("xlq7ocsbaxlm".to_string())
    );
}

#[test]
fn compile_group_by_cases() {
    assert!(matches!(compile_group_by(&None), Ok(None)));
    assert!(matches!(compile_group_by(&Some(r"^\w{3}".to_string())), Ok(Some(_))));
    assert_eq!(
        compile_group_by(&Some("(".to_string())).err(),
        Some(ConfigError::BadPattern)
    );
}

#[test]
fn dice_empty_is_none() {
    assert_eq!(roll_weighed_dice(&vec![]), None);
}

#[test]
fn dice_single_volume_always_wins() {
    let input = vec![("a".to_string(), 5u64)];
    assert_eq!(roll_weighed_dice(&input), Some("a".to_string()));
}

#[test]
fn dice_all_zero_weights_falls_back_to_first() {
    let input = vec![("a".to_string(), 0u64), ("b".to_string(), 0u64)];
    assert_eq!(roll_weighed_dice(&input), Some("a".to_string()));
}

#[test]
fn dice_picks_a_listed_volume() {
    let input = vec![("a".to_string(), 10u64), ("b".to_string(), 20u64)];
    let r = roll_weighed_dice(&input).unwrap();
    assert!(r == "a" || r == "b");
}

// A file already present at full size is returned unconditionally, with
// capacities of zero and whatever the grouping says.
#[test]
fn placement_resumes_on_existing_copy() {
    let settings = plain_settings(vec!["m1", "m2"]);
    let mut coord = Coordinator::new(VecDeque::new(), VolumeIndex::new());
    let item = fe("somedir/a.txt", 10);
    let sizes = vec![None, Some(10)];
    let avail = vec![0, 0];
    let r = coord.place(&item, &settings, &sizes, &avail);
    assert_eq!(r, Some("m2/somedir/a.txt".to_string()));
}

#[test]
fn placement_prefers_largest_existing_copy() {
    let settings = plain_settings(vec!["m1", "m2"]);
    let mut coord = Coordinator::new(VecDeque::new(), VolumeIndex::new());
    let item = fe("f", 10);
    let r = coord.place(&item, &settings, &vec![Some(9), Some(4)], &vec![0, 0]);
    assert_eq!(r, Some("m1/f".to_string()));
}

// Once a key is seeded, every placement for that key lands on the seeded
// volume, capacity notwithstanding.
#[test]
fn placement_group_key_is_stable() {
    let mut settings = plain_settings(vec!["m1", "m2"]);
    settings.group_by = Some(GroupBy::compile(r"^(\w{4})_([a-z])$").unwrap());
    let mut coord = Coordinator::new(VecDeque::new(), VolumeIndex::new());
    let sizes = vec![None, None];
    let avail = vec![1000, 1000];
    let p1 = coord.place(&fe("key1_h", 5), &settings, &sizes, &avail).unwrap();
    let p2 = coord.place(&fe("key1_n", 5), &settings, &sizes, &avail).unwrap();
    let root1 = p1.strip_suffix("/key1_h").unwrap().to_string();
    let root2 = p2.strip_suffix("/key1_n").unwrap().to_string();
    assert_eq!(root1, root2);
}

#[test]
fn placement_fails_only_when_no_volume_fits() {
    let settings = plain_settings(vec!["m1", "m2"]);
    let mut coord = Coordinator::new(VecDeque::new(), VolumeIndex::new());
    let item = fe("big.bin", 100);
    // Free space must strictly exceed the size.
    assert_eq!(coord.place(&item, &settings, &vec![None, None], &vec![100, 100]), None);
    let r = coord.place(&item, &settings, &vec![None, None], &vec![100, 101]);
    assert_eq!(r, Some("m2/big.bin".to_string()));
}

#[test]
fn preload_count_mismatch_is_fatal() {
    let g = GroupBy::compile(r"^\w{4}").unwrap();
    let listings = vec![("d1".to_string(), vec![])];
    let dst = vec!["m1".to_string(), "m2".to_string()];
    assert_eq!(
        build_preload_index(&listings, &dst, &g).err(),
        Some(ConfigError::PreloadCountMismatch)
    );
}

#[test]
fn preload_maps_nth_directory_to_nth_volume() {
    let g = GroupBy::compile(r"^(\w{4})_([a-z])$").unwrap();
    let listings = vec![
        ("d1".to_string(), vec!["keya_x".to_string()]),
        ("d2".to_string(), vec!["keyb_y".to_string()]),
    ];
    let dst = vec!["m1".to_string(), "m2".to_string()];
    let preload = build_preload_index(&listings, &dst, &g).unwrap();
    assert_eq!(preload.get(&"keya".to_string()), Some(&"m1".to_string()));
    assert_eq!(preload.get(&"keyb".to_string()), Some(&"m2".to_string()));

    // The preload mapping beats capacity and the mutable index.
    let mut settings = plain_settings(vec!["m1", "m2"]);
    settings.group_by = Some(g);
    settings.index_preload = preload;
    let mut coord = Coordinator::new(VecDeque::new(), VolumeIndex::new());
    let r = coord.place(&fe("keyb_z", 5), &settings, &vec![None, None], &vec![0, 0]);
    assert_eq!(r, Some("m2/keyb_z".to_string()));
}
