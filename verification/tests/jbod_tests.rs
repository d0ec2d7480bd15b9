use jbod_mirror::filelist::FileEntry;
use jbod_mirror::group::GroupBy;
use jbod_mirror::jbod::{find_file, index_by_regex, list_files};

fn fe(relpath: &str, size: u64) -> FileEntry {
    FileEntry { relpath: relpath.to_string(), size }
}

#[test]
fn test_list_files() {
    // Two mount points holding the same two relative paths with different
    // sizes; the merge keeps the largest size per path.
    let listings = vec![
        vec![fe("somedir/file.bin", 6), fe("somedir/file2.bin", 9)],
        vec![fe("somedir/file.bin", 9), fe("somedir/file2.bin", 6)],
    ];
    let mut res = list_files(&listings);
    res.sort_by_key(|x| x.relpath.clone());

    assert_eq!(res, vec![fe("somedir/file.bin", 9), fe("somedir/file2.bin", 9)]);
}

#[test]
fn test_find_file() {
    let mount_points = vec!["m1".to_string(), "m2".to_string()];
    assert_eq!(
        find_file(&mount_points, &"somedir/file.bin".to_string(), &vec![Some(6), Some(9)]),
        Some("m2/somedir/file.bin".to_string())
    );
    assert_eq!(
        find_file(&mount_points, &"somedir/file2.bin".to_string(), &vec![Some(9), Some(6)]),
        Some("m1/somedir/file2.bin".to_string())
    );
    assert_eq!(find_file(&mount_points, &"somedir/file.txt".to_string(), &vec![None, None]), None);
}

#[test]
fn test_index_by_regex() {
    let listings = vec![
        (
            "m1".to_string(),
            vec![
                "somedir/xlq7ocsbaxlm_h".to_string(),
                "somedir/xlq7ocsbaxlm_n".to_string(),
                "somedir/xlq7ocsbaxlm_l".to_string(),
            ],
        ),
        (
            "m2".to_string(),
            vec![
                "somedir/5uglbek9o2or_h".to_string(),
                "somedir/5uglbek9o2or_n".to_string(),
                "somedir/5uglbek9o2or_l".to_string(),
                "somedir/s6rqxk".to_string(),
            ],
        ),
    ];
    let regex = GroupBy::compile(r"^\w{12}").unwrap();
    let index = index_by_regex(&listings, &regex);
    assert_eq!(index.len(), 2);
    assert_eq!(index.get(&"xlq7ocsbaxlm".to_string()), Some(&"m1".to_string()));
    assert_eq!(index.get(&"5uglbek9o2or".to_string()), Some(&"m2".to_string()));

    let regex_with_captures = GroupBy::compile(r"^(\w{12})_([a-z])$").unwrap();
    let _ = regex_with_captures;
    let index2 = index_by_regex(&listings, &regex);
    assert_eq!(index2, index);
}

#[test]
fn list_files_keeps_first_appearance_order_and_skips_nothing() {
    let listings = vec![
        vec![fe("b", 2), fe("a", 1)],
        vec![fe("c", 3), fe("a", 5)],
    ];
    let res = list_files(&listings);
    assert_eq!(res, vec![fe("b", 2), fe("a", 5), fe("c", 3)]);
}

#[test]
fn list_files_empty() {
    let res = list_files(&vec![]);
    assert_eq!(res, vec![]);
    let res = list_files(&vec![vec![], vec![]]);
    assert_eq!(res, vec![]);
}

#[test]
fn list_files_duplicate_within_one_volume() {
    let listings = vec![vec![fe("x", 4), fe("x", 7), fe("x", 5)]];
    assert_eq!(list_files(&listings), vec![fe("x", 7)]);
}

#[test]
fn find_file_tie_returns_some_maximal_copy() {
    let mount_points = vec!["m1".to_string(), "m2".to_string()];
    let r = find_file(&mount_points, &"f".to_string(), &vec![Some(5), Some(5)]);
    assert!(r == Some("m1/f".to_string()) || r == Some("m2/f".to_string()));
}

#[test]
fn index_by_regex_last_volume_scanned_wins() {
    let listings = vec![
        ("m1".to_string(), vec!["abcdefghijkl_a".to_string()]),
        ("m2".to_string(), vec!["abcdefghijkl_b".to_string()]),
    ];
    let regex = GroupBy::compile(r"^\w{12}").unwrap();
    let index = index_by_regex(&listings, &regex);
    assert_eq!(index.get(&"abcdefghijkl".to_string()), Some(&"m2".to_string()));
}
