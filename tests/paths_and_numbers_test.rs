use googletest_json_serde::numbers::{
    narrow_i16, narrow_i32, narrow_i8, narrow_u16, narrow_u32, narrow_u8, narrow_usize,
};
use googletest_json_serde::path::{
    contains_path, has_all_paths, has_exactly_paths, missing_paths, same_path, PathSegment,
};

fn f(name: &str) -> PathSegment {
    PathSegment::Field(name.to_string())
}

#[test]
fn narrowing_keeps_values_in_range() {
    assert_eq!(narrow_i32(-5), Some(-5));
    assert_eq!(narrow_i32(i64::from(i32::MAX) + 1), None);
    assert_eq!(narrow_i32(i64::from(i32::MIN)), Some(i32::MIN));
    assert_eq!(narrow_i16(40000), None);
    assert_eq!(narrow_i16(-32768), Some(-32768));
    assert_eq!(narrow_i8(127), Some(127));
    assert_eq!(narrow_i8(128), None);
    assert_eq!(narrow_u32(u64::from(u32::MAX)), Some(u32::MAX));
    assert_eq!(narrow_u32(1 << 32), None);
    assert_eq!(narrow_u16(65536), None);
    assert_eq!(narrow_u8(255), Some(255));
    assert_eq!(narrow_u8(256), None);
    assert_eq!(narrow_usize(7), Some(7));
}

#[test]
fn paths_compare_by_segments() {
    assert!(same_path(&vec![f("a"), PathSegment::Index(0)], &vec![f("a"), PathSegment::Index(0)]));
    assert!(!same_path(&vec![f("a")], &vec![f("b")]));
    assert!(!same_path(&vec![f("0")], &vec![PathSegment::Index(0)]));
    assert!(!same_path(&vec![f("a")], &vec![f("a"), f("b")]));
    let set = vec![vec![f("user")], vec![f("user"), f("id")]];
    assert!(contains_path(&set, &vec![f("user"), f("id")]));
    assert!(!contains_path(&set, &vec![f("id")]));
}

#[test]
fn missing_and_exact_path_sets() {
    let present = vec![vec![f("user")], vec![f("user"), f("id")], vec![f("list")]];
    let wanted = vec![vec![f("user"), f("id")], vec![f("name")], vec![f("list")], vec![f("x")]];
    assert_eq!(missing_paths(&wanted, &present), vec![1, 3]);
    assert!(!has_all_paths(&wanted, &present));
    assert!(has_all_paths(&vec![vec![f("list")], vec![f("user")]], &present));
    assert!(has_all_paths(&vec![], &present));
    assert!(!has_exactly_paths(&vec![vec![f("list")], vec![f("user")]], &present));
    let same = vec![vec![f("list")], vec![f("user"), f("id")], vec![f("user")], vec![f("list")]];
    assert!(has_exactly_paths(&same, &present));
}
