use drop_core::error::Error;
use drop_core::manager::{extract_directory_mapping, DirMapping};
use drop_core::paths::{
    candidate_name, join_components, join_two, normalize_component, path_variant, split_path,
    u64_to_dec,
};
use drop_core::server::validate_tmp_location_path;

#[test]
fn extracting_dir_mapping() {
    let subpath = vec!["a".to_string(), "b".to_string(), "c.txt".to_string()];
    let (path, name) = extract_directory_mapping(&subpath, "/home/xyz/foo/bar/a(2)/b/c.txt")
        .expect("Failed to read mapping");
    assert_eq!(path, "/home/xyz/foo/bar/a");
    assert_eq!(name, "a(2)");
}

#[test]
fn extracting_dir_mapping_single_component_teaches_nothing() {
    let subpath = vec!["c.txt".to_string()];
    assert!(extract_directory_mapping(&subpath, "/home/xyz/c.txt").is_none());
}

#[test]
fn compose_ordinary_file_records_no_mapping() {
    let mut dm = DirMapping::new();
    let sub = vec!["a".to_string()];
    let r = dm.compose_final_path("/dst", &sub, &vec![]).unwrap();
    assert_eq!(r, vec!["a".to_string()]);
    assert!(!dm.has_mapping("/dst/a"));
}

#[test]
fn compose_collision_rename() {
    // The destination already contains `a`: candidate 0 exists, candidate
    // 1 is free, so the directory is mapped to `a(1)`.
    let mut dm = DirMapping::new();
    let sub = vec!["a".to_string(), "f.txt".to_string()];
    let r = dm.compose_final_path("/dst", &sub, &vec![true, false]).unwrap();
    assert_eq!(r, vec!["a(1)".to_string(), "f.txt".to_string()]);
    assert!(dm.has_mapping("/dst/a"));
    // A second file of the same proposed directory reuses the choice
    // without any probing.
    let sub2 = vec!["a".to_string(), "g.txt".to_string()];
    let r2 = dm.compose_final_path("/dst", &sub2, &vec![]).unwrap();
    assert_eq!(r2, vec!["a(1)".to_string(), "g.txt".to_string()]);
}

#[test]
fn compose_no_collision_keeps_name() {
    let mut dm = DirMapping::new();
    let sub = vec!["dir".to_string(), "f".to_string()];
    let r = dm.compose_final_path("/dst", &sub, &vec![false]).unwrap();
    assert_eq!(r, vec!["dir".to_string(), "f".to_string()]);
}

#[test]
fn compose_resumes_from_registered_path() {
    // `x` completed to /dest/d(2)/x before a crash; resuming `d/y` must
    // land in the same suffixed directory without allocating a new one.
    let mut dm = DirMapping::new();
    dm.register_preexisting_final_path(
        &vec!["d".to_string(), "x".to_string()],
        "/dest/d(2)/x",
    );
    assert!(dm.has_mapping("/dest/d"));
    let r = dm
        .compose_final_path("/dest", &vec!["d".to_string(), "y".to_string()], &vec![])
        .unwrap();
    assert_eq!(r, vec!["d(2)".to_string(), "y".to_string()]);
    let abs = join_two("/dest", join_components(&r).as_str());
    assert_eq!(abs, "/dest/d(2)/y");
}

#[test]
fn compose_rejects_bad_subpath() {
    let mut dm = DirMapping::new();
    assert!(matches!(
        dm.compose_final_path("/dst", &vec![], &vec![]),
        Err(Error::BadPath(_))
    ));
    assert!(matches!(
        dm.compose_final_path("/dst", &vec!["..".to_string()], &vec![]),
        Err(Error::BadPath(_))
    ));
    assert!(matches!(
        dm.compose_final_path("/dst", &vec!["a/b".to_string()], &vec![]),
        Err(Error::BadPath(_))
    ));
}

#[test]
fn candidate_names_insert_suffix_before_extension() {
    assert_eq!(candidate_name("a", 0), "a");
    assert_eq!(candidate_name("a", 1), "a(1)");
    assert_eq!(candidate_name("c.txt", 2), "c(2).txt");
    assert_eq!(candidate_name("archive.tar.gz", 3), "archive.tar(3).gz");
    assert_eq!(candidate_name(".bashrc", 1), ".bashrc(1)");
}

#[test]
fn path_variant_touches_only_the_filename() {
    assert_eq!(path_variant("/d/c.txt", 0), "/d/c.txt");
    assert_eq!(path_variant("/d/c.txt", 1), "/d/c(1).txt");
    assert_eq!(path_variant("/d.dir/c", 2), "/d.dir/c(2)");
    assert_eq!(path_variant("bare", 7), "bare(7)");
}

#[test]
fn decimal_rendering() {
    assert_eq!(u64_to_dec(0), "0");
    assert_eq!(u64_to_dec(7), "7");
    assert_eq!(u64_to_dec(120), "120");
    assert_eq!(u64_to_dec(999), "999");
}

#[test]
fn normalize_trims_and_caps() {
    assert_eq!(normalize_component(" x ").unwrap(), "x");
    assert_eq!(normalize_component("name.txt").unwrap(), "name.txt");
    let long: String = std::iter::repeat('x').take(300).collect();
    let n = normalize_component(long.as_str()).unwrap();
    assert_eq!(n.chars().count(), 255);
}

#[test]
fn normalize_rejects_dots_separators_and_empties() {
    assert!(matches!(normalize_component("."), Err(Error::BadPath(_))));
    assert!(matches!(normalize_component(".."), Err(Error::BadPath(_))));
    assert!(matches!(normalize_component("a/b"), Err(Error::BadPath(_))));
    assert!(matches!(normalize_component("a\\b"), Err(Error::BadPath(_))));
    assert!(matches!(normalize_component("   "), Err(Error::BadPath(_))));
    assert!(matches!(normalize_component(""), Err(Error::BadPath(_))));
}

#[test]
fn split_and_join_paths() {
    let parts = split_path("/home/xyz/c.txt");
    assert_eq!(
        parts,
        vec!["".to_string(), "home".to_string(), "xyz".to_string(), "c.txt".to_string()]
    );
    assert_eq!(join_components(&parts), "/home/xyz/c.txt");
    assert_eq!(split_path("rel"), vec!["rel".to_string()]);
}

#[test]
fn tmp_filename_length_is_capped() {
    assert!(validate_tmp_location_path("/tmp/abc.dropdl-part").is_ok());
    let long: String = std::iter::repeat('x').take(255).collect();
    let ok_path = format!("/tmp/{}", long);
    assert!(validate_tmp_location_path(ok_path.as_str()).is_ok());
    let too_long: String = std::iter::repeat('x').take(256).collect();
    let bad_path = format!("/tmp/{}", too_long);
    assert!(matches!(
        validate_tmp_location_path(bad_path.as_str()),
        Err(Error::FilenameTooLong)
    ));
}
