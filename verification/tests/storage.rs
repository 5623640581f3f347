use odm::error::Error;
use odm::path::{join_validated, sanitize_filename, validate_filename, validate_output_path, validate_path};
use odm::storage::{may_finalize, part_file_path, uuid_simple_text, FileStorage};

#[test]
fn validate_path_rejects_parent_traversal() {
    let err = validate_path("a/../b").expect_err("err");
    assert!(matches!(err, Error::InvalidPath(_)));
}

#[test]
fn validate_path_rejects_absolute() {
    let err = validate_path("/etc/passwd").expect_err("err");
    assert!(matches!(err, Error::InvalidPath(_)));
}

#[test]
fn validate_path_rejects_empty() {
    let err = validate_path("").expect_err("err");
    assert!(matches!(err, Error::InvalidPath(_)));
}

#[test]
fn validate_path_rejects_control_chars() {
    let err = validate_path("foo/ba\rr").expect_err("err");
    assert!(matches!(err, Error::InvalidPath(_)));
}

#[test]
fn validate_filename_rejects_separators() {
    assert!(validate_filename("a/b").is_err());
    assert!(validate_filename("a\\b").is_err());
}

#[test]
fn validate_filename_rejects_empty() {
    assert!(validate_filename("").is_err());
}

#[test]
fn sanitize_replaces_unsafe() {
    let s = sanitize_filename("foo/bar:baz*?");
    assert!(validate_filename(&s).is_ok());
}

#[test]
fn validate_path_accepts_nested_relative_paths() {
    assert!(validate_path("a/b/c.bin").is_ok());
    assert!(validate_path("./a").is_ok());
    assert!(validate_path(".").is_err());
}

#[test]
fn reserved_names_are_refused_on_every_platform() {
    assert!(matches!(validate_filename("CON"), Err(Error::InvalidFileName(_))));
    assert!(matches!(validate_filename("nul.txt"), Err(Error::InvalidFileName(_))));
    assert!(matches!(validate_filename("com1"), Err(Error::InvalidFileName(_))));
    assert!(validate_filename("console.txt").is_ok());
    let long = "a".repeat(256);
    assert!(validate_filename(&long).is_err());
    assert!(validate_filename(&"a".repeat(255)).is_ok());
}

#[test]
fn sanitized_names_are_always_valid() {
    for raw in ["", "...", "a/b\\c", " x ", "ok.txt", "\u{7}bell", "a\0b"] {
        let s = sanitize_filename(raw);
        assert!(validate_filename(&s).is_ok(), "{raw:?} -> {s:?}");
    }
    assert_eq!(sanitize_filename("ok.txt"), "ok.txt");
    assert_eq!(sanitize_filename("a:b"), "a_b");
    assert_eq!(sanitize_filename(" .. "), "download.bin");
    assert_eq!(sanitize_filename("CON"), "_CON");
    assert_eq!(sanitize_filename("nul.txt"), "_nul.txt");
    assert!(validate_filename(&sanitize_filename("CON")).is_ok());
}

#[test]
fn over_long_names_are_cut_to_a_usable_length() {
    let long = "x".repeat(300);
    let s = sanitize_filename(&long);
    assert_eq!(s, "x".repeat(254));
    assert!(validate_filename(&s).is_ok());
    let wide = "é".repeat(200);
    let s = sanitize_filename(&wide);
    assert_eq!(s.len(), 254);
    assert!(validate_filename(&s).is_ok());
    let dotted = format!("{}.yy", "x".repeat(253));
    assert_eq!(sanitize_filename(&dotted), "x".repeat(253));
    let reserved_long = format!("CON.{}", "y".repeat(300));
    let s = sanitize_filename(&reserved_long);
    assert!(s.starts_with("_CON."));
    assert_eq!(s.len(), 255);
    assert!(validate_filename(&s).is_ok());
}

#[test]
fn sanitizing_twice_changes_nothing() {
    for raw in ["", "CON", " a.b. ", "a:b", "nul.txt", &"x".repeat(300), &format!("{}.yy", "x".repeat(253))] {
        let once = sanitize_filename(raw);
        assert_eq!(sanitize_filename(&once), once, "{raw:?}");
        assert!(!once.ends_with('.') && !once.ends_with(' '));
    }
}

#[test]
fn output_paths_may_be_absolute_but_not_traverse() {
    assert!(validate_output_path("/tmp/out.bin").is_ok());
    assert!(matches!(validate_output_path("/tmp/../out.bin"), Err(Error::InvalidPath(_))));
    assert!(matches!(validate_output_path("dir/CON"), Err(Error::InvalidFileName(_))));
    assert!(matches!(validate_output_path(""), Err(Error::InvalidPath(_))));
}

#[test]
fn joining_validates_the_relative_part() {
    assert_eq!(join_validated("base", "a/b").unwrap(), "base/a/b");
    assert_eq!(join_validated("base/", "a").unwrap(), "base/a");
    assert!(join_validated("base", "../a").is_err());
}

#[test]
fn part_files_sit_next_to_their_target() {
    let id: u128 = 0x00112233_44556677_8899aabb_ccddeeff;
    assert_eq!(uuid_simple_text(id), "00112233445566778899aabbccddeeff");
    assert_eq!(
        part_file_path("dir/out.bin", id),
        "dir/.out.bin.00112233445566778899aabbccddeeff.part"
    );
    assert_eq!(part_file_path("out.bin", id), ".out.bin.00112233445566778899aabbccddeeff.part");
    assert_eq!(
        part_file_path("/abs/out.bin", id),
        "/abs/.out.bin.00112233445566778899aabbccddeeff.part"
    );
    assert_eq!(part_file_path("a/..", id), "a/download.00112233445566778899aabbccddeeff.part");
    assert_eq!(part_file_path("/", id), "download.00112233445566778899aabbccddeeff.part");
}

#[test]
fn fresh_part_paths_are_distinct() {
    let s = FileStorage::new();
    let a = s.part_path_for("x/out.bin");
    let b = s.part_path_for("x/out.bin");
    assert_ne!(a, b);
    assert!(a.starts_with("x/.out.bin."));
    assert!(a.ends_with(".part"));
}

#[test]
fn part_file_sits_beside_the_final_path() {
    let id: u128 = 0x00112233_44556677_8899aabb_ccddeeff;
    assert_eq!(
        part_file_path("./x//out.bin", id),
        "./x/.out.bin.00112233445566778899aabbccddeeff.part"
    );
    assert_eq!(part_file_path("/out.bin", id), "/.out.bin.00112233445566778899aabbccddeeff.part");
    assert_eq!(part_file_path(".", id), "download.00112233445566778899aabbccddeeff.part");
}

#[test]
fn finalizing_onto_an_existing_file_needs_overwrite() {
    let err = may_finalize("out/file.bin", false, true).expect_err("err");
    assert!(matches!(err, Error::AlreadyExists(ref m) if m == "out/file.bin"));
    assert!(may_finalize("out/file.bin", true, true).is_ok());
    assert!(may_finalize("out/file.bin", false, false).is_ok());
}
