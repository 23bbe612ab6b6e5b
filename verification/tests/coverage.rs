//! Line coverage.

use cargo_mutants::coverage::{
    build_dir_prefixes, export_args, instrumented_env, merge_args, merged_profile, profile_directory, raw_profiles, ExportFile,
    LineCoverage, LlvmTools, Segment,
};

/// A trimmed copy of what `llvm-cov export --format=text` writes: the
/// segments are `[line, column, count, has_count, is_region_entry, is_gap]`.
const EXPORT_JSON: &str = r#"{
        "data": [
            {
                "files": [
                    {
                        "filename": "/build/src/covered.rs",
                        "segments": [
                            [3, 1, 7, true, true, false],
                            [3, 31, 0, false, false, false],
                            [9, 5, 0, true, true, false]
                        ]
                    },
                    {
                        "filename": "/build/src/never_run.rs",
                        "segments": [
                            [4, 1, 0, true, true, false]
                        ]
                    },
                    {
                        "filename": "/home/user/.cargo/registry/src/other-1.0/src/lib.rs",
                        "segments": [
                            [1, 1, 12, true, true, false]
                        ]
                    }
                ]
            }
        ]
    }"#;

/// The files in an export document.
fn files_in(json: &str) -> Vec<ExportFile> {
    let document: serde_json::Value = serde_json::from_str(json).expect("parse export json");
    let mut files = Vec::new();
    for data in document["data"].as_array().unwrap() {
        for file in data["files"].as_array().unwrap() {
            files.push(ExportFile {
                filename: file["filename"].as_str().unwrap().to_owned(),
                segments: file["segments"]
                    .as_array()
                    .unwrap()
                    .iter()
                    .map(|fields| Segment::from_fields(fields[0].as_u64(), fields[2].as_u64(), fields[3].as_bool()))
                    .collect(),
            });
        }
    }
    files
}

fn coverage_of(json: &str, build_dir: &str) -> LineCoverage {
    LineCoverage::from_export(&files_in(json), &vec![build_dir.to_owned()])
}

#[test]
fn export_json_gives_only_lines_with_a_nonzero_count() {
    let coverage = coverage_of(EXPORT_JSON, "/build");
    assert!(coverage.covers("src/covered.rs", 3));
    // Counted, but never executed.
    assert!(!coverage.covers("src/covered.rs", 9));
    // A line with no segment at all.
    assert!(!coverage.covers("src/covered.rs", 4));
}

#[test]
fn files_with_no_covered_line_are_not_covered() {
    let coverage = coverage_of(EXPORT_JSON, "/build");
    assert!(!coverage.covers("src/never_run.rs", 4));
    assert_eq!(coverage.covered_files(), 1);
}

#[test]
fn files_outside_the_build_dir_are_ignored() {
    let coverage = coverage_of(EXPORT_JSON, "/build");
    assert!(!coverage.covers("/home/user/.cargo/registry/src/other-1.0/src/lib.rs", 1));
}

#[test]
fn an_unknown_file_is_treated_as_uncovered() {
    let coverage = LineCoverage::new();
    assert!(!coverage.covers("src/anything.rs", 1));
}

#[test]
fn instrumented_env_appends_to_existing_rustflags() {
    let env = instrumented_env("/tmp/profraw", Some("--cap-lints=allow"));
    let rustflags = env
        .iter()
        .find(|(k, _)| k == "CARGO_ENCODED_RUSTFLAGS")
        .map(|(_, v)| v.as_str())
        .expect("rustflags set");
    assert_eq!(rustflags, "--cap-lints=allow\x1f-Cinstrument-coverage");
    let profile_file = env
        .iter()
        .find(|(k, _)| k == "LLVM_PROFILE_FILE")
        .map(|(_, v)| v.as_str())
        .expect("profile file set");
    assert!(profile_file.ends_with("%p-%m.profraw"), "{profile_file}");
}

/// `rustc` records the real path of each source file, which is not
/// textually the build dir's path when the build dir is reached through a
/// symlink: on macOS every `/tmp` build dir is such a path.
#[test]
fn coverage_matches_a_build_dir_reached_through_a_symlink() {
    let json = r#"{"data": [{"files": [
                {"filename": "/private/tmp/build/src/lib.rs",
                  "segments": [[2, 1, 3, true, true, false]]}
            ]}]}"#;
    let prefixes = build_dir_prefixes("/tmp/build", Some("/private/tmp/build"));
    assert_eq!(prefixes, ["/tmp/build", "/private/tmp/build"]);
    let coverage = LineCoverage::from_export(&files_in(json), &prefixes);
    assert!(coverage.covers("src/lib.rs", 2));
    assert!(!coverage_of(json, "/tmp/build").covers("src/lib.rs", 2));
}

#[test]
fn a_build_dir_is_named_once() {
    assert_eq!(build_dir_prefixes("/tmp/build", Some("/tmp/build")), ["/tmp/build"]);
    assert_eq!(build_dir_prefixes("/tmp/build", None), ["/tmp/build"]);
}

#[test]
fn flags_without_earlier_flags() {
    let env = instrumented_env("/tmp/profraw", None);
    assert_eq!(env[0].1.replace('\\', "/"), "/tmp/profraw/%p-%m.profraw");
    assert_eq!(env[1].1, "-Cinstrument-coverage");
    assert_eq!(instrumented_env("/tmp/profraw", Some(""))[1].1, "-Cinstrument-coverage");
}

#[test]
fn fields_that_are_missing_count_as_nothing() {
    let segment = Segment::from_fields(None, None, None);
    assert_eq!((segment.line, segment.count, segment.has_count), (0, 0, false));
    let segment = Segment::from_fields(Some(u64::MAX), Some(1), Some(true));
    assert_eq!((segment.line, segment.count, segment.has_count), (usize::MAX, 1, true));
}

#[test]
fn lines_of_a_file_that_is_listed_twice_add_up() {
    let file = |line: usize| ExportFile {
        filename: "/build/src/lib.rs".to_owned(),
        segments: vec![Segment { line, count: 1, has_count: true }],
    };
    let relatives = vec![Some("src/lib.rs".to_owned()), Some("src/lib.rs".to_owned()), None];
    let coverage = LineCoverage::from_relative_files(&vec![file(1), file(2), file(3)], &relatives);
    assert!(coverage.covers("src/lib.rs", 1) && coverage.covers("src/lib.rs", 2));
    assert!(!coverage.covers("src/lib.rs", 3));
    assert_eq!(coverage.covered_files(), 1);
}

#[test]
fn tools_stand_beside_the_target_libraries() {
    let tools = LlvmTools::beside("/opt/rust/lib/rustlib/x86_64/lib", false).ok().unwrap();
    assert_eq!(tools.profdata.replace('\\', "/"), "/opt/rust/lib/rustlib/x86_64/bin/llvm-profdata");
    assert_eq!(tools.cov.replace('\\', "/"), "/opt/rust/lib/rustlib/x86_64/bin/llvm-cov");
    let tools = LlvmTools::beside("/opt/rust/lib", true).ok().unwrap();
    assert_eq!(tools.cov.replace('\\', "/"), "/opt/rust/bin/llvm-cov.exe");
    assert_eq!(LlvmTools::beside("", false).err().unwrap(), "target-libdir  has no parent");
}

#[test]
fn a_missing_tool_is_named() {
    let tools = LlvmTools { profdata: "/bin/llvm-profdata".to_owned(), cov: "/bin/llvm-cov".to_owned() };
    assert_eq!(tools.missing(true, true), None);
    assert_eq!(
        tools.missing(true, false).unwrap(),
        "/bin/llvm-cov not found: --skip-uncovered needs the llvm-tools component, so run `rustup component add llvm-tools`"
    );
    assert!(tools.missing(false, false).unwrap().starts_with("/bin/llvm-profdata not found"));
}

#[test]
fn profiles_are_merged_in_order() {
    let files = vec![
        "/p/2-a.profraw".to_owned(),
        "/p/merged.profdata".to_owned(),
        "/p/1-b.profraw".to_owned(),
        "/p/profraw".to_owned(),
    ];
    let raws = raw_profiles(&files);
    assert_eq!(raws, ["/p/1-b.profraw", "/p/2-a.profraw"]);
    assert_eq!(
        merge_args("/p", &raws, "/p/merged.profdata").unwrap(),
        ["merge", "-sparse", "/p/1-b.profraw", "/p/2-a.profraw", "-o", "/p/merged.profdata"]
    );
    assert_eq!(
        merge_args("/p", &vec![], "/p/merged.profdata").err().unwrap(),
        "no .profraw files were written to /p: the baseline tests ran no instrumented binary"
    );
}

#[test]
fn counters_are_exported_for_every_binary() {
    assert_eq!(
        export_args("/p/merged.profdata", &vec!["/t/a".to_owned(), "/t/b".to_owned()]).unwrap(),
        ["export", "--instr-profile", "/p/merged.profdata", "--format=text", "/t/a", "/t/b"]
    );
    assert_eq!(
        export_args("/p/merged.profdata", &vec![]).err().unwrap(),
        "no test binaries were built, so coverage can't be measured"
    );
}

#[test]
fn profiles_go_into_the_build_directory() {
    let slashes = |path: String| path.replace('\\', "/");
    assert_eq!(slashes(profile_directory("/tmp/build")), "/tmp/build/target/mutants-coverage");
    assert_eq!(slashes(merged_profile("/p")), "/p/merged.profdata");
}

#[test]
fn paths_are_compared_as_the_system_compares_them() {
    let file = |line: usize| ExportFile {
        filename: String::new(),
        segments: vec![Segment { line, count: 1, has_count: true }],
    };
    let relatives = vec![Some("src//lib.rs".to_owned()), Some("src/./lib.rs".to_owned()), Some("./a.rs".to_owned())];
    let coverage = LineCoverage::from_relative_files(&vec![file(1), file(2), file(3)], &relatives);
    for path in ["src/lib.rs", "src/./lib.rs", "src//lib.rs", "src/lib.rs/."] {
        assert!(coverage.covers(path, 1) && coverage.covers(path, 2), "{path}");
        assert!(!coverage.covers(path, 3), "{path}");
    }
    for path in ["", "/src/lib.rs", "./src/lib.rs", "src/../src/lib.rs", "src/lib", "lib.rs"] {
        assert!(!coverage.covers(path, 1), "{path}");
    }
    assert!(coverage.covers("././/a.rs", 3) && !coverage.covers("a.rs", 3));
    assert_eq!(coverage.covered_files(), 2);

    // A backslash is a separator on some systems, and a part of a name on others.
    let separates = std::path::is_separator('\\');
    let relatives = vec![Some("src\\lib.rs".to_owned()), Some("src/lib.rs".to_owned())];
    let coverage = LineCoverage::from_relative_files(&vec![file(1), file(2)], &relatives);
    assert!(coverage.covers("src\\lib.rs", 1) && coverage.covers("src/lib.rs", 2));
    assert_eq!(coverage.covers("src/lib.rs", 1), separates);
    assert_eq!(coverage.covers("src\\lib.rs", 2), separates);
    assert_eq!(coverage.covered_files(), if separates { 1 } else { 2 });
}

#[test]
fn a_build_directory_is_listed_once() {
    assert_eq!(build_dir_prefixes("/tmp/./b/", Some("/tmp/b")), ["/tmp/./b/"]);
    assert_eq!(build_dir_prefixes("/tmp/b", Some("/private/tmp/b")), ["/tmp/b", "/private/tmp/b"]);
    assert_eq!(build_dir_prefixes("/tmp/b", None), ["/tmp/b"]);
}

#[test]
fn what_stands_behind_the_build_directory_is_kept() {
    let covers = |filename: &str, build_dir: &str, path: &str| {
        let files = vec![ExportFile {
            filename: filename.to_owned(),
            segments: vec![Segment { line: 1, count: 1, has_count: true }],
        }];
        LineCoverage::from_export(&files, &vec![build_dir.to_owned()]).covers(path, 1)
    };
    assert!(covers("/build/src/../gen/a:b.rs", "/build", "src/../gen/a:b.rs"));
    assert!(covers("C:/build/src/lib.rs", "C:/build", "src/lib.rs"));
    assert!(covers("/build/./src//lib.rs", "/build", "src/lib.rs"));
    assert!(covers("/build/../tree/src/lib.rs", "/build/../tree/", "src/lib.rs"));
    assert!(!covers("/builder/src/lib.rs", "/build", "src/lib.rs"));
    assert!(!covers("/build/src/lib.rs", "/build/src/lib", ".rs"));
}

#[test]
fn tools_stand_beside_any_directory() {
    let cov = |libdir: &str| LlvmTools::beside(libdir, false).ok().map(|tools| tools.cov.replace('\\', "/"));
    assert_eq!(cov("../rust:1/lib").unwrap(), "../rust:1/bin/llvm-cov");
    assert_eq!(cov("/lib").unwrap(), "/bin/llvm-cov");
    assert_eq!(cov("lib").unwrap(), "bin/llvm-cov");
    assert_eq!(cov("/opt/./lib").unwrap(), "/opt/bin/llvm-cov");
    assert_eq!(LlvmTools::beside("/", false).err().unwrap(), "target-libdir / has no parent");
}

#[test]
fn profiles_are_found_by_their_extension() {
    let files = ["../p/b.profraw", "C:\\p\\a.profraw", "C:\\p.profraw\\x", "x:y/.profraw", "/p/c.profraw.d", "d.profraw"];
    let files = files.iter().map(|file| (*file).to_owned()).collect();
    assert_eq!(raw_profiles(&files), ["../p/b.profraw", "C:\\p\\a.profraw", "d.profraw"]);
}
