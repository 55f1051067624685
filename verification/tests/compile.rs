use sz::bytes::{Bytes, unit_str, GB, GIB, KB, KIB, MB, MIB, TB, TIB};
use sz::glob::{compile, is_glob};
use sz::job::Job;
use sz::matcher::pattern_matches;

#[test]
fn classifier_literals_and_patterns() {
    assert!(!is_glob("plain.txt"));
    assert!(!is_glob("a/b/c"));
    assert!(!is_glob(""));
    assert!(is_glob("*.txt"));
    assert!(is_glob("a?b"));
    assert!(is_glob("src/[ab]/x"));
    // A lone bracket is already a pattern; the matcher decides its fate.
    assert!(is_glob("a["));
}

#[test]
fn plain_job_keeps_the_path() {
    match Job::new("some/dir/file.txt") {
        Ok(Job::Plain { path }) => assert_eq!(path, "some/dir/file.txt"),
        _ => panic!("expected a plain job"),
    }
}

#[test]
fn single_component_pattern_roots_at_current_dir() {
    match compile("*.txt") {
        Ok(Job::Pattern {
            root,
            pattern,
            depth_limit,
        }) => {
            assert_eq!(root, ".");
            assert_eq!(pattern, "*.txt");
            assert_eq!(depth_limit, Some(1));
        }
        _ => panic!("expected a pattern job"),
    }
}

#[test]
fn literal_prefix_becomes_the_root() {
    match compile("a/b/*.c") {
        Ok(Job::Pattern {
            root,
            pattern,
            depth_limit,
        }) => {
            assert_eq!(root, "a/b");
            assert_eq!(pattern, "*.c");
            assert_eq!(depth_limit, Some(1));
        }
        _ => panic!("expected a pattern job"),
    }
}

#[test]
fn pattern_suffix_counts_its_components() {
    match compile("src/*/*.c") {
        Ok(Job::Pattern {
            root,
            pattern,
            depth_limit,
        }) => {
            assert_eq!(root, "src");
            assert_eq!(pattern, "*/*.c");
            assert_eq!(depth_limit, Some(2));
        }
        _ => panic!("expected a pattern job"),
    }
}

#[test]
fn recursive_wildcard_removes_the_depth_bound() {
    match compile("a/**/b.txt") {
        Ok(Job::Pattern {
            root,
            pattern,
            depth_limit,
        }) => {
            assert_eq!(root, "a");
            assert_eq!(pattern, "**/b.txt");
            assert_eq!(depth_limit, None);
        }
        _ => panic!("expected a pattern job"),
    }
}

#[test]
fn absolute_patterns_keep_an_absolute_root() {
    match compile("/tmp/*.log") {
        Ok(Job::Pattern { root, depth_limit, .. }) => {
            assert_eq!(root, "/tmp");
            assert_eq!(depth_limit, Some(1));
        }
        _ => panic!("expected a pattern job"),
    }
    match compile("/*.log") {
        Ok(Job::Pattern { root, .. }) => assert_eq!(root, "/"),
        _ => panic!("expected a pattern job"),
    }
}

#[test]
fn explicit_current_dir_prefix_is_kept() {
    match compile("./a/*.c") {
        Ok(Job::Pattern { root, pattern, depth_limit }) => {
            assert_eq!(root, "./a");
            assert_eq!(pattern, "*.c");
            assert_eq!(depth_limit, Some(1));
        }
        _ => panic!("expected a pattern job"),
    }
}

#[test]
fn doubled_separators_are_dropped() {
    match compile("a//b/*.c") {
        Ok(Job::Pattern { root, pattern, .. }) => {
            assert_eq!(root, "a/b");
            assert_eq!(pattern, "*.c");
        }
        _ => panic!("expected a pattern job"),
    }
}

#[test]
fn malformed_pattern_is_a_compile_error() {
    match Job::new("[") {
        Err(e) => {
            assert_eq!(e.pattern, "[");
            assert!(!e.message.is_empty());
        }
        Ok(_) => panic!("an unclosed bracket expression must be rejected"),
    }
}

#[test]
fn malformed_pattern_with_prefix_reports_the_suffix() {
    match Job::new("src/a[") {
        Err(e) => assert_eq!(e.pattern, "a["),
        Ok(_) => panic!("an unclosed bracket expression must be rejected"),
    }
}

#[test]
fn matcher_matches_immediate_children_only() {
    assert_eq!(pattern_matches("*.txt", "foo.txt"), Some(true));
    assert_eq!(pattern_matches("*.txt", "sub/foo.txt"), Some(false));
    assert_eq!(pattern_matches("*.txt", "foo.md"), Some(false));
}

#[test]
fn matcher_is_case_insensitive() {
    assert_eq!(pattern_matches("*.txt", "FOO.TXT"), Some(true));
    assert_eq!(pattern_matches("photo*", "Photos"), Some(true));
}

#[test]
fn recursive_matcher_reaches_descendants() {
    assert_eq!(pattern_matches("**/b.txt", "x/y/b.txt"), Some(true));
    assert_eq!(pattern_matches("**/b.txt", "x/b.txt"), Some(true));
    assert_eq!(pattern_matches("**/b.txt", "x/y/c.txt"), Some(false));
}

#[test]
fn matcher_rejects_malformed_patterns() {
    assert_eq!(pattern_matches("[", "anything"), None);
}

#[test]
fn matcher_rejects_oversized_patterns_without_aborting() {
    // This pattern parses as a glob, but its compiled matcher exceeds
    // globset's internal size limit; acceptance covers both steps, so the
    // pattern is reported as rejected instead of ending the run.
    let big = format!("*{}", "a".repeat(2_000_000));
    assert_eq!(pattern_matches(&big, "anything"), None);
}

#[test]
fn unit_ladder_picks_the_largest_fitting_unit() {
    assert_eq!(Bytes(999).unit(true), None);
    assert_eq!(Bytes(1000).unit(true), Some(KB));
    assert_eq!(Bytes(1500).unit(true), Some(KB));
    assert_eq!(Bytes(2_000_000).unit(true), Some(MB));
    assert_eq!(Bytes(3_000_000_000).unit(true), Some(GB));
    assert_eq!(Bytes(5_000_000_000_000).unit(true), Some(TB));
    assert_eq!(Bytes(1023).unit(false), None);
    assert_eq!(Bytes(2048).unit(false), Some(KIB));
    assert_eq!(Bytes(1024 * 1024).unit(false), Some(MIB));
    assert_eq!(Bytes(1024 * 1024 * 1024).unit(false), Some(GIB));
    assert_eq!(Bytes(1024u64 * 1024 * 1024 * 1024).unit(false), Some(TIB));
}

#[test]
fn unit_suffixes() {
    assert_eq!(unit_str(KB), "KB");
    assert_eq!(unit_str(KIB), "KiB");
    assert_eq!(unit_str(MB), "MB");
    assert_eq!(unit_str(MIB), "MiB");
    assert_eq!(unit_str(GB), "GB");
    assert_eq!(unit_str(GIB), "GiB");
    assert_eq!(unit_str(TB), "TB");
    assert_eq!(unit_str(TIB), "TiB");
}
