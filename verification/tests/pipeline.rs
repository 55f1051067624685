use sz::agg::{reduce, AccessError};
use sz::cmd::{Cmd, JobRun};
use sz::job::Job;
use sz::walk::{is_hidden, run_pattern, walk, FsTree, WalkEntry};

fn file(name: &str, len: u64) -> FsTree {
    FsTree::File {
        name: name.to_string(),
        len,
    }
}

fn dir(name: &str, children: Vec<FsTree>) -> FsTree {
    FsTree::Dir {
        name: name.to_string(),
        children,
    }
}

fn denied(name: &str, message: &str) -> FsTree {
    FsTree::Denied {
        name: name.to_string(),
        message: message.to_string(),
    }
}

fn plain_run(path: &str, tree: FsTree) -> JobRun {
    JobRun {
        job: Job::Plain {
            path: path.to_string(),
        },
        tree,
    }
}

fn cmd(ignore_hidden: bool, quiet: bool) -> Cmd {
    Cmd::new(ignore_hidden, false, false, quiet, false, vec![])
}

fn total_of(c: &Cmd, runs: &Vec<JobRun>) -> (u64, Vec<AccessError>) {
    match c.calculate(runs) {
        Ok(out) => out,
        Err(e) => panic!("unexpected compile error on {}", e.pattern),
    }
}

#[test]
fn single_file_totals_its_length() {
    let runs = vec![plain_run("f.bin", file("f.bin", 123))];
    let (total, diags) = total_of(&cmd(false, false), &runs);
    assert_eq!(total, 123);
    assert!(diags.is_empty());
}

#[test]
fn files_sum_independent_of_order() {
    let forward = vec![
        plain_run("a", file("a", 1)),
        plain_run("b", file("b", 20)),
        plain_run("c", file("c", 300)),
    ];
    let backward = vec![
        plain_run("c", file("c", 300)),
        plain_run("b", file("b", 20)),
        plain_run("a", file("a", 1)),
    ];
    let c = cmd(false, false);
    let (t1, _) = total_of(&c, &forward);
    let (t2, _) = total_of(&c, &backward);
    assert_eq!(t1, 321);
    assert_eq!(t2, 321);
}

#[test]
fn hidden_entries_are_excluded_only_when_asked() {
    let tree = || dir("d", vec![file("a", 10), file(".b", 5)]);
    let skipped = vec![plain_run("d", tree())];
    let (total, _) = total_of(&cmd(true, false), &skipped);
    assert_eq!(total, 10);
    let kept = vec![plain_run("d", tree())];
    let (total, _) = total_of(&cmd(false, false), &kept);
    assert_eq!(total, 15);
}

#[test]
fn hidden_subtrees_are_pruned_whole() {
    let tree = dir(
        "d",
        vec![
            dir(".cache", vec![file("x", 100), file("y", 200)]),
            file("kept", 7),
        ],
    );
    let runs = vec![plain_run("d", tree)];
    let (total, _) = total_of(&cmd(true, false), &runs);
    assert_eq!(total, 7);
}

#[test]
fn unreadable_entry_counts_zero_and_is_reported_once() {
    let tree = dir(
        "d",
        vec![file("a", 7), denied("locked", "permission denied")],
    );
    let runs = vec![plain_run("d", tree)];
    let (total, diags) = total_of(&cmd(false, false), &runs);
    assert_eq!(total, 7);
    assert_eq!(diags.len(), 1);
    assert_eq!(diags[0].path, "d/locked");
    assert_eq!(diags[0].message, "permission denied");
}

#[test]
fn quiet_suppresses_diagnostics_but_not_the_total() {
    let tree = dir(
        "d",
        vec![file("a", 7), denied("locked", "permission denied")],
    );
    let runs = vec![plain_run("d", tree)];
    let (total, diags) = total_of(&cmd(false, true), &runs);
    assert_eq!(total, 7);
    assert!(diags.is_empty());
}

#[test]
fn repeated_runs_total_the_same() {
    let runs = vec![plain_run(
        "d",
        dir("d", vec![file("a", 11), dir("s", vec![file("b", 31)])]),
    )];
    let c = cmd(false, false);
    let (t1, _) = total_of(&c, &runs);
    let (t2, _) = total_of(&c, &runs);
    assert_eq!(t1, 42);
    assert_eq!(t1, t2);
}

#[test]
fn malformed_pattern_aborts_before_any_total() {
    let c = Cmd::new(
        false,
        false,
        false,
        false,
        false,
        vec!["ok.txt".to_string(), "[".to_string(), "also-ok".to_string()],
    );
    match c.jobs() {
        Err(e) => assert_eq!(e.pattern, "["),
        Ok(_) => panic!("a malformed pattern must abort the run"),
    }
    // The same check guards `calculate`: a bad pattern job yields an error,
    // not a partial total.
    let runs = vec![JobRun {
        job: Job::Pattern {
            root: ".".to_string(),
            pattern: "[".to_string(),
            depth_limit: Some(1),
        },
        tree: dir(".", vec![file("a", 1)]),
    }];
    assert!(c.calculate(&runs).is_err());
}

#[test]
fn jobs_compile_each_input_in_order() {
    let c = Cmd::new(
        false,
        false,
        false,
        false,
        false,
        vec!["notes.md".to_string(), "src/*.rs".to_string()],
    );
    match c.jobs() {
        Ok(jobs) => {
            assert_eq!(jobs.len(), 2);
            assert!(matches!(&jobs[0], Job::Plain { path } if path == "notes.md"));
            match &jobs[1] {
                Job::Pattern {
                    root,
                    pattern,
                    depth_limit,
                } => {
                    assert_eq!(root, "src");
                    assert_eq!(pattern, "*.rs");
                    assert_eq!(*depth_limit, Some(1));
                }
                _ => panic!("expected a pattern job"),
            }
        }
        Err(_) => panic!("both inputs are fine"),
    }
}

#[test]
fn compiled_jobs_drive_the_whole_pipeline() {
    let c = Cmd::new(
        false,
        false,
        false,
        false,
        false,
        vec!["notes.md".to_string(), "a/*.txt".to_string()],
    );
    let jobs = c.jobs().expect("both inputs compile");
    let mut runs = Vec::new();
    let mut jobs = jobs.into_iter();
    runs.push(JobRun {
        job: jobs.next().unwrap(),
        tree: file("notes.md", 40),
    });
    runs.push(JobRun {
        job: jobs.next().unwrap(),
        tree: dir("a", vec![file("x.txt", 2), file("y.md", 100)]),
    });
    let (total, diags) = total_of(&c, &runs);
    assert_eq!(total, 42);
    assert!(diags.is_empty());
}

#[test]
fn pattern_match_on_directory_counts_all_descendants() {
    // photos/ matches "photo*"; everything below it is counted, including
    // what the glob itself would never match.
    let tree = dir(
        ".",
        vec![
            dir("photos", vec![file("p1.jpg", 5), dir("raw", vec![file("r.nef", 6)])]),
            file("unrelated", 100),
        ],
    );
    let runs = vec![JobRun {
        job: Job::Pattern {
            root: ".".to_string(),
            pattern: "photo*".to_string(),
            depth_limit: Some(1),
        },
        tree,
    }];
    let (total, _) = total_of(&cmd(false, false), &runs);
    assert_eq!(total, 11);
}

#[test]
fn depth_bound_prunes_deeper_entries() {
    let tree = || {
        dir(
            "a",
            vec![
                file("top.txt", 1),
                dir("sub", vec![file("deep.txt", 100)]),
            ],
        )
    };
    // "a/*.txt": depth 1, so sub/deep.txt is out of reach.
    let bounded = vec![JobRun {
        job: Job::Pattern {
            root: "a".to_string(),
            pattern: "*.txt".to_string(),
            depth_limit: Some(1),
        },
        tree: tree(),
    }];
    let (total, _) = total_of(&cmd(false, false), &bounded);
    assert_eq!(total, 1);
    // "a/**/*.txt": unbounded, both files are reached.
    let unbounded = vec![JobRun {
        job: Job::Pattern {
            root: "a".to_string(),
            pattern: "**/*.txt".to_string(),
            depth_limit: None,
        },
        tree: tree(),
    }];
    let (total, _) = total_of(&cmd(false, false), &unbounded);
    assert_eq!(total, 101);
}

#[test]
fn pattern_walk_skips_hidden_entries() {
    let tree = dir(
        ".",
        vec![file("a.txt", 3), file(".b.txt", 4)],
    );
    let runs = vec![JobRun {
        job: Job::Pattern {
            root: ".".to_string(),
            pattern: "*.txt".to_string(),
            depth_limit: Some(1),
        },
        tree,
    }];
    let (total, _) = total_of(&cmd(true, false), &runs);
    assert_eq!(total, 3);
}

#[test]
fn pattern_walk_reports_unreadable_entries() {
    let tree = dir(
        ".",
        vec![file("a.txt", 3), denied("broken", "stale handle")],
    );
    let runs = vec![JobRun {
        job: Job::Pattern {
            root: ".".to_string(),
            pattern: "*.txt".to_string(),
            depth_limit: Some(1),
        },
        tree,
    }];
    let (total, diags) = total_of(&cmd(false, false), &runs);
    assert_eq!(total, 3);
    assert_eq!(diags.len(), 1);
    assert_eq!(diags[0].path, "./broken");
}

#[test]
fn run_pattern_rejects_a_malformed_pattern() {
    let root = ".".to_string();
    match run_pattern(&dir(".", vec![]), "[", Some(1), false, &root) {
        Err(e) => assert_eq!(e.pattern, "["),
        Ok(_) => panic!("an unclosed bracket expression must be rejected"),
    }
}

#[test]
fn walk_lists_the_whole_subtree() {
    let tree = dir("d", vec![file("a", 1), dir("s", vec![file("b", 2)])]);
    let path = "d".to_string();
    let entries = walk(&tree, false, &path);
    let mut found = Vec::new();
    for e in &entries {
        match e {
            WalkEntry::Found { path, len } => found.push((path.clone(), *len)),
            WalkEntry::Failed { .. } => panic!("nothing fails in this tree"),
        }
    }
    assert_eq!(
        found,
        vec![
            ("d".to_string(), 0),
            ("d/a".to_string(), 1),
            ("d/s".to_string(), 0),
            ("d/s/b".to_string(), 2),
        ]
    );
}

#[test]
fn reduce_saturates_instead_of_wrapping() {
    let entries = vec![
        WalkEntry::Found {
            path: "big".to_string(),
            len: u64::MAX,
        },
        WalkEntry::Found {
            path: "more".to_string(),
            len: 5,
        },
    ];
    let (total, diags) = reduce(&entries, false);
    assert_eq!(total, u64::MAX);
    assert!(diags.is_empty());
}

#[test]
fn hidden_names() {
    assert!(is_hidden(".b"));
    assert!(is_hidden(".hidden"));
    assert!(!is_hidden("b"));
    assert!(!is_hidden(""));
    assert!(!is_hidden("a.b"));
}
