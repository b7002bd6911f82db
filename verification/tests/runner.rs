use renamer::error::ActionError;
use renamer::file_actions::{FileAction, FileActionContext, FileActionType};
use renamer::fs_model::{FileTime, FsModel};
use renamer::patterns::{ActionOptions, RenamePattern};
use renamer::report::Report;
use renamer::runner::{run_actions, RunnerConfig};
use renamer::ActionGroup;

fn t(n: i64) -> FileTime {
    FileTime { secs: n, nanos: 0 }
}

fn fs_with(paths: &[&str]) -> FsModel {
    let mut fs = FsModel::new();
    for (i, p) in paths.iter().enumerate() {
        fs.create(p, t(i as i64));
    }
    fs
}

fn rename_action(from: &str, to: &str, overwrite: bool) -> FileAction {
    FileAction::new(
        FileActionType::Rename(to.to_owned()),
        from.to_owned(),
        overwrite,
    )
}

#[test]
fn fs_model_basics() {
    let mut fs = FsModel::new();
    assert_eq!(fs.len(), 0);
    fs.create("a", t(1));
    fs.create("b", t(2));
    fs.create("a", t(3));
    assert_eq!(fs.len(), 2);
    assert!(fs.probe("a"));
    assert!(!fs.probe("c"));
    assert_eq!(fs.mtime_of("a"), Some(t(3)));
    assert!(fs.rename("a", "c").is_ok());
    assert!(!fs.probe("a"));
    assert_eq!(fs.mtime_of("c"), Some(t(3)));
    assert!(fs.rename("missing", "d").is_err());
}

#[test]
fn plain_rename_without_collision() {
    let mut fs = fs_with(&["dir/a.txt"]);
    let ctx = FileActionContext::new();
    let rep = rename_action("dir/a.txt", "dir/b.txt", false)
        .run(&ctx, &mut fs)
        .unwrap();
    assert_eq!(
        rep,
        Report::Renamed {
            from: "dir/a.txt".to_owned(),
            to: "dir/b.txt".to_owned(),
            overwrote: false
        }
    );
    assert!(!fs.probe("dir/a.txt"));
    assert!(fs.probe("dir/b.txt"));
}

#[test]
fn nondestructive_collision_appends_counters() {
    // the existing file must survive untouched and the chosen alternate
    // name must be free at the moment of its probe
    let mut fs = fs_with(&["dir/a.txt", "dir/b.txt"]);
    let ctx = FileActionContext::new();
    let rep = rename_action("dir/a.txt", "dir/b.txt", false)
        .run(&ctx, &mut fs)
        .unwrap();
    assert_eq!(
        rep,
        Report::Renamed {
            from: "dir/a.txt".to_owned(),
            to: "dir/b.txt1".to_owned(),
            overwrote: false
        }
    );
    assert_eq!(fs.mtime_of("dir/b.txt"), Some(t(1)));
    assert!(fs.probe("dir/b.txt1"));
    assert_eq!(fs.len(), 2);
}

#[test]
fn nondestructive_collision_chain_accumulates() {
    // each retry appends the incremented counter to the previous candidate
    let mut fs = fs_with(&["a", "b", "b1"]);
    let ctx = FileActionContext::new();
    let rep = rename_action("a", "b", false).run(&ctx, &mut fs).unwrap();
    assert_eq!(
        rep,
        Report::Renamed {
            from: "a".to_owned(),
            to: "b12".to_owned(),
            overwrote: false
        }
    );
    assert!(fs.probe("b") && fs.probe("b1") && fs.probe("b12"));
    assert_eq!(fs.len(), 3);
}

#[test]
fn overwrite_replaces_and_reports() {
    let mut fs = fs_with(&["dir/a.txt", "dir/b.txt"]);
    let ctx = FileActionContext::new();
    let rep = rename_action("dir/a.txt", "dir/b.txt", true)
        .run(&ctx, &mut fs)
        .unwrap();
    assert_eq!(
        rep,
        Report::Renamed {
            from: "dir/a.txt".to_owned(),
            to: "dir/b.txt".to_owned(),
            overwrote: true
        }
    );
    // the destination now holds the renamed file's metadata
    assert_eq!(fs.mtime_of("dir/b.txt"), Some(t(0)));
    assert_eq!(fs.len(), 1);
}

#[test]
fn overwrite_without_collision_reports_false() {
    let mut fs = fs_with(&["a"]);
    let ctx = FileActionContext::new();
    let rep = rename_action("a", "b", true).run(&ctx, &mut fs).unwrap();
    assert_eq!(
        rep,
        Report::Renamed {
            from: "a".to_owned(),
            to: "b".to_owned(),
            overwrote: false
        }
    );
}

#[test]
fn missing_source_is_an_isolated_error() {
    let mut fs = fs_with(&["x"]);
    let actions = vec![
        rename_action("missing", "y", false),
        rename_action("x", "y", false),
    ];
    let results = run_actions(actions, RunnerConfig::new(1), &mut fs);
    assert_eq!(results.len(), 2);
    assert!(results[0].is_err());
    assert_eq!(
        results[1],
        Ok(Report::Renamed {
            from: "x".to_owned(),
            to: "y".to_owned(),
            overwrote: false
        })
    );
}

#[test]
fn randomize_job_moves_within_directory() {
    let mut fs = fs_with(&["dir/data.bin"]);
    let ctx = FileActionContext::new();
    let action = FileAction::new(FileActionType::Randomize, "dir/data.bin".to_owned(), false);
    match action.run(&ctx, &mut fs).unwrap() {
        Report::Renamed { from, to, overwrote } => {
            assert_eq!(from, "dir/data.bin");
            assert!(!overwrote);
            let name = to.strip_prefix("dir/").unwrap();
            str::parse::<u32>(name).unwrap();
            assert!(fs.probe(&to));
        }
        Report::Nothing => panic!("expected a rename"),
    }
    assert_eq!(fs.len(), 1);
}

#[test]
fn batch_completeness_under_any_worker_count() {
    // N independent jobs yield exactly N outcomes, each matching its own
    // submitted job, whatever the configured worker count
    for threads in [1usize, 8] {
        let mut fs = fs_with(&["a", "b", "c", "d"]);
        let actions = vec![
            rename_action("a", "a2", false),
            rename_action("b", "b2", false),
            rename_action("c", "c2", false),
            rename_action("d", "d2", false),
        ];
        let results = run_actions(actions, RunnerConfig::new(threads), &mut fs);
        assert_eq!(results.len(), 4);
        for (res, (from, to)) in results
            .iter()
            .zip([("a", "a2"), ("b", "b2"), ("c", "c2"), ("d", "d2")])
        {
            assert_eq!(
                res,
                &Ok(Report::Renamed {
                    from: from.to_owned(),
                    to: to.to_owned(),
                    overwrote: false
                })
            );
        }
        assert_eq!(fs.len(), 4);
    }
}

#[test]
fn sequential_and_pooled_runs_agree() {
    // the same batch of rename jobs gives the same outcomes under worker
    // count 1 and worker count 8
    let build = || {
        (
            fs_with(&["a", "b", "clash"]),
            vec![
                rename_action("a", "clash", false),
                rename_action("b", "clash", false),
                rename_action("ghost", "x", false),
            ],
        )
    };
    let (mut fs1, actions1) = build();
    let (mut fs8, actions8) = build();
    let r1 = run_actions(actions1, RunnerConfig::new(1), &mut fs1);
    let r8 = run_actions(actions8, RunnerConfig::new(8), &mut fs8);
    assert_eq!(r1, r8);
}

#[test]
fn action_group_ids_stay_stable() {
    let mut group = ActionGroup::new(7);
    assert_eq!(group.id(), 7);
    group.add_file("one".to_owned());
    group.add_file("two".to_owned());
    group.remove_file(0);
    group.add_file("three".to_owned());
    // the removed id 0 is never reused
    let ids: Vec<i32> = group.files().iter().map(|f| f.0).collect();
    assert_eq!(ids, vec![1, 2]);
    let paths: Vec<&str> = group.files().iter().map(|f| f.1.as_str()).collect();
    assert_eq!(paths, vec!["two", "three"]);
}

#[test]
fn group_execute_is_the_cross_product() {
    let mut group = ActionGroup::new(0);
    group.add_file("d/a.txt".to_owned());
    group.add_file("d/b.txt".to_owned());
    let p1 = RenamePattern::parse("/ORIG/x", ActionOptions::default()).unwrap();
    let p2 = RenamePattern::parse("/ORIG/y", ActionOptions::default()).unwrap();
    group.add_pattern(p1);
    group.add_pattern(p2);
    let mut fs = fs_with(&["d/a.txt", "d/b.txt"]);
    let results = group.execute(RunnerConfig::new(2), &mut fs);
    // one outcome per (pattern, file) pair, pattern-major
    assert_eq!(results.len(), 4);
    assert_eq!(
        results[0],
        Ok(Report::Renamed {
            from: "d/a.txt".to_owned(),
            to: "d/a.txtx".to_owned(),
            overwrote: false
        })
    );
    assert_eq!(
        results[1],
        Ok(Report::Renamed {
            from: "d/b.txt".to_owned(),
            to: "d/b.txtx".to_owned(),
            overwrote: false
        })
    );
    // the second pattern's jobs find their sources already moved by the
    // first; each fails on its own without affecting the others
    assert!(results[2].is_err());
    assert!(results[3].is_err());
    assert_eq!(fs.len(), 2);
    assert!(fs.probe("d/a.txtx") && fs.probe("d/b.txtx"));
}

#[test]
fn report_and_error_render() {
    let rep = Report::Renamed {
        from: "a".to_owned(),
        to: "b".to_owned(),
        overwrote: true,
    };
    assert_eq!(rep.describe(), "Renamed a to b(OVERWROTE)");
    let plain = Report::Renamed {
        from: "a".to_owned(),
        to: "b".to_owned(),
        overwrote: false,
    };
    assert_eq!(plain.describe(), "Renamed a to b");
    assert_eq!(Report::Nothing.describe(), "");
    assert_eq!(ActionError::Unknown.message(), "Unknown");
    assert_eq!(
        ActionError::Other("boom".to_owned()).message(),
        "boom"
    );
    assert_eq!(
        ActionError::CannotRenameDotDot.message(),
        "Cannot rename a path ending in \"..\""
    );
}
