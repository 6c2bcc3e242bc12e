use vshell::executor::base_name;
use vshell::executor::copy_tree_step;
use vshell::executor::is_cross_device_error;
use vshell::executor::join_path;
use vshell::executor::mv_action;
use vshell::executor::mv_step;
use vshell::executor::xdev_dir_result;
use vshell::executor::xdev_file_result;
use vshell::executor::xdev_should_delete;
use vshell::executor::ExecError;
use vshell::executor::Executor;
use vshell::executor::MvAction;
use vshell::executor::MvItem;
use vshell::executor::MvOutcome;
use vshell::executor::MvStep;
use vshell::executor::PathState;
use vshell::executor::RenameOutcome;
use vshell::executor::RmOutcome;
use vshell::executor::TreeEntry;

fn exec() -> Executor {
    Executor::new(String::from("/w"))
}

fn strs(words: &[&str]) -> Vec<String> {
    words.iter().map(|w| String::from(*w)).collect()
}

#[test]
fn pwd_returns_tracked_directory() {
    assert_eq!(exec().pwd().unwrap(), String::from("/w\n"));
}

#[test]
fn echo_appends_newline() {
    assert_eq!(exec().echo(&String::from("hi")).unwrap(), String::from("hi\n"));
}

#[test]
fn exit_prints_nothing() {
    assert_eq!(exec().exit().unwrap(), String::new());
}

#[test]
fn resolve_keeps_absolute_paths() {
    assert_eq!(exec().resolve_path("/etc"), String::from("/etc"));
}

#[test]
fn resolve_joins_relative_paths() {
    assert_eq!(exec().resolve_path("a/b"), String::from("/w/a/b"));
}

#[test]
fn join_path_inserts_one_slash() {
    assert_eq!(join_path("/a", "b"), String::from("/a/b"));
    assert_eq!(join_path("/a/", "b"), String::from("/a/b"));
    assert_eq!(join_path("/a", "/x"), String::from("/x"));
}

#[test]
fn base_name_takes_last_component() {
    assert_eq!(base_name("a/b.txt"), Some(String::from("b.txt")));
    assert_eq!(base_name("plain"), Some(String::from("plain")));
    assert_eq!(base_name("x/"), Some(String::from("x")));
    assert_eq!(base_name("/"), None);
    assert_eq!(base_name("a/.."), None);
    assert_eq!(base_name("."), None);
}

#[test]
fn cd_target_resolves_operand() {
    let e = exec();
    assert_eq!(
        e.cd_target(&String::from("d"), &None).unwrap(),
        String::from("/w/d")
    );
}

#[test]
fn cd_target_empty_goes_home() {
    let e = exec();
    assert_eq!(
        e.cd_target(&String::new(), &Some(String::from("/home/u"))).unwrap(),
        String::from("/home/u")
    );
}

#[test]
fn cd_target_without_home_fails() {
    let e = exec();
    assert_eq!(
        e.cd_target(&String::new(), &None).unwrap_err(),
        ExecError::HomeUnavailable
    );
}

#[test]
fn cd_apply_updates_tracked_directory() {
    let mut e = exec();
    assert_eq!(e.cd_apply(String::from("/elsewhere")).unwrap(), String::new());
    assert_eq!(e.current_dir, String::from("/elsewhere"));
}

#[test]
fn cd_failed_reports_the_path() {
    let e = exec();
    let err = e.cd_failed(&String::from("nope")).unwrap_err();
    assert_eq!(err, ExecError::NoSuchPath(String::from("nope")));
    assert_eq!(err.message(), String::from("no such file or directory: nope"));
}

#[test]
fn mkdir_collect_all_created() {
    let r = Executor::mkdir_collect(&strs(&["a", "b"]), &vec![None, None]);
    assert_eq!(r.unwrap(), String::new());
}

#[test]
fn mkdir_collect_reports_last_failure() {
    let outcomes = vec![Some(String::from("exists")), None, Some(String::from("denied"))];
    let err = Executor::mkdir_collect(&strs(&["a", "b", "c"]), &outcomes).unwrap_err();
    assert_eq!(
        err,
        ExecError::CannotCreateDir {
            path: String::from("c"),
            cause: String::from("denied"),
        }
    );
    assert_eq!(err.message(), String::from("cannot create directory 'c': denied"));
}

#[test]
fn rm_continues_past_a_missing_file() {
    // `rm a missing b` removes `a` and `b`; the error mentions only
    // `missing`.
    let outcomes = vec![
        RmOutcome::Removed,
        RmOutcome::Failed(String::from("No such file or directory")),
        RmOutcome::Removed,
    ];
    let err = Executor::rm_collect(&strs(&["a", "missing", "b"]), &outcomes).unwrap_err();
    let msg = err.message();
    assert_eq!(
        msg,
        String::from("cannot remove 'missing': No such file or directory")
    );
    assert!(!msg.contains("'a'"));
    assert!(!msg.contains("'b'"));
}

#[test]
fn rm_collect_fallback_counts_as_removed() {
    let outcomes = vec![RmOutcome::FallbackRemoved, RmOutcome::Removed];
    assert_eq!(
        Executor::rm_collect(&strs(&["a", "b"]), &outcomes).unwrap(),
        String::new()
    );
}

#[test]
fn cat_collect_concatenates_and_inlines_errors() {
    let outcomes = vec![
        Ok(String::from("one\n")),
        Err(String::from("denied")),
        Ok(String::from("two\n")),
    ];
    let r = Executor::cat_collect(&strs(&["p1", "p2", "p3"]), &outcomes).unwrap();
    assert_eq!(r, String::from("one\nError: p2: denied\ntwo\n"));
}

#[test]
fn cp_refuses_two_sources_onto_a_file() {
    // Destination is a plain file and two sources were given: an error, and
    // no copy is planned.
    let e = exec();
    let err = e.cp_plan(&strs(&["a", "b", "d"]), &PathState::File).unwrap_err();
    assert_eq!(err, ExecError::DestinationNotDirectory);
    assert_eq!(err.message(), String::from("The destination should be a directory"));
}

#[test]
fn cp_refuses_two_sources_onto_a_missing_path() {
    let e = exec();
    let err = e
        .cp_plan(
            &strs(&["a", "b", "d"]),
            &PathState::Missing(String::from("No such file or directory")),
        )
        .unwrap_err();
    assert_eq!(
        err,
        ExecError::DestinationMissing(String::from("No such file or directory"))
    );
}

#[test]
fn cp_single_source_to_new_name() {
    let e = exec();
    let pairs = e
        .cp_plan(&strs(&["a", "d"]), &PathState::Missing(String::from("x")))
        .unwrap();
    assert_eq!(pairs, vec![(String::from("/w/a"), String::from("/w/d"))]);
}

#[test]
fn cp_fans_out_into_a_directory() {
    let e = exec();
    let pairs = e.cp_plan(&strs(&["a", "s/b", "d"]), &PathState::Dir).unwrap();
    assert_eq!(
        pairs,
        vec![
            (String::from("/w/a"), String::from("/w/d/a")),
            (String::from("/w/s/b"), String::from("/w/d/b")),
        ]
    );
}

#[test]
fn cp_refuses_source_equal_to_destination() {
    let e = exec();
    let err = e
        .cp_plan(&strs(&["d", "d"]), &PathState::Missing(String::from("x")))
        .unwrap_err();
    assert_eq!(err, ExecError::SamePath(String::from("d")));
    assert_eq!(
        err.message(),
        String::from("The \"d\" can't be the source and the destination at the same time")
    );
}

#[test]
fn cp_refuses_source_without_base_name() {
    let e = exec();
    let err = e.cp_plan(&strs(&["/", "d"]), &PathState::Dir).unwrap_err();
    assert_eq!(err, ExecError::InvalidSourcePath);
}

#[test]
fn mv_no_op_when_source_is_destination() {
    // Moving a path onto itself is planned as a no-op and produces empty
    // output.
    let e = exec();
    let items = e
        .mv_plan(&strs(&["a", "a"]), &PathState::Missing(String::from("x")))
        .unwrap();
    assert_eq!(items.len(), 1);
    assert!(items[0].same);
    assert_eq!(mv_action(&items[0], &PathState::File), MvAction::Skip);
    assert_eq!(
        Executor::mv_collect(vec![MvOutcome::Skipped]).unwrap(),
        String::new()
    );
}

#[test]
fn mv_into_directory_uses_base_names() {
    let e = exec();
    let items = e.mv_plan(&strs(&["x/a.txt", "d"]), &PathState::Dir).unwrap();
    assert_eq!(
        items,
        vec![MvItem {
            source_raw: String::from("x/a.txt"),
            source: String::from("/w/x/a.txt"),
            dest: String::from("/w/d/a.txt"),
            same: false,
        }]
    );
}

#[test]
fn mv_refuses_many_sources_onto_non_directory() {
    let e = exec();
    let err = e.mv_plan(&strs(&["a", "b", "d"]), &PathState::File).unwrap_err();
    assert_eq!(err, ExecError::MvDestinationNotDirectory(String::from("d")));
}

#[test]
fn mv_missing_source_is_recorded() {
    let e = exec();
    let items = e.mv_plan(&strs(&["gone", "d"]), &PathState::Dir).unwrap();
    assert_eq!(
        mv_action(&items[0], &PathState::Missing(String::from("x"))),
        MvAction::RecordMissing
    );
}

#[test]
fn mv_collect_returns_last_failure() {
    let e1 = ExecError::CannotStat(String::from("a"));
    let e2 = ExecError::CannotStat(String::from("b"));
    let r = Executor::mv_collect(vec![
        MvOutcome::Failed(e1),
        MvOutcome::Moved,
        MvOutcome::Failed(e2.clone()),
    ]);
    assert_eq!(r.unwrap_err(), e2);
}

#[test]
fn rename_outcomes_drive_the_next_step() {
    assert_eq!(mv_step(&RenameOutcome::Renamed), MvStep::Done);
    assert_eq!(
        mv_step(&RenameOutcome::Failed {
            cross_device: true,
            cause: String::from("x"),
        }),
        MvStep::CrossDeviceFallback
    );
    assert_eq!(
        mv_step(&RenameOutcome::Failed {
            cross_device: false,
            cause: String::from("denied"),
        }),
        MvStep::Fail(String::from("denied"))
    );
}

#[test]
fn cross_device_detection() {
    assert!(is_cross_device_error(&Some(18), "whatever"));
    assert!(is_cross_device_error(&None, "Invalid cross-device link (os error 18)"));
    assert!(!is_cross_device_error(&Some(5), "some other failure"));
}

#[test]
fn failed_copy_never_deletes_the_source() {
    // The delete phase runs only after the whole copy phase succeeded.
    assert!(xdev_should_delete(&None));
    assert!(!xdev_should_delete(&Some(String::from("short write"))));
}

#[test]
fn cross_device_file_results() {
    let src = String::from("/w/a");
    let dst = String::from("/mnt/a");
    assert_eq!(
        xdev_file_result(&src, &dst, None, None).unwrap(),
        String::new()
    );
    let err = xdev_file_result(&src, &dst, Some(String::from("boom")), None).unwrap_err();
    assert_eq!(
        err.message(),
        String::from("failed to copy file '/w/a' to '/mnt/a': boom")
    );
    let err2 = xdev_file_result(&src, &dst, None, Some(String::from("busy"))).unwrap_err();
    assert_eq!(
        err2.message(),
        String::from("failed to remove source file '/w/a': busy")
    );
}

#[test]
fn cross_device_dir_results() {
    let src = String::from("/w/d");
    let copy_err = ExecError::ReadDirFailed {
        path: String::from("/w/d/sub"),
        cause: String::from("denied"),
    };
    let err = xdev_dir_result(&src, Some(copy_err.clone()), None).unwrap_err();
    assert_eq!(err, copy_err);
    let err2 = xdev_dir_result(&src, None, Some(String::from("busy"))).unwrap_err();
    assert_eq!(
        err2.message(),
        String::from("failed to remove source directory '/w/d': busy")
    );
    assert_eq!(xdev_dir_result(&src, None, None).unwrap(), String::new());
}

#[test]
fn tree_step_splits_dirs_and_files() {
    let entries = vec![
        TreeEntry { name: String::from("sub"), is_dir: true },
        TreeEntry { name: String::from("f.txt"), is_dir: false },
        TreeEntry { name: String::from("deeper"), is_dir: true },
    ];
    let (dirs, files) = copy_tree_step(&String::from("/a"), &String::from("/b"), &entries);
    assert_eq!(
        dirs,
        vec![
            (String::from("/a/sub"), String::from("/b/sub")),
            (String::from("/a/deeper"), String::from("/b/deeper")),
        ]
    );
    assert_eq!(
        files,
        vec![(String::from("/a/f.txt"), String::from("/b/f.txt"))]
    );
}
