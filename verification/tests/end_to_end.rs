use vshell::command::Command;
use vshell::executor::RmOutcome;
use vshell::executor::mv_action;
use vshell::executor::ExecError;
use vshell::executor::Executor;
use vshell::executor::MvAction;
use vshell::executor::MvOutcome;
use vshell::executor::PathState;
use vshell::listing::display_ls_result;
use vshell::listing::keep_entry;
use vshell::listing::Directory;
use vshell::listing::FileInfo;
use vshell::listing::FileKind;
use vshell::quotes::process_shell_quotes;

fn blank_entry(name: String) -> FileInfo {
    FileInfo {
        name,
        kind: FileKind::File,
        full_path: String::new(),
        permissions: String::new(),
        has_xattr: false,
        user: String::new(),
        group: String::new(),
        permission_bits: 0,
        device: 0,
        rdev: 0,
        symlink_target: None,
        links: 0,
        size: 0,
        blocks: 0,
        modified_time: String::new(),
    }
}

async fn run(ex: &mut Executor, line: &str) -> Result<String, ExecError> {
    let toks = process_shell_quotes(line);
    let cmd = Command::parse(&toks).unwrap();
    match cmd {
        Command::Mkdir(paths) => {
            let full = ex.resolve_all(&paths);
            let mut outcomes: Vec<Option<String>> = Vec::new();
            for p in &full {
                match tokio::fs::create_dir(p).await {
                    Ok(()) => outcomes.push(None),
                    Err(e) => outcomes.push(Some(e.to_string())),
                }
            }
            Executor::mkdir_collect(&paths, &outcomes)
        }
        Command::Mv(paths) => {
            let dest_full = ex.resolve_path(&paths[paths.len() - 1]);
            let dest_state = match tokio::fs::metadata(&dest_full).await {
                Ok(m) => {
                    if m.is_dir() {
                        PathState::Dir
                    } else if m.is_file() {
                        PathState::File
                    } else {
                        PathState::Other
                    }
                }
                Err(e) => PathState::Missing(e.to_string()),
            };
            let items = ex.mv_plan(&paths, &dest_state)?;
            let mut outcomes: Vec<MvOutcome> = Vec::new();
            for item in &items {
                let source_state = match tokio::fs::metadata(&item.source).await {
                    Ok(_) => PathState::Other,
                    Err(e) => PathState::Missing(e.to_string()),
                };
                match mv_action(item, &source_state) {
                    MvAction::Skip => outcomes.push(MvOutcome::Skipped),
                    MvAction::RecordMissing => outcomes.push(MvOutcome::Failed(
                        ExecError::CannotStat(item.source_raw.clone()),
                    )),
                    MvAction::TryRename => match tokio::fs::rename(&item.source, &item.dest).await
                    {
                        Ok(()) => outcomes.push(MvOutcome::Moved),
                        Err(e) => outcomes.push(MvOutcome::Failed(ExecError::CannotMove {
                            source: item.source_raw.clone(),
                            dest: paths[paths.len() - 1].clone(),
                            cause: e.to_string(),
                        })),
                    },
                }
            }
            Executor::mv_collect(outcomes)
        }
        Command::Rm(args) => {
            let full = ex.resolve_all(&args.dirs);
            let mut outcomes: Vec<RmOutcome> = Vec::new();
            for p in &full {
                let primary = if args.is_dir {
                    tokio::fs::remove_dir_all(p).await
                } else {
                    tokio::fs::remove_file(p).await
                };
                match primary {
                    Ok(()) => outcomes.push(RmOutcome::Removed),
                    Err(primary_err) => match tokio::fs::remove_file(p).await {
                        Ok(()) => outcomes.push(RmOutcome::FallbackRemoved),
                        Err(_) => outcomes.push(RmOutcome::Failed(primary_err.to_string())),
                    },
                }
            }
            Executor::rm_collect(&args.dirs, &outcomes)
        }
        Command::Ls(ls) => {
            let mut data: Vec<Directory> = Vec::new();
            for d in &ls.dirs {
                let full = ex.resolve_path(d);
                let mut entries: Vec<FileInfo> = Vec::new();
                let mut rd = tokio::fs::read_dir(&full).await.unwrap();
                while let Some(ent) = rd.next_entry().await.unwrap() {
                    let name = ent.file_name().to_string_lossy().to_string();
                    if !keep_entry(ls.is_all, &name) {
                        continue;
                    }
                    entries.push(blank_entry(name));
                }
                data.push(Directory { name: d.clone(), file_content: entries });
            }
            Ok(display_ls_result(ls.is_all, ls.is_classify, ls.is_listing, data))
        }
        _ => panic!("unexpected command in this test"),
    }
}

#[test]
fn mkdir_then_mv_then_ls() {
    let rt = tokio::runtime::Runtime::new().unwrap();
    rt.block_on(async {
        let root = "/tmp/vshell_end_to_end";
        let _ = tokio::fs::remove_dir_all(root).await;
        tokio::fs::create_dir_all(root).await.unwrap();
        tokio::fs::write(format!("{}/a.txt", root), b"hello").await.unwrap();
        let mut ex = Executor::new(String::from(root));

        assert_eq!(run(&mut ex, "mkdir d").await.unwrap(), String::new());
        assert_eq!(run(&mut ex, "mv a.txt d").await.unwrap(), String::new());
        // `a.txt` is the sole (non-hidden) entry of `d`.
        assert_eq!(run(&mut ex, "ls d").await.unwrap(), String::from("a.txt\n"));

        let _ = tokio::fs::remove_dir_all(root).await;
    });
}

#[test]
fn mv_to_itself_leaves_everything_in_place() {
    let rt = tokio::runtime::Runtime::new().unwrap();
    rt.block_on(async {
        let root = "/tmp/vshell_mv_noop";
        let _ = tokio::fs::remove_dir_all(root).await;
        tokio::fs::create_dir_all(root).await.unwrap();
        tokio::fs::write(format!("{}/a.txt", root), b"hello").await.unwrap();
        let mut ex = Executor::new(String::from(root));

        assert_eq!(run(&mut ex, "mv a.txt a.txt").await.unwrap(), String::new());
        let content = tokio::fs::read(format!("{}/a.txt", root)).await.unwrap();
        assert_eq!(content, b"hello".to_vec());

        let _ = tokio::fs::remove_dir_all(root).await;
    });
}

#[test]
fn rm_removes_what_it_can_and_names_the_rest() {
    let rt = tokio::runtime::Runtime::new().unwrap();
    rt.block_on(async {
        let root = "/tmp/vshell_rm_partial";
        let _ = tokio::fs::remove_dir_all(root).await;
        tokio::fs::create_dir_all(root).await.unwrap();
        tokio::fs::write(format!("{}/a", root), b"x").await.unwrap();
        tokio::fs::write(format!("{}/b", root), b"y").await.unwrap();
        let mut ex = Executor::new(String::from(root));

        let err = run(&mut ex, "rm a missing b").await.unwrap_err();
        let msg = err.message();
        assert!(msg.starts_with("cannot remove 'missing':"));
        assert!(!msg.contains("'a'"));
        assert!(!msg.contains("'b'"));
        // Both existing files are gone despite the failure in between.
        assert!(tokio::fs::metadata(format!("{}/a", root)).await.is_err());
        assert!(tokio::fs::metadata(format!("{}/b", root)).await.is_err());

        let _ = tokio::fs::remove_dir_all(root).await;
    });
}
