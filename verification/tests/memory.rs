use axon::memory::{
    clear_report, clear_targets, deletion_notice, edit_target, editor_command, editor_failure,
    global_target, human_bytes, is_confirmed, resolve_editor, stats_report, workspace_target,
    ArgsError, ClearOutcome, Fault, IndexStats, MemoryArgs, MemoryCommand, MemoryFile, MemoryPaths,
    MemoryStats, Scope,
};
use clap::error::ErrorKind;


fn try_parse(args: &[&str]) -> Result<MemoryArgs, ArgsError> {
    let args: Vec<String> = args.iter().map(|a| a.to_string()).collect();
    MemoryArgs::parse(&args)
}

/// Parse `axon memory <args>`.
fn parse(args: &[&str]) -> MemoryCommand {
    try_parse(args).unwrap().command
}

#[test]
fn edit_defaults_to_workspace_scope() {
    assert!(matches!(
        parse(&["edit"]),
        MemoryCommand::Edit { global: false }
    ));
}

#[test]
fn edit_global_selects_global_scope() {
    assert!(matches!(
        parse(&["edit", "--global"]),
        MemoryCommand::Edit { global: true }
    ));
}

#[test]
fn stats_takes_no_arguments() {
    assert!(matches!(parse(&["stats"]), MemoryCommand::Stats));
    assert!(try_parse(&["stats", "--global"]).is_err());
}

/// The documented variants must be the ones that are accepted.
#[test]
fn documented_subcommands_all_parse() {
    for args in [
        vec!["clear"],
        vec!["clear", "--global"],
        vec!["clear", "--all", "--yes"],
        vec!["edit"],
        vec!["edit", "--global"],
        vec!["stats"],
    ] {
        assert!(
            try_parse(&args).is_ok(),
            "documented invocation `axon memory {}` does not parse",
            args.join(" ")
        );
    }
}

#[test]
fn human_bytes_uses_binary_units_and_scales() {
    assert_eq!(human_bytes(0), "0 B");
    assert_eq!(human_bytes(999), "999 B");
    // Exactly at the boundary it promotes, rather than printing "1024 B".
    assert_eq!(human_bytes(1024), "1.0 KB");
    assert_eq!(human_bytes(1536), "1.5 KB");
    assert_eq!(human_bytes(10 * 1024 * 1024), "10.0 MB");
    assert_eq!(human_bytes(3 * 1024 * 1024 * 1024), "3.0 GB");
}

#[test]
fn human_bytes_saturates_at_the_largest_unit() {
    // Beyond GB there is no larger unit, so the number grows rather than
    // the loop running off the end of UNITS.
    assert_eq!(human_bytes(5000u64 * 1024 * 1024 * 1024), "5000.0 GB");
}

#[test]
fn arguments_at_fault_are_named() {
    assert_eq!(try_parse(&[]).unwrap_err(), ArgsError::MissingCommand);
    assert_eq!(try_parse(&["help"]).unwrap_err(), ArgsError::HelpRequested);
    assert_eq!(try_parse(&["--help"]).unwrap_err(), ArgsError::HelpRequested);
    assert_eq!(try_parse(&["-h"]).unwrap_err(), ArgsError::HelpRequested);
    assert_eq!(try_parse(&["forget"]).unwrap_err(), ArgsError::UnknownCommand);
    let at = |place, fault| ArgsError::At { place, fault };
    assert_eq!(try_parse(&["stats", "-h"]).unwrap_err(), at(0, Fault::Help));
    assert_eq!(try_parse(&["edit", "--all"]).unwrap_err(), at(0, Fault::Unexpected));
    assert_eq!(try_parse(&["clear", "-y", "--yes"]).unwrap_err(), at(1, Fault::Repeated));
    assert_eq!(try_parse(&["clear", "-yy"]).unwrap_err(), at(0, Fault::Repeated));
    assert_eq!(try_parse(&["clear", "-yh"]).unwrap_err(), at(0, Fault::Help));
    assert_eq!(try_parse(&["clear", "--workspace", "-y", "--all"]).unwrap_err(), ArgsError::Conflict);
    assert_eq!(try_parse(&["clear", "--", "--all"]).unwrap_err(), at(1, Fault::Unexpected));
    assert_eq!(try_parse(&["clear", "now"]).unwrap_err(), at(0, Fault::Unexpected));
    // A conflict is seen only where no argument is at fault.
    assert_eq!(
        try_parse(&["clear", "--global", "--all", "--help"]).unwrap_err(),
        at(2, Fault::Help)
    );
}

/// The same grammar, as clap reads it.
fn clap_grammar() -> clap::Command {
    let flag = |name: &'static str| {
        clap::Arg::new(name).long(name).action(clap::ArgAction::SetTrue)
    };
    clap::Command::new("memory")
        .subcommand_required(true)
        .arg_required_else_help(true)
        .subcommand(
            clap::Command::new("clear")
                .arg(flag("workspace").group("scope"))
                .arg(flag("global").group("scope"))
                .arg(flag("all").group("scope"))
                .arg(flag("yes").short('y')),
        )
        .subcommand(clap::Command::new("edit").arg(flag("global")))
        .subcommand(clap::Command::new("stats"))
}

fn clap_parse(args: &[&str]) -> Result<MemoryCommand, ErrorKind> {
    let all = std::iter::once("memory").chain(args.iter().copied());
    let matches = clap_grammar().try_get_matches_from(all).map_err(|e| e.kind())?;
    let (name, found) = matches.subcommand().unwrap();
    Ok(match name {
        "clear" => MemoryCommand::Clear {
            workspace: found.get_flag("workspace"),
            global: found.get_flag("global"),
            all: found.get_flag("all"),
            yes: found.get_flag("yes"),
        },
        "edit" => MemoryCommand::Edit { global: found.get_flag("global") },
        _ => MemoryCommand::Stats,
    })
}

fn agree(args: &[&str]) {
    let expected = clap_parse(args);
    match (try_parse(args), expected) {
        (Ok(ours), Ok(theirs)) => assert_eq!(ours.command, theirs, "{args:?}"),
        (Err(ours), Err(theirs)) => {
            let help = matches!(
                ours,
                ArgsError::HelpRequested | ArgsError::At { fault: Fault::Help, .. }
            );
            assert_eq!(help, theirs == ErrorKind::DisplayHelp, "{args:?} {ours:?} {theirs:?}");
            let twice = matches!(
                ours,
                ArgsError::Conflict | ArgsError::At { fault: Fault::Repeated, .. }
            );
            assert_eq!(twice, theirs == ErrorKind::ArgumentConflict, "{args:?} {ours:?} {theirs:?}");
        }
        (ours, theirs) => panic!("{args:?}: {ours:?} {theirs:?}"),
    }
}

#[test]
fn the_grammar_is_the_one_that_clap_reads() {
    let words = [
        "--workspace", "--global", "--all", "--yes", "-y", "--", "-h", "--help", "x", "-", "-x",
        "-yh", "-yy", "-hy", "-yx", "-y=1", "--yes=1", "", "---", "--glob",
    ];
    let topics = [
        "clear", "edit", "stats", "help", "forget", "clea", "--help", "-h", "--", "-", "", "--all", "CLEAR",
    ];
    agree(&[]);
    for first in ["help", "-h", "--help", "-hx", "-xh", "--", "-", "", "forget", "--global", "clea"] {
        agree(&[first]);
        for a in topics {
            agree(&[first, a]);
            for b in topics {
                agree(&[first, a, b]);
            }
        }
    }
    for command in ["clear", "edit", "stats"] {
        agree(&[command]);
        for a in words {
            agree(&[command, a]);
            for b in words {
                agree(&[command, a, b]);
                for c in words {
                    agree(&[command, a, b, c]);
                }
            }
        }
    }
}

#[test]
fn arguments_are_read_into_fields() {
    assert_eq!(
        parse(&["clear", "-y", "--workspace"]),
        MemoryCommand::Clear { workspace: true, global: false, all: false, yes: true }
    );
    assert_eq!(
        parse(&["clear", "--all", "--"]),
        MemoryCommand::Clear { workspace: false, global: false, all: true, yes: false }
    );
    assert_eq!(parse(&["stats", "--"]), MemoryCommand::Stats);
}

fn paths() -> MemoryPaths {
    MemoryPaths {
        workspace_dir: "/w".into(),
        workspace_memory_file: "/w/MEMORY.md".into(),
        global_memory_file: "/g/MEMORY.md".into(),
    }
}

#[test]
fn the_scope_decides_the_targets() {
    let scopes = |global, all| -> Vec<Scope> {
        clear_targets(global, all, &paths()).iter().map(|t| t.scope).collect()
    };
    assert_eq!(scopes(false, false), vec![Scope::Workspace]);
    assert_eq!(scopes(true, false), vec![Scope::Global]);
    assert_eq!(scopes(false, true), vec![Scope::Workspace, Scope::Global]);
    assert_eq!(workspace_target(&paths()).path, "/w");
    assert_eq!(workspace_target(&paths()).label, "workspace memory");
    assert_eq!(global_target(&paths()).path, "/g/MEMORY.md");
    assert_eq!(global_target(&paths()).label, "global MEMORY.md");
    assert_eq!(edit_target(true, &paths()), ("/g/MEMORY.md".to_string(), "global MEMORY.md"));
    assert_eq!(edit_target(false, &paths()), ("/w/MEMORY.md".to_string(), "workspace MEMORY.md"));
}

#[test]
fn only_what_is_there_is_announced() {
    let targets = clear_targets(false, true, &paths());
    assert_eq!(deletion_notice(&targets, &[false, false]), None);
    assert_eq!(
        deletion_notice(&targets, &[false, true]).unwrap(),
        "The following will be deleted:\n  global MEMORY.md: /g/MEMORY.md\n"
    );
    assert_eq!(
        deletion_notice(&targets, &[true, true]).unwrap(),
        "The following will be deleted:\n  workspace memory: /w\n  global MEMORY.md: /g/MEMORY.md\n"
    );
}

#[test]
fn only_a_yes_confirms() {
    for reply in ["y", "Y\n", " yes ", "YES\r\n"] {
        assert!(is_confirmed(reply), "{reply:?}");
    }
    for reply in ["", "\n", "n", "yeah", "y y", "no"] {
        assert!(!is_confirmed(reply), "{reply:?}");
    }
}

#[test]
fn clearing_is_reported() {
    let targets = clear_targets(false, true, &paths());
    let report = |a, b| {
        let r = clear_report(&targets, &[a, b]);
        (r.out, r.err, r.failed)
    };
    let failed = |e: &str| ClearOutcome::Failed(e.into());
    assert_eq!(
        report(ClearOutcome::Cleared, ClearOutcome::Nothing),
        ("  Cleared: workspace memory\nMemory cleared.\n".into(), "".into(), false)
    );
    assert_eq!(
        report(ClearOutcome::Cleared, failed("denied")),
        (
            "  Cleared: workspace memory\nMemory partially cleared. Errors:\n".into(),
            "  global MEMORY.md: denied\n".into(),
            false
        )
    );
    assert_eq!(
        report(failed("busy"), ClearOutcome::Nothing),
        ("".into(), "Failed to clear memory:\n  workspace memory: busy\n".into(), true)
    );
    assert_eq!(
        report(ClearOutcome::Nothing, ClearOutcome::Nothing),
        ("".into(), "".into(), false)
    );
}

#[test]
fn the_editor_is_resolved_in_order() {
    assert_eq!(resolve_editor(Some(" emacs "), Some("ed"), false), "emacs");
    assert_eq!(resolve_editor(Some("  "), Some("ed"), false), "ed");
    assert_eq!(resolve_editor(None, None, false), "vi");
    assert_eq!(resolve_editor(None, Some(""), true), "notepad");
    let command = editor_command(" code  --wait\t-n ").unwrap();
    assert_eq!(command.program, "code");
    assert_eq!(command.args, vec!["--wait", "-n"]);
    assert!(editor_command(" \n").is_none());
    assert_eq!(editor_failure("vi", Some(2)), "editor 'vi' exited with status 2");
    assert_eq!(editor_failure("vi", Some(-7)), "editor 'vi' exited with status -7");
    assert_eq!(editor_failure("vi", Some(i32::MIN)), "editor 'vi' exited with status -2147483648");
    assert_eq!(editor_failure("vi", None), "editor 'vi' exited with a signal");
}

/// The same size in floating point.
fn float_bytes(bytes: u64) -> String {
    let units = ["B", "KB", "MB", "GB"];
    let mut value = bytes as f64;
    let mut unit = 0;
    while value >= 1024.0 && unit < units.len() - 1 {
        value /= 1024.0;
        unit += 1;
    }
    if unit == 0 {
        format!("{bytes} {}", units[0])
    } else {
        format!("{value:.1} {}", units[unit])
    }
}

#[test]
fn sizes_agree_with_floating_point() {
    for bytes in 0..5000u64 {
        assert_eq!(human_bytes(bytes), float_bytes(bytes));
    }
    for shift in 0..64 {
        let base = 1u64 << shift;
        for factor in [1u64, 3, 5, 7, 25, 75, 1023, 1025, 4095] {
            for delta in [0u64, 1, 2, 51, 52, 102, 512] {
                let up = base.saturating_mul(factor).saturating_add(delta);
                let down = base.saturating_mul(factor).saturating_sub(delta);
                assert_eq!(human_bytes(up), float_bytes(up), "{up}");
                assert_eq!(human_bytes(down), float_bytes(down), "{down}");
            }
        }
    }
    // Quarters of a unit stand halfway between two tenths.
    for quarter in 0..4000u64 {
        let bytes = 1024 + quarter * 256;
        assert_eq!(human_bytes(bytes), float_bytes(bytes), "{bytes}");
    }
    assert_eq!(human_bytes(u64::MAX), float_bytes(u64::MAX));
    assert_eq!(human_bytes(1024 * 1024 - 1), "1024.0 KB");
    assert_eq!(human_bytes(1280), "1.2 KB");
    assert_eq!(human_bytes(1792), "1.8 KB");
}

#[test]
fn statistics_are_reported() {
    let file = |source: &str, bytes| MemoryFile { source: source.into(), bytes };
    let mut stats = MemoryStats {
        global_memory_file: "/g/MEMORY.md".into(),
        workspace_dir: "/w".into(),
        ephemeral: false,
        files: vec![
            file("session", 1000),
            file("global", 24),
            file("session", 512),
            file("elsewhere", 0),
        ],
        index_path: "/w/index.sqlite".into(),
        index: Some(IndexStats { chunks: 42, bytes: 2048 }),
    };
    assert_eq!(
        stats_report(&stats),
        "Global memory:    /g/MEMORY.md\n\
         Workspace memory: /w\n\
         \n\
         Files: 4 total\n\
         \x20 global     1\n\
         \x20 workspace  0\n\
         \x20 session    2\n\
         \x20 size       1.5 KB\n\
         \n\
         Index: /w/index.sqlite\n\
         \x20 chunks     42\n\
         \x20 size       2.0 KB\n"
    );
    stats.ephemeral = true;
    stats.files.clear();
    stats.index = None;
    assert_eq!(
        stats_report(&stats),
        "Global memory:    /g/MEMORY.md\n\
         Workspace memory: /w\n\
         \x20                 (ephemeral — this workspace's memory is not persisted)\n\
         \n\
         Files: 0 total\n\
         \x20 global     0\n\
         \x20 workspace  0\n\
         \x20 session    0\n\
         \x20 size       0 B\n\
         \n\
         Index: none yet at /w/index.sqlite\n\
         \x20 built on the first session run with --experimental-memory\n"
    );
}
