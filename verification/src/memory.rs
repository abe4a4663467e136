//! The `memory` command: its arguments, what `clear` deletes and reports,
//! which editor `edit` opens, and what `stats` prints.

use vstd::prelude::*;
use vstd::string::*;

use crate::decimal::{decimal, decimal_string, signed_decimal, signed_string};
use crate::text::{
    begins_with, chars_of, lemma_trim_start, lower, lowered, same, split_words, starts_with, string_of, trim, trimmed,
    trimmed_string, words,
};

verus! {

// ---- Arguments ----

/// The arguments of the `memory` command.
#[derive(Debug, Clone)]
pub struct MemoryArgs {
    pub command: MemoryCommand,
}

#[derive(Debug, Clone, Copy, PartialEq, Eq, Structural)]
pub enum MemoryCommand {
    /// Clear memory files (workspace by default).
    Clear {
        /// Clear workspace-scoped memory (MEMORY.md, sessions/, index.sqlite).
        workspace: bool,
        /// Clear global MEMORY.md.
        global: bool,
        /// Clear both workspace and global memory.
        all: bool,
        /// Skip confirmation prompt.
        yes: bool,
    },
    /// Open a memory file in $VISUAL / $EDITOR (workspace by default).
    Edit {
        /// Edit the global MEMORY.md instead of this workspace's.
        global: bool,
    },
    /// Show memory statistics: file counts, indexed chunks, and index size.
    Stats,
}

/// The name of a subcommand.
#[derive(Debug, Clone, Copy, PartialEq, Eq, Structural)]
pub enum Subcommand {
    Clear,
    Edit,
    Stats,
}

/// A flag of a subcommand.
#[derive(Debug, Clone, Copy, PartialEq, Eq, Structural)]
pub enum Flag {
    Workspace,
    Global,
    All,
    Yes,
}

/// What is wrong with an argument.
#[derive(Debug, Clone, Copy, PartialEq, Eq, Structural)]
pub enum Fault {
    /// It asks for help.
    Help,
    /// The subcommand has no such argument.
    Unexpected,
    /// It was given before.
    Repeated,
}

/// Why arguments are refused.
#[derive(Debug, Clone, Copy, PartialEq, Eq, Structural)]
pub enum ArgsError {
    /// No subcommand is given.
    MissingCommand,
    /// The first argument asks for help.
    HelpRequested,
    /// The first argument names no subcommand.
    UnknownCommand,
    /// The argument at this place, counted from the subcommand, is at fault.
    At { place: usize, fault: Fault },
    /// No argument is at fault, but they choose more than one scope.
    Conflict,
}

/// The subcommand that an argument names.
pub open spec fn subcommand_named(arg: Seq<char>) -> Option<Subcommand> {
    if arg == "clear"@ {
        Some(Subcommand::Clear)
    } else if arg == "edit"@ {
        Some(Subcommand::Edit)
    } else if arg == "stats"@ {
        Some(Subcommand::Stats)
    } else {
        None
    }
}

/// The flag that an argument spells.
pub open spec fn flag_named(arg: Seq<char>) -> Option<Flag> {
    if arg == "--workspace"@ {
        Some(Flag::Workspace)
    } else if arg == "--global"@ {
        Some(Flag::Global)
    } else if arg == "--all"@ {
        Some(Flag::All)
    } else if arg == "--yes"@ || arg == "-y"@ {
        Some(Flag::Yes)
    } else {
        None
    }
}

/// A request for help in place of a subcommand: a flag, whatever follows it, or
/// `help` with nothing or the name of a subcommand after it. `help` is itself
/// such a name.
pub open spec fn asks_for_help(args: Seq<String>) -> bool {
    ||| args[0]@ == "--help"@
    ||| starts_with(args[0]@, "-h"@)
    ||| args[0]@ == "help"@ && (args.len() == 1 || (args.len() == 2 && names_topic(args[1]@)))
}

/// A name that help can be asked for.
pub open spec fn names_topic(arg: Seq<char>) -> bool {
    subcommand_named(arg) is Some || arg == "help"@
}

/// The flags that a subcommand takes.
pub open spec fn takes(subcommand: Subcommand, flag: Flag) -> bool {
    match subcommand {
        Subcommand::Clear => true,
        Subcommand::Edit => flag == Flag::Global,
        Subcommand::Stats => false,
    }
}

/// One of the first `n` arguments spells `flag`.
pub open spec fn given(args: Seq<String>, n: int, flag: Flag) -> bool {
    exists|j: int| 0 <= j < n && flag_named((#[trigger] args[j])@) == Some(flag)
}

/// One of the first `n` arguments ends the flags.
pub open spec fn ended(args: Seq<String>, n: int) -> bool {
    exists|j: int| 0 <= j < n && (#[trigger] args[j])@ == "--"@
}

/// What is wrong with an argument that is no flag: it asks for help, or is
/// unknown. Letters behind one dash are read one by one, so a `y` before
/// another letter counts as `-y`.
pub open spec fn fault_of(subcommand: Subcommand, yes_given: bool, arg: Seq<char>) -> Fault {
    if arg == "--help"@ {
        Fault::Help
    } else if arg.len() < 2 || arg[0] != '-' {
        Fault::Unexpected
    } else if arg[1] == 'h' {
        Fault::Help
    } else if arg[1] != 'y' || !takes(subcommand, Flag::Yes) {
        Fault::Unexpected
    } else if yes_given {
        Fault::Repeated
    } else if arg.len() > 2 && arg[2] == 'h' {
        Fault::Help
    } else if arg.len() > 2 && arg[2] == 'y' {
        Fault::Repeated
    } else {
        Fault::Unexpected
    }
}

/// What is wrong with the argument at place `i`, given those before it.
pub open spec fn fault_at(subcommand: Subcommand, args: Seq<String>, i: int) -> Option<Fault> {
    if ended(args, i) {
        Some(Fault::Unexpected)
    } else if args[i]@ == "--"@ {
        None
    } else {
        match flag_named(args[i]@) {
            None => Some(fault_of(subcommand, given(args, i, Flag::Yes), args[i]@)),
            Some(flag) => if !takes(subcommand, flag) {
                Some(Fault::Unexpected)
            } else if given(args, i, flag) {
                Some(Fault::Repeated)
            } else {
                None
            },
        }
    }
}

/// The arguments choose more than one scope.
pub open spec fn conflicting(args: Seq<String>) -> bool {
    let n = args.len() as int;
    ||| given(args, n, Flag::Workspace) && given(args, n, Flag::Global)
    ||| given(args, n, Flag::Workspace) && given(args, n, Flag::All)
    ||| given(args, n, Flag::Global) && given(args, n, Flag::All)
}

/// No argument is at fault.
pub open spec fn faultless(subcommand: Subcommand, args: Seq<String>) -> bool {
    forall|i: int| 0 <= i < args.len() ==> fault_at(subcommand, args, i) is None
}

/// The command that accepted arguments stand for.
pub open spec fn command_of(subcommand: Subcommand, args: Seq<String>) -> MemoryCommand {
    let n = args.len() as int;
    match subcommand {
        Subcommand::Clear => MemoryCommand::Clear {
            workspace: given(args, n, Flag::Workspace),
            global: given(args, n, Flag::Global),
            all: given(args, n, Flag::All),
            yes: given(args, n, Flag::Yes),
        },
        Subcommand::Edit => MemoryCommand::Edit { global: given(args, n, Flag::Global) },
        Subcommand::Stats => MemoryCommand::Stats,
    }
}

fn named_subcommand(arg: &str) -> (r: Option<Subcommand>)
    ensures
        r == subcommand_named(arg@),
{
    if same(arg, "clear") {
        Some(Subcommand::Clear)
    } else if same(arg, "edit") {
        Some(Subcommand::Edit)
    } else if same(arg, "stats") {
        Some(Subcommand::Stats)
    } else {
        None
    }
}

fn named_flag(arg: &str) -> (r: Option<Flag>)
    ensures
        r == flag_named(arg@),
{
    if same(arg, "--workspace") {
        Some(Flag::Workspace)
    } else if same(arg, "--global") {
        Some(Flag::Global)
    } else if same(arg, "--all") {
        Some(Flag::All)
    } else if same(arg, "--yes") || same(arg, "-y") {
        Some(Flag::Yes)
    } else {
        None
    }
}

fn accepts(subcommand: Subcommand, flag: Flag) -> (r: bool)
    ensures
        r == takes(subcommand, flag),
{
    match subcommand {
        Subcommand::Clear => true,
        Subcommand::Edit => flag == Flag::Global,
        Subcommand::Stats => false,
    }
}

proof fn lemma_given_next(args: Seq<String>, i: int, flag: Flag)
    requires
        0 <= i < args.len(),
    ensures
        given(args, i + 1, flag) == (given(args, i, flag) || flag_named(args[i]@) == Some(flag)),
{
    if given(args, i + 1, flag) && !given(args, i, flag) {
        let j = choose|j: int| 0 <= j < i + 1 && flag_named((#[trigger] args[j])@) == Some(flag);
        assert(j == i);
    }
    if given(args, i, flag) {
        let j = choose|j: int| 0 <= j < i && flag_named((#[trigger] args[j])@) == Some(flag);
        assert(flag_named(args[j]@) == Some(flag));
    }
}

proof fn lemma_ended_next(args: Seq<String>, i: int)
    requires
        0 <= i < args.len(),
    ensures
        ended(args, i + 1) == (ended(args, i) || args[i]@ == "--"@),
{
    if ended(args, i + 1) && !ended(args, i) {
        let j = choose|j: int| 0 <= j < i + 1 && (#[trigger] args[j])@ == "--"@;
        assert(j == i);
    }
    if ended(args, i) {
        let j = choose|j: int| 0 <= j < i && (#[trigger] args[j])@ == "--"@;
        assert(args[j]@ == "--"@);
    }
}

fn named_fault(subcommand: Subcommand, yes_given: bool, arg: &str) -> (r: Fault)
    ensures
        r == fault_of(subcommand, yes_given, arg@),
{
    let chars = chars_of(arg);
    if same(arg, "--help") {
        Fault::Help
    } else if chars.len() < 2 || chars[0] != '-' {
        Fault::Unexpected
    } else if chars[1] == 'h' {
        Fault::Help
    } else if chars[1] != 'y' || !accepts(subcommand, Flag::Yes) {
        Fault::Unexpected
    } else if yes_given {
        Fault::Repeated
    } else if chars.len() > 2 && chars[2] == 'h' {
        Fault::Help
    } else if chars.len() > 2 && chars[2] == 'y' {
        Fault::Repeated
    } else {
        Fault::Unexpected
    }
}

/// Read the arguments of a subcommand. The first argument at fault, if any,
/// decides the error; a conflict of scopes is seen only when there is none.
fn read_flags(subcommand: Subcommand, args: &[String]) -> (r: Result<MemoryCommand, ArgsError>)
    ensures
        match r {
            Ok(command) => {
                &&& faultless(subcommand, args@)
                &&& !conflicting(args@)
                &&& command == command_of(subcommand, args@)
            },
            Err(ArgsError::Conflict) => faultless(subcommand, args@) && conflicting(args@),
            Err(ArgsError::At { place, fault }) => {
                &&& place < args@.len()
                &&& fault_at(subcommand, args@, place as int) == Some(fault)
                &&& forall|j: int| 0 <= j < place ==> fault_at(subcommand, args@, j) is None
            },
            Err(_) => false,
        },
{
    let mut workspace = false;
    let mut global = false;
    let mut all = false;
    let mut yes = false;
    let mut done = false;
    let mut i: usize = 0;
    while i < args.len()
        invariant
            i <= args@.len(),
            workspace == given(args@, i as int, Flag::Workspace),
            global == given(args@, i as int, Flag::Global),
            all == given(args@, i as int, Flag::All),
            yes == given(args@, i as int, Flag::Yes),
            done == ended(args@, i as int),
            forall|j: int| 0 <= j < i ==> fault_at(subcommand, args@, j) is None,
        decreases args@.len() - i,
    {
        let arg = args[i].as_str();
        let flag = named_flag(arg);
        let end = same(arg, "--");
        let fault = if done {
            Some(Fault::Unexpected)
        } else if end {
            None
        } else {
            match flag {
                None => Some(named_fault(subcommand, yes, arg)),
                Some(f) => {
                    let before = match f {
                        Flag::Workspace => workspace,
                        Flag::Global => global,
                        Flag::All => all,
                        Flag::Yes => yes,
                    };
                    if !accepts(subcommand, f) {
                        Some(Fault::Unexpected)
                    } else if before {
                        Some(Fault::Repeated)
                    } else {
                        None
                    }
                },
            }
        };
        assert(fault == fault_at(subcommand, args@, i as int));
        if let Some(fault) = fault {
            return Err(ArgsError::At { place: i, fault });
        }
        proof {
            lemma_given_next(args@, i as int, Flag::Workspace);
            lemma_given_next(args@, i as int, Flag::Global);
            lemma_given_next(args@, i as int, Flag::All);
            lemma_given_next(args@, i as int, Flag::Yes);
            lemma_ended_next(args@, i as int);
        }
        done = done || end;
        match flag {
            Some(Flag::Workspace) => {
                workspace = true;
            },
            Some(Flag::Global) => {
                global = true;
            },
            Some(Flag::All) => {
                all = true;
            },
            Some(Flag::Yes) => {
                yes = true;
            },
            None => {},
        }
        i += 1;
    }
    if (workspace && global) || (workspace && all) || (global && all) {
        return Err(ArgsError::Conflict);
    }
    Ok(
        match subcommand {
            Subcommand::Clear => MemoryCommand::Clear { workspace, global, all, yes },
            Subcommand::Edit => MemoryCommand::Edit { global },
            Subcommand::Stats => MemoryCommand::Stats,
        },
    )
}

/// The arguments after the first.
pub open spec fn rest(args: Seq<String>) -> Seq<String> {
    args.skip(1)
}

fn help_asked_for(args: &[String]) -> (r: bool)
    requires
        args@.len() > 0,
    ensures
        r == asks_for_help(args@),
{
    let first = args[0].as_str();
    if same(first, "--help") || begins_with(&chars_of(first), &chars_of("-h")) {
        return true;
    }
    if !same(first, "help") || args.len() > 2 {
        return false;
    }
    args.len() == 1 || same(args[1].as_str(), "help") || named_subcommand(
        args[1].as_str(),
    ).is_some()
}

impl MemoryArgs {
    /// Read the arguments that follow `memory`:
    ///
    /// ```text
    /// clear [--workspace | --global | --all] [-y | --yes]
    /// edit [--global]
    /// stats
    /// help [clear | edit | stats | help]
    /// ```
    pub fn parse(args: &[String]) -> (r: Result<MemoryArgs, ArgsError>)
        ensures
            match r {
                Ok(parsed) => {
                    &&& args@.len() > 0
                    &&& subcommand_named(args@[0]@) matches Some(subcommand)
                    &&& faultless(subcommand, rest(args@))
                    &&& !conflicting(rest(args@))
                    &&& parsed.command == command_of(subcommand, rest(args@))
                },
                Err(ArgsError::MissingCommand) => args@.len() == 0,
                Err(ArgsError::HelpRequested) => {
                    &&& args@.len() > 0
                    &&& subcommand_named(args@[0]@) is None
                    &&& asks_for_help(args@)
                },
                Err(ArgsError::UnknownCommand) => {
                    &&& args@.len() > 0
                    &&& subcommand_named(args@[0]@) is None
                    &&& !asks_for_help(args@)
                },
                Err(ArgsError::Conflict) => {
                    &&& args@.len() > 0
                    &&& subcommand_named(args@[0]@) matches Some(subcommand)
                    &&& faultless(subcommand, rest(args@))
                    &&& conflicting(rest(args@))
                },
                Err(ArgsError::At { place, fault }) => {
                    &&& args@.len() > 0
                    &&& subcommand_named(args@[0]@) matches Some(subcommand)
                    &&& place < rest(args@).len()
                    &&& fault_at(subcommand, rest(args@), place as int) == Some(fault)
                    &&& forall|j: int|
                        0 <= j < place ==> fault_at(subcommand, rest(args@), j) is None
                },
            },
    {
        if args.len() == 0 {
            return Err(ArgsError::MissingCommand);
        }
        let first = args[0].as_str();
        match named_subcommand(first) {
            None => if help_asked_for(args) {
                Err(ArgsError::HelpRequested)
            } else {
                Err(ArgsError::UnknownCommand)
            },
            Some(subcommand) => {
                let flags = vstd::slice::slice_subrange(args, 1, args.len());
                assert(flags@ =~= rest(args@));
                match read_flags(subcommand, flags) {
                    Ok(command) => Ok(MemoryArgs { command }),
                    Err(e) => Err(e),
                }
            },
        }
    }
}

// ---- Clearing ----

/// Where memory is kept.
#[derive(Debug, Clone)]
pub struct MemoryPaths {
    pub workspace_dir: String,
    pub workspace_memory_file: String,
    pub global_memory_file: String,
}

/// What a target clears.
#[derive(Debug, Clone, Copy, PartialEq, Eq, Structural)]
pub enum Scope {
    Workspace,
    Global,
}

/// Something that `clear` deletes.
#[derive(Debug)]
pub struct ClearTarget {
    pub scope: Scope,
    pub label: &'static str,
    pub path: String,
}

/// The name of what a scope clears.
pub open spec fn scope_label(scope: Scope) -> Seq<char> {
    match scope {
        Scope::Workspace => "workspace memory"@,
        Scope::Global => "global MEMORY.md"@,
    }
}

/// The path that a scope clears.
pub open spec fn scope_path(scope: Scope, paths: MemoryPaths) -> Seq<char> {
    match scope {
        Scope::Workspace => paths.workspace_dir@,
        Scope::Global => paths.global_memory_file@,
    }
}

impl ClearTarget {
    /// This is the target of `scope`.
    pub open spec fn is_of(self, scope: Scope, paths: MemoryPaths) -> bool {
        &&& self.scope == scope
        &&& self.label@ == scope_label(scope)
        &&& self.path@ == scope_path(scope, paths)
    }
}

pub fn workspace_target(paths: &MemoryPaths) -> (r: ClearTarget)
    ensures
        r.is_of(Scope::Workspace, *paths),
{
    ClearTarget {
        scope: Scope::Workspace,
        label: "workspace memory",
        path: paths.workspace_dir.as_str().to_owned(),
    }
}

pub fn global_target(paths: &MemoryPaths) -> (r: ClearTarget)
    ensures
        r.is_of(Scope::Global, *paths),
{
    ClearTarget {
        scope: Scope::Global,
        label: "global MEMORY.md",
        path: paths.global_memory_file.as_str().to_owned(),
    }
}

/// The scopes that `clear` deletes: both with `--all`, else the global one
/// with `--global`, else the workspace.
pub open spec fn cleared_scopes(global: bool, all: bool) -> Seq<Scope> {
    if all {
        seq![Scope::Workspace, Scope::Global]
    } else if global {
        seq![Scope::Global]
    } else {
        seq![Scope::Workspace]
    }
}

/// The targets of a `clear` command.
pub fn clear_targets(global: bool, all: bool, paths: &MemoryPaths) -> (r: Vec<ClearTarget>)
    ensures
        r@.len() == cleared_scopes(global, all).len(),
        forall|i: int|
            0 <= i < r@.len() ==> (#[trigger] r@[i]).is_of(cleared_scopes(global, all)[i], *paths),
{
    let mut out: Vec<ClearTarget> = Vec::new();
    if all || !global {
        out.push(workspace_target(paths));
    }
    if all || global {
        out.push(global_target(paths));
    }
    out
}

/// The lines that name the targets among the first `n` that are there.
pub open spec fn deletion_lines(targets: Seq<ClearTarget>, there: Seq<bool>, n: int) -> Seq<char>
    decreases n,
{
    if n <= 0 {
        Seq::empty()
    } else {
        let before = deletion_lines(targets, there, n - 1);
        if there[n - 1] {
            before + "  "@ + targets[n - 1].label@ + ": "@ + targets[n - 1].path@ + "\n"@
        } else {
            before
        }
    }
}

/// What `clear` is about to delete, given which targets are there, or `None`
/// where there is nothing to clear.
pub fn deletion_notice(targets: &[ClearTarget], there: &[bool]) -> (r: Option<String>)
    requires
        targets@.len() == there@.len(),
    ensures
        r is Some == there@.contains(true),
        r matches Some(text) ==> text@ == "The following will be deleted:\n"@ + deletion_lines(
            targets@,
            there@,
            targets@.len() as int,
        ),
{
    let mut out = "The following will be deleted:\n".to_owned();
    let ghost head = out@;
    let mut any = false;
    let mut i: usize = 0;
    assert(head + deletion_lines(targets@, there@, 0) =~= head);
    while i < targets.len()
        invariant
            i <= targets@.len(),
            targets@.len() == there@.len(),
            any == exists|j: int| 0 <= j < i && #[trigger] there@[j],
            out@ == head + deletion_lines(targets@, there@, i as int),
        decreases targets@.len() - i,
    {
        if there[i] {
            any = true;
            out.append("  ");
            out.append(targets[i].label);
            out.append(": ");
            out.append(targets[i].path.as_str());
            out.append("\n");
        }
        i += 1;
        assert(out@ =~= head + deletion_lines(targets@, there@, i as int));
    }
    if any {
        let ghost j = choose|j: int| 0 <= j < there@.len() && #[trigger] there@[j];
        assert(there@.contains(there@[j]));
        Some(out)
    } else {
        None
    }
}

/// Whether a reply confirms: `y` or `yes`, in any case, with any white space
/// around it.
pub fn is_confirmed(reply: &str) -> (r: bool)
    ensures
        r == (lower(trim(reply@)) == "y"@ || lower(trim(reply@)) == "yes"@),
{
    let answer = string_of(&lowered(&trimmed(&chars_of(reply))));
    same(answer.as_str(), "y") || same(answer.as_str(), "yes")
}

/// What became of one target.
#[derive(Debug)]
pub enum ClearOutcome {
    Cleared,
    /// There was nothing to clear for this scope.
    Nothing,
    Failed(String),
}

/// What `clear` says when it is done.
#[derive(Debug)]
pub struct ClearReport {
    /// For standard output.
    pub out: String,
    /// For standard error.
    pub err: String,
    /// The command failed.
    pub failed: bool,
}

pub open spec fn any_cleared(outcomes: Seq<ClearOutcome>) -> bool {
    exists|i: int| 0 <= i < outcomes.len() && #[trigger] outcomes[i] is Cleared
}

pub open spec fn any_failed(outcomes: Seq<ClearOutcome>) -> bool {
    exists|i: int| 0 <= i < outcomes.len() && #[trigger] outcomes[i] is Failed
}

/// A line for each target that was cleared.
pub open spec fn cleared_lines(
    targets: Seq<ClearTarget>,
    outcomes: Seq<ClearOutcome>,
    n: int,
) -> Seq<char>
    decreases n,
{
    if n <= 0 {
        Seq::empty()
    } else {
        let before = cleared_lines(targets, outcomes, n - 1);
        if outcomes[n - 1] is Cleared {
            before + "  Cleared: "@ + targets[n - 1].label@ + "\n"@
        } else {
            before
        }
    }
}

/// A line for each target that could not be cleared.
pub open spec fn error_lines(
    targets: Seq<ClearTarget>,
    outcomes: Seq<ClearOutcome>,
    n: int,
) -> Seq<char>
    decreases n,
{
    if n <= 0 {
        Seq::empty()
    } else {
        let before = error_lines(targets, outcomes, n - 1);
        match outcomes[n - 1] {
            ClearOutcome::Failed(error) => before + "  "@ + targets[n - 1].label@ + ": "@ + error@
                + "\n"@,
            _ => before,
        }
    }
}

/// Report on a `clear` command: it failed exactly where nothing was cleared
/// and something went wrong.
pub fn clear_report(targets: &[ClearTarget], outcomes: &[ClearOutcome]) -> (r: ClearReport)
    requires
        targets@.len() == outcomes@.len(),
    ensures
        r.failed == (!any_cleared(outcomes@) && any_failed(outcomes@)),
        r.out@ == cleared_lines(targets@, outcomes@, targets@.len() as int) + (if any_cleared(
            outcomes@,
        ) && !any_failed(outcomes@) {
            "Memory cleared.\n"@
        } else if any_cleared(outcomes@) {
            "Memory partially cleared. Errors:\n"@
        } else {
            Seq::empty()
        }),
        r.err@ == (if r.failed {
            "Failed to clear memory:\n"@
        } else {
            Seq::empty()
        }) + error_lines(targets@, outcomes@, targets@.len() as int),
{
    let mut out = String::new();
    let mut errors = String::new();
    let mut cleared = false;
    let mut failed = false;
    let mut i: usize = 0;
    while i < targets.len()
        invariant
            i <= targets@.len(),
            targets@.len() == outcomes@.len(),
            cleared == exists|j: int| 0 <= j < i && #[trigger] outcomes@[j] is Cleared,
            failed == exists|j: int| 0 <= j < i && #[trigger] outcomes@[j] is Failed,
            out@ == cleared_lines(targets@, outcomes@, i as int),
            errors@ == error_lines(targets@, outcomes@, i as int),
        decreases targets@.len() - i,
    {
        match &outcomes[i] {
            ClearOutcome::Cleared => {
                cleared = true;
                out.append("  Cleared: ");
                out.append(targets[i].label);
                out.append("\n");
            },
            ClearOutcome::Nothing => {},
            ClearOutcome::Failed(error) => {
                failed = true;
                errors.append("  ");
                errors.append(targets[i].label);
                errors.append(": ");
                errors.append(error.as_str());
                errors.append("\n");
            },
        }
        i += 1;
    }
    let mut err = String::new();
    if cleared && !failed {
        out.append("Memory cleared.\n");
    } else if cleared {
        out.append("Memory partially cleared. Errors:\n");
    } else if failed {
        err.append("Failed to clear memory:\n");
    }
    err.append(errors.as_str());
    let ghost lines_out = cleared_lines(targets@, outcomes@, targets@.len() as int);
    assert(lines_out + Seq::<char>::empty() =~= lines_out);
    assert(err@ =~= (if !cleared && failed {
        "Failed to clear memory:\n"@
    } else {
        Seq::empty()
    }) + errors@);
    ClearReport { out, err, failed: !cleared && failed }
}

// ---- Editing ----

/// The editor that two variables and the platform choose.
pub open spec fn chosen_editor(
    visual: Option<Seq<char>>,
    editor: Option<Seq<char>>,
    windows: bool,
) -> Seq<char> {
    if visual matches Some(v) && trim(v).len() > 0 {
        trim(visual->0)
    } else if editor matches Some(e) && trim(e).len() > 0 {
        trim(editor->0)
    } else if windows {
        "notepad"@
    } else {
        "vi"@
    }
}

/// The view of an optional string.
pub open spec fn maybe(s: Option<&str>) -> Option<Seq<char>> {
    match s {
        Some(text) => Some(text@),
        None => None,
    }
}

/// The editor to spawn, in the order a user expects it to be honoured.
///
/// `$VISUAL` before `$EDITOR` is the long-standing convention: `VISUAL` names
/// a full-screen editor and `EDITOR` may legitimately be a line editor.
pub fn resolve_editor(visual: Option<&str>, editor: Option<&str>, windows: bool) -> (r: String)
    ensures
        r@ == chosen_editor(maybe(visual), maybe(editor), windows),
{
    if let Some(value) = visual {
        let value = trimmed_string(value);
        if value.as_str().unicode_len() > 0 {
            return value;
        }
    }
    if let Some(value) = editor {
        let value = trimmed_string(value);
        if value.as_str().unicode_len() > 0 {
            return value;
        }
    }
    if windows {
        "notepad".to_owned()
    } else {
        "vi".to_owned()
    }
}

/// An editor command, split into its program and arguments.
#[derive(Debug)]
pub struct EditorCommand {
    pub program: String,
    pub args: Vec<String>,
}

/// Split an editor command on white space, so that `EDITOR="code --wait"`
/// works. `None` where the command is blank.
pub fn editor_command(editor: &str) -> (r: Option<EditorCommand>)
    ensures
        r is Some == (words(editor@).len() > 0),
        r matches Some(command) ==> {
            &&& command.program@ == words(editor@)[0]
            &&& command.args@.len() == words(editor@).len() - 1
            &&& forall|i: int|
                0 <= i < command.args@.len() ==> (#[trigger] command.args@[i])@ == words(
                    editor@,
                )[i + 1]
        },
{
    let parts = split_words(&chars_of(editor));
    if parts.len() == 0 {
        return None;
    }
    let ghost all = words(editor@);
    let mut args: Vec<String> = Vec::new();
    let mut i: usize = 1;
    while i < parts.len()
        invariant
            1 <= i <= parts@.len(),
            parts@.len() == all.len(),
            args@.len() == i - 1,
            forall|j: int| 0 <= j < parts@.len() ==> (#[trigger] parts@[j])@ == all[j],
            forall|j: int| 0 <= j < args@.len() ==> (#[trigger] args@[j])@ == all[j + 1],
        decreases parts@.len() - i,
    {
        args.push(string_of(&parts[i]));
        i += 1;
    }
    Some(EditorCommand { program: string_of(&parts[0]), args })
}

/// The file that `edit` opens, and its name.
pub fn edit_target(global: bool, paths: &MemoryPaths) -> (r: (String, &'static str))
    ensures
        global ==> r.0@ == paths.global_memory_file@ && r.1@ == "global MEMORY.md"@,
        !global ==> r.0@ == paths.workspace_memory_file@ && r.1@ == "workspace MEMORY.md"@,
{
    if global {
        (paths.global_memory_file.as_str().to_owned(), "global MEMORY.md")
    } else {
        (paths.workspace_memory_file.as_str().to_owned(), "workspace MEMORY.md")
    }
}

/// The error for an editor that did not succeed: its exit code, or a signal.
pub fn editor_failure(program: &str, code: Option<i32>) -> (r: String)
    ensures
        r@ == "editor '"@ + program@ + "' exited with "@ + match code {
            Some(c) => "status "@ + signed_decimal(c as int),
            None => "a signal"@,
        },
{
    let mut out = "editor '".to_owned();
    out.append(program);
    out.append("' exited with ");
    let ghost head = out@;
    match code {
        Some(c) => {
            out.append("status ");
            out.append(signed_string(c).as_str());
            assert(out@ =~= head + ("status "@ + signed_decimal(c as int)));
        },
        None => {
            out.append("a signal");
        },
    }
    out
}

// ---- Sizes ----

/// `n / d`, rounded to the nearest integer, and to the even one of two.
pub open spec fn half_even(n: nat, d: nat) -> nat {
    let q = n / d;
    let r = n % d;
    if 2 * r < d || (2 * r == d && q % 2 == 0) {
        q
    } else {
        q + 1
    }
}

/// The spacing of the doubles from `n` up to the next power of two: the
/// smallest power of two of which `n` has fewer than 2^53.
pub open spec fn spacing(n: nat) -> nat
    decreases n,
{
    if n < 9007199254740992 {
        1
    } else {
        2 * spacing(n / 2)
    }
}

/// The double nearest to `n`, which is an integer.
pub open spec fn as_double(n: nat) -> nat {
    half_even(n, spacing(n)) * spacing(n)
}

/// The unit that a size is shown in, and its name.
pub open spec fn unit_of(value: nat) -> (nat, Seq<char>) {
    if value < 1048576 {
        (1024, " KB"@)
    } else if value < 1073741824 {
        (1048576, " MB"@)
    } else {
        (1073741824, " GB"@)
    }
}

/// The size in tenths of its unit, rounded.
pub open spec fn size_in_tenths(value: nat) -> nat {
    half_even(10 * value, unit_of(value).0)
}

/// A size in bytes, in the largest unit of which it holds one.
pub open spec fn human(bytes: nat) -> Seq<char> {
    let value = as_double(bytes);
    if bytes < 1024 {
        decimal(bytes) + " B"@
    } else {
        decimal(size_in_tenths(value) / 10) + "."@ + decimal(size_in_tenths(value) % 10) + unit_of(
            value,
        ).1
    }
}

fn round_half_even(n: u128, d: u128) -> (r: u128)
    requires
        0 < d < 0x1_0000_0000_0000_0000,
        n < 0x1_0000_0000_0000_0000_0000,
    ensures
        r == half_even(n as nat, d as nat),
        r <= n + 1,
{
    let q: u128 = n / d;
    let rest: u128 = n % d;
    assert(q <= n) by (nonlinear_arith)
        requires
            q == n / d,
            d > 0,
    ;
    if 2 * rest < d || (2 * rest == d && q % 2 == 0) {
        q
    } else {
        q + 1
    }
}

fn spacing_of(n: u64) -> (r: u64)
    ensures
        r == spacing(n as nat),
        1 <= r < 4096,
        r > 1 ==> r * 4503599627370496 <= n,
        n < r * 9007199254740992,
{
    let mut rest: u64 = n;
    let mut out: u64 = 1;
    while rest >= 9007199254740992
        invariant
            spacing(n as nat) == out * spacing(rest as nat),
            out * rest <= n < out * (rest + 1),
            1 <= out < 4096,
            out > 1 ==> rest >= 4503599627370496,
        decreases rest,
    {
        let ghost before = rest;
        let ghost o = out;
        assert(o < 2048) by (nonlinear_arith)
            requires
                o * before <= n,
                before >= 9007199254740992,
                n <= u64::MAX,
                o >= 1,
        ;
        proof {
            let half = (before / 2) as nat;
            assert(spacing(before as nat) == 2 * spacing(half));
            assert(o * (2 * spacing(half)) == (2 * o) * spacing(half)) by (nonlinear_arith);
            assert((2 * o) * (before / 2) <= n < (2 * o) * (before / 2 + 1)) by (nonlinear_arith)
                requires
                    o * before <= n < o * (before + 1),
                    o >= 1,
            ;
        }
        rest = rest / 2;
        out = out * 2;
    }
    assert(out > 1 ==> out * 4503599627370496 <= n) by (nonlinear_arith)
        requires
            out * rest <= n,
            out > 1 ==> rest >= 4503599627370496,
            out >= 1,
    ;
    assert(n < out * 9007199254740992) by (nonlinear_arith)
        requires
            n < out * (rest + 1),
            rest < 9007199254740992,
            out >= 1,
    ;
    assert(out * spacing(rest as nat) == out) by (nonlinear_arith)
        requires
            spacing(rest as nat) == 1,
    ;
    out
}

fn nearest_double(n: u64) -> (r: u128)
    ensures
        r == as_double(n as nat),
        r <= 0x2_0000_0000_0000_0000,
        n < 1024 <==> r < 1024,
{
    let unit: u128 = spacing_of(n) as u128;
    let q: u128 = round_half_even(n as u128, unit);
    proof {
        let m = n as nat;
        let d = unit as nat;
        lemma_half_even(m, d);
        assert(q <= 9007199254740992) by {
            assert(m / d < 9007199254740992) by (nonlinear_arith)
                requires
                    m < d * 9007199254740992,
                    d > 0,
            ;
        }
        assert(q * unit <= 9007199254740992 * unit) by (nonlinear_arith)
            requires
                q <= 9007199254740992,
        ;
        if unit == 1 {
            assert(q == n) by {
                assert(m % 1 == 0);
                assert(m / 1 == m);
            }
        } else {
            assert(q >= 4503599627370496) by {
                assert(m / d >= 4503599627370496) by (nonlinear_arith)
                    requires
                        m >= d * 4503599627370496,
                        d > 0,
                ;
            }
            assert(q * unit >= 4503599627370496) by (nonlinear_arith)
                requires
                    q >= 4503599627370496,
                    unit >= 1,
            ;
        }
    }
    q * unit
}

/// Render a byte count the way `ls -h` would, so that a 10 MB index is obvious
/// at a glance rather than being an eleven-digit number. Sizes above the
/// largest unit stay in it.
pub fn human_bytes(bytes: u64) -> (r: String)
    ensures
        r@ == human(bytes as nat),
{
    let value: u128 = nearest_double(bytes);
    if bytes < 1024 {
        let mut out = decimal_string(bytes);
        out.append(" B");
        return out;
    }
    let unit: u128 = if value < 1048576 {
        1024
    } else if value < 1073741824 {
        1048576
    } else {
        1073741824
    };
    let name: &'static str = if value < 1048576 {
        " KB"
    } else if value < 1073741824 {
        " MB"
    } else {
        " GB"
    };
    let tenths: u128 = round_half_even(10 * value, unit);
    proof {
        lemma_half_even(10 * value as nat, unit as nat);
        assert((10 * value) / unit as int <= 10 * value) by (nonlinear_arith)
            requires
                unit >= 1,
                value >= 0,
        ;
        assert((10 * value) / unit as int <= 360287970189639680) by (nonlinear_arith)
            requires
                value <= 0x2_0000_0000_0000_0000,
                unit >= 1024,
        ;
    }
    let mut out = decimal_string((tenths / 10) as u64);
    out.append(".");
    out.append(decimal_string((tenths % 10) as u64).as_str());
    out.append(name);
    out
}

proof fn lemma_half_even(n: nat, d: nat)
    requires
        d > 0,
    ensures
        n / d <= half_even(n, d) <= n / d + 1,
        -(d as int) <= 2 * (half_even(n, d) * d - n) <= d,
{
    let q = n / d;
    let r = n % d;
    assert(n == q * d + r && r < d) by (nonlinear_arith)
        requires
            q == n / d,
            r == n % d,
            d > 0,
    ;
    assert((q + 1) * d == q * d + d) by (nonlinear_arith);
}

// ---- Statistics ----

/// A memory file: the source it belongs to, and its size.
#[derive(Debug)]
pub struct MemoryFile {
    pub source: String,
    pub bytes: u64,
}

/// The search index: its chunks, and its size.
#[derive(Debug)]
pub struct IndexStats {
    pub chunks: u64,
    pub bytes: u64,
}

/// What memory is on disk.
#[derive(Debug)]
pub struct MemoryStats {
    pub global_memory_file: String,
    pub workspace_dir: String,
    /// The workspace is a temporary directory that will not survive.
    pub ephemeral: bool,
    pub files: Vec<MemoryFile>,
    pub index_path: String,
    /// The index, where it has been built.
    pub index: Option<IndexStats>,
}

/// How many files belong to a source.
pub open spec fn files_of(files: Seq<MemoryFile>, source: Seq<char>) -> nat
    decreases files.len(),
{
    if files.len() == 0 {
        0
    } else {
        files_of(files.drop_last(), source) + if files.last().source@ == source {
            1nat
        } else {
            0
        }
    }
}

/// The size of all files together.
pub open spec fn size_of_all(files: Seq<MemoryFile>) -> nat
    decreases files.len(),
{
    if files.len() == 0 {
        0
    } else {
        size_of_all(files.drop_last()) + files.last().bytes as nat
    }
}

/// Where memory is kept.
pub open spec fn places_text(stats: MemoryStats) -> Seq<char> {
    "Global memory:    "@ + stats.global_memory_file@ + "\nWorkspace memory: "@
        + stats.workspace_dir@ + "\n"@ + (if stats.ephemeral {
        "                  (ephemeral — this workspace's memory is not persisted)\n"@
    } else {
        ""@
    }) + "\n"@
}

/// How many files there are, of each source, and how large they are.
pub open spec fn files_text(files: Seq<MemoryFile>) -> Seq<char> {
    "Files: "@ + decimal(files.len()) + " total\n  global     "@ + decimal(
        files_of(files, "global"@),
    ) + "\n  workspace  "@ + decimal(files_of(files, "workspace"@)) + "\n  session    "@ + decimal(
        files_of(files, "session"@),
    ) + "\n  size       "@ + human(size_of_all(files)) + "\n\n"@
}

/// The state of the index. Its absence is normal before first use.
pub open spec fn index_text(path: Seq<char>, index: Option<IndexStats>) -> Seq<char> {
    match index {
        Some(stats) => "Index: "@ + path + "\n  chunks     "@ + decimal(stats.chunks as nat)
            + "\n  size       "@ + human(stats.bytes as nat) + "\n"@,
        None => "Index: none yet at "@ + path
            + "\n  built on the first session run with --experimental-memory\n"@,
    }
}

fn count_of(files: &Vec<MemoryFile>, source: &str) -> (r: usize)
    ensures
        r == files_of(files@, source@),
{
    let mut count: usize = 0;
    let mut i: usize = 0;
    assert(files@.take(0) =~= Seq::empty());
    while i < files.len()
        invariant
            i <= files@.len(),
            count <= i,
            count == files_of(files@.take(i as int), source@),
        decreases files@.len() - i,
    {
        proof {
            let t = files@.take(i + 1);
            assert(t.drop_last() =~= files@.take(i as int));
            assert(t.last() == files@[i as int]);
        }
        if same(files[i].source.as_str(), source) {
            count += 1;
        }
        i += 1;
    }
    assert(files@.take(i as int) =~= files@);
    count
}

proof fn lemma_size_of_prefix(files: Seq<MemoryFile>, n: int)
    requires
        0 <= n <= files.len(),
    ensures
        size_of_all(files.take(n)) <= size_of_all(files),
    decreases files.len(),
{
    if n < files.len() {
        lemma_size_of_prefix(files.drop_last(), n);
        assert(files.drop_last().take(n) =~= files.take(n));
    } else {
        assert(files.take(n) =~= files);
    }
}

fn total_bytes(files: &Vec<MemoryFile>) -> (r: u64)
    requires
        size_of_all(files@) <= u64::MAX,
    ensures
        r == size_of_all(files@),
{
    let mut total: u64 = 0;
    let mut i: usize = 0;
    assert(files@.take(0) =~= Seq::empty());
    while i < files.len()
        invariant
            i <= files@.len(),
            size_of_all(files@) <= u64::MAX,
            total == size_of_all(files@.take(i as int)),
        decreases files@.len() - i,
    {
        proof {
            let t = files@.take(i + 1);
            assert(t.drop_last() =~= files@.take(i as int));
            assert(t.last() == files@[i as int]);
            lemma_size_of_prefix(files@, i + 1);
        }
        total += files[i].bytes;
        i += 1;
    }
    assert(files@.take(i as int) =~= files@);
    total
}

/// Report what memory is on disk: file counts by source, indexed chunks, and
/// the size of the index.
#[verifier::rlimit(40)]
pub fn stats_report(stats: &MemoryStats) -> (r: String)
    requires
        size_of_all(stats.files@) <= u64::MAX,
    ensures
        r@ == places_text(*stats) + files_text(stats.files@) + index_text(
            stats.index_path@,
            stats.index,
        ),
{
    let mut out = "Global memory:    ".to_owned();
    out.append(stats.global_memory_file.as_str());
    out.append("\nWorkspace memory: ");
    out.append(stats.workspace_dir.as_str());
    out.append("\n");
    if stats.ephemeral {
        out.append("                  (ephemeral — this workspace's memory is not persisted)\n");
    } else {
        out.append("");
    }
    out.append("\n");
    assert(out@ =~= places_text(*stats));
    out.append("Files: ");
    out.append(decimal_string(stats.files.len() as u64).as_str());
    out.append(" total\n  global     ");
    out.append(decimal_string(count_of(&stats.files, "global") as u64).as_str());
    out.append("\n  workspace  ");
    out.append(decimal_string(count_of(&stats.files, "workspace") as u64).as_str());
    out.append("\n  session    ");
    out.append(decimal_string(count_of(&stats.files, "session") as u64).as_str());
    out.append("\n  size       ");
    out.append(human_bytes(total_bytes(&stats.files)).as_str());
    out.append("\n\n");
    assert(out@ =~= places_text(*stats) + files_text(stats.files@));
    let ghost head = out@;
    match &stats.index {
        Some(index) => {
            out.append("Index: ");
            out.append(stats.index_path.as_str());
            out.append("\n  chunks     ");
            out.append(decimal_string(index.chunks).as_str());
            out.append("\n  size       ");
            out.append(human_bytes(index.bytes).as_str());
            out.append("\n");
        },
        None => {
            out.append("Index: none yet at ");
            out.append(stats.index_path.as_str());
            out.append("\n  built on the first session run with --experimental-memory\n");
        },
    }
    assert(out@ =~= head + index_text(stats.index_path@, stats.index));
    out
}

// ---- Laws ----

/// The scopes of a `clear` command exclude each other: arguments that are
/// accepted choose at most one.
pub proof fn accepted_arguments_choose_one_scope(args: Seq<String>, a: Flag, b: Flag)
    requires
        !conflicting(args),
        a != b,
        a != Flag::Yes,
        b != Flag::Yes,
    ensures
        !(given(args, args.len() as int, a) && given(args, args.len() as int, b)),
{
}

/// A request for help is granted whatever scopes stand before it: arguments of
/// which the first at fault asks for help are not refused for a conflict.
pub proof fn help_comes_before_a_conflict(args: Seq<String>, i: int)
    requires
        0 <= i < args.len(),
        args[i]@ == "--help"@ || args[i]@ == "-h"@,
        !ended(args, i),
    ensures
        fault_at(Subcommand::Clear, args, i) == Some(Fault::Help),
        !faultless(Subcommand::Clear, args),
{
    lemma_help_is_no_flag(args[i]@);
    assert(fault_at(Subcommand::Clear, args, i) is Some);
}

proof fn lemma_help_is_no_flag(arg: Seq<char>)
    requires
        arg == "--help"@ || arg == "-h"@,
    ensures
        arg != "--"@,
        flag_named(arg) is None,
        arg != "--help"@ ==> arg.len() == 2 && arg[0] == '-' && arg[1] == 'h',
{
    reveal_strlit("--workspace");
    reveal_strlit("--global");
    reveal_strlit("--all");
    reveal_strlit("--yes");
    reveal_strlit("-y");
    reveal_strlit("--");
    reveal_strlit("-h");
    reveal_strlit("--help");
    if arg.len() == 2 {
        assert(arg[1] == 'h');
    } else {
        assert(arg[2] == 'h');
    }
}

/// An accepted `stats` has no arguments but a mark that ends the flags.
pub proof fn stats_takes_no_flag(args: Seq<String>, i: int)
    requires
        faultless(Subcommand::Stats, args),
        0 <= i < args.len(),
    ensures
        args[i]@ == "--"@,
        i == 0,
        args.len() == 1,
{
    assert(fault_at(Subcommand::Stats, args, i) is None);
    assert(fault_at(Subcommand::Stats, args, 0) is None);
    if args.len() > 1 {
        assert(fault_at(Subcommand::Stats, args, 1) is None);
        assert(ended(args, 1)) by {
            assert(args[0]@ == "--"@);
        }
    }
}

/// The editor that is chosen names a program: its command is never blank.
pub proof fn an_editor_is_always_named(
    visual: Option<Seq<char>>,
    editor: Option<Seq<char>>,
    windows: bool,
)
    ensures
        words(chosen_editor(visual, editor, windows)).len() > 0,
{
    if visual matches Some(v) && trim(v).len() > 0 {
        lemma_trimmed_has_words(visual->0);
    } else if editor matches Some(e) && trim(e).len() > 0 {
        lemma_trimmed_has_words(editor->0);
    } else {
        reveal_strlit("vi");
        reveal_strlit("notepad");
        let name = chosen_editor(visual, editor, windows);
        assert(!crate::text::white_space(name[0]));
        assert(crate::text::trim_start(name) == name);
    }
}

proof fn lemma_trim_end_keeps_start(s: Seq<char>)
    requires
        s.len() > 0,
        !crate::text::white_space(s[0]),
    ensures
        crate::text::trim_end(s).len() > 0,
        crate::text::trim_end(s)[0] == s[0],
    decreases s.len(),
{
    if crate::text::white_space(s.last()) {
        lemma_trim_end_keeps_start(s.drop_last());
    }
}

proof fn lemma_trimmed_has_words(s: Seq<char>)
    requires
        trim(s).len() > 0,
    ensures
        words(trim(s)).len() > 0,
{
    let t = crate::text::trim_start(s);
    lemma_trim_start(s);
    if t.len() > 0 {
        lemma_trim_end_keeps_start(t);
        assert(crate::text::trim_start(trim(s)) == trim(s));
    }
}

/// A size below 2^53 bytes is shown to the nearest tenth of a unit that it
/// holds at least once, and the unit is the largest of these.
pub proof fn a_size_is_shown_to_the_nearest_tenth(bytes: nat)
    requires
        1024 <= bytes < 9007199254740992,
    ensures
        ({
            let unit = unit_of(bytes).0;
            &&& as_double(bytes) == bytes
            &&& unit <= bytes
            &&& bytes < 1024 * unit || unit == 1073741824
            &&& -(unit as int) <= 2 * (size_in_tenths(bytes) * unit - 10 * bytes) <= unit
        }),
{
    assert(spacing(bytes) == 1);
    assert(bytes % 1 == 0);
    assert(bytes / 1 == bytes);
    assert(half_even(bytes, 1) == bytes);
    assert(half_even(bytes, spacing(bytes)) * spacing(bytes) == bytes) by (nonlinear_arith)
        requires
            half_even(bytes, spacing(bytes)) == bytes,
            spacing(bytes) == 1,
    ;
    lemma_half_even(10 * bytes, unit_of(bytes).0);
}

/// No file is counted under two sources.
pub proof fn sources_are_counted_apart(files: Seq<MemoryFile>)
    ensures
        files_of(files, "global"@) + files_of(files, "workspace"@) + files_of(files, "session"@)
            <= files.len(),
    decreases files.len(),
{
    reveal_strlit("global");
    reveal_strlit("workspace");
    reveal_strlit("session");
    if files.len() > 0 {
        sources_are_counted_apart(files.drop_last());
        assert("global"@.len() == 6);
        assert("workspace"@.len() == 9);
        assert("session"@.len() == 7);
    }
}

/// The subcommands, the flags and the requests for help are spelled in these
/// ways and no others.
pub proof fn arguments_are_spelled_in_these_ways(arg: Seq<char>, args: Seq<String>)
    requires
        args.len() > 0,
    ensures
        subcommand_named(arg) == Some(Subcommand::Clear) <==> arg == "clear"@,
        subcommand_named(arg) == Some(Subcommand::Edit) <==> arg == "edit"@,
        subcommand_named(arg) == Some(Subcommand::Stats) <==> arg == "stats"@,
        flag_named(arg) == Some(Flag::Workspace) <==> arg == "--workspace"@,
        flag_named(arg) == Some(Flag::Global) <==> arg == "--global"@,
        flag_named(arg) == Some(Flag::All) <==> arg == "--all"@,
        flag_named(arg) == Some(Flag::Yes) <==> (arg == "--yes"@ || arg == "-y"@),
        asks_for_help(args) <==> {
            let first = args[0]@;
            ||| first == "--help"@
            ||| first.len() >= 2 && first[0] == '-' && first[1] == 'h'
            ||| first == "help"@ && args.len() == 1
            ||| first == "help"@ && args.len() == 2 && (args[1]@ == "clear"@ || args[1]@ == "edit"@
                || args[1]@ == "stats"@ || args[1]@ == "help"@)
        },
{
    lemma_spellings();
    reveal_strlit("-h");
    crate::text::affixes_come_off(args[0]@, "-h"@);
    let first = args[0]@;
    if first.len() >= 2 && first[0] == '-' && first[1] == 'h' {
        assert forall|i: int| 0 <= i < "-h"@.len() implies first[i] == #[trigger] "-h"@[i] by {}
    }
    if starts_with(first, "-h"@) {
        assert(first[0] == "-h"@[0] && first[1] == "-h"@[1]);
    }
}

proof fn lemma_spellings()
    ensures
        "clear"@.len() == 5 && "clear"@[0] == 'c',
        "edit"@.len() == 4,
        "stats"@.len() == 5 && "stats"@[0] == 's',
        "--workspace"@.len() == 11,
        "--global"@.len() == 8,
        "--all"@.len() == 5 && "--all"@[2] == 'a',
        "--yes"@.len() == 5 && "--yes"@[2] == 'y',
        "-y"@.len() == 2 && "-y"@[1] == 'y',
        "--"@.len() == 2 && "--"@[1] == '-',
{
    reveal_strlit("clear");
    reveal_strlit("edit");
    reveal_strlit("stats");
    reveal_strlit("--workspace");
    reveal_strlit("--global");
    reveal_strlit("--all");
    reveal_strlit("--yes");
    reveal_strlit("-y");
    reveal_strlit("--");
}

/// An argument that is accepted is a flag of the subcommand, given once, or the
/// mark that ends the flags, given last. `clear` takes every flag, `edit` takes
/// `--global` and `stats` takes none.
pub proof fn an_accepted_argument_is_a_flag(subcommand: Subcommand, args: Seq<String>, i: int, j: int)
    requires
        faultless(subcommand, args),
        0 <= i < args.len(),
        0 <= j < args.len(),
    ensures
        args[i]@ == "--"@ ==> i == args.len() - 1,
        args[i]@ != "--"@ ==> match subcommand {
            Subcommand::Clear => {
                ||| args[i]@ == "--workspace"@
                ||| args[i]@ == "--global"@
                ||| args[i]@ == "--all"@
                ||| args[i]@ == "--yes"@
                ||| args[i]@ == "-y"@
            },
            Subcommand::Edit => args[i]@ == "--global"@,
            Subcommand::Stats => false,
        },
        i != j ==> args[i]@ != args[j]@,
{
    assert(fault_at(subcommand, args, i) is None);
    assert(fault_at(subcommand, args, j) is None);
    if args[i]@ == "--"@ && i < args.len() - 1 {
        assert(fault_at(subcommand, args, i + 1) is None);
        assert(ended(args, i + 1));
    }
    if i != j && args[i]@ == args[j]@ {
        let a = if i < j {
            i
        } else {
            j
        };
        let b = if i < j {
            j
        } else {
            i
        };
        assert(fault_at(subcommand, args, a) is None);
        assert(fault_at(subcommand, args, b) is None);
        if args[a]@ == "--"@ {
            assert(ended(args, b));
        } else {
            let flag = flag_named(args[a]@)->0;
            assert(flag_named(args[a]@) == Some(flag));
            assert(given(args, b, flag));
        }
    }
}

/// Flags that a subcommand takes, each given once, are accepted in any order,
/// with or without a mark that ends them.
pub proof fn flags_given_once_are_accepted(subcommand: Subcommand, args: Seq<String>)
    requires
        forall|i: int|
            #![trigger args[i]]
            0 <= i < args.len() ==> {
                ||| args[i]@ == "--"@ && i == args.len() - 1
                ||| flag_named(args[i]@) matches Some(flag) && takes(subcommand, flag) && forall|
                    j: int,
                |
                    0 <= j < args.len() && j != i ==> flag_named((#[trigger] args[j])@) != Some(
                        flag,
                    )
            },
    ensures
        faultless(subcommand, args),
{
    assert forall|i: int| 0 <= i < args.len() implies fault_at(subcommand, args, i) is None by {
        let _ = args[i];
        if ended(args, i) {
            let j = choose|j: int| 0 <= j < i && (#[trigger] args[j])@ == "--"@;
            lemma_spellings();
            assert(flag_named(args[j]@) is None);
        }
        if args[i]@ != "--"@ {
            let flag = flag_named(args[i]@)->0;
            if given(args, i, flag) {
                let j = choose|j: int|
                    0 <= j < i && flag_named((#[trigger] args[j])@) == Some(flag);
                assert(flag_named(args[j]@) == Some(flag));
            }
        }
    }
}

/// One of the arguments is spelled like this.
pub open spec fn spelled(args: Seq<String>, arg: Seq<char>) -> bool {
    exists|j: int| 0 <= j < args.len() && (#[trigger] args[j])@ == arg
}

proof fn lemma_given_is_spelled(args: Seq<String>, flag: Flag, arg: Seq<char>, other: Seq<char>)
    requires
        forall|s: Seq<char>| #[trigger] flag_named(s) == Some(flag) <==> (s == arg || s == other),
    ensures
        given(args, args.len() as int, flag) == (spelled(args, arg) || spelled(args, other)),
{
    let n = args.len() as int;
    if given(args, n, flag) {
        let j = choose|j: int| 0 <= j < n && flag_named((#[trigger] args[j])@) == Some(flag);
        assert(args[j]@ == arg || args[j]@ == other);
    }
    if spelled(args, arg) {
        let j = choose|j: int| 0 <= j < args.len() && (#[trigger] args[j])@ == arg;
        assert(flag_named(args[j]@) == Some(flag));
    }
    if spelled(args, other) {
        let j = choose|j: int| 0 <= j < args.len() && (#[trigger] args[j])@ == other;
        assert(flag_named(args[j]@) == Some(flag));
    }
}

/// A command holds what was given and nothing else, and the arguments conflict
/// exactly where two of the three scopes were given.
pub proof fn a_command_holds_what_was_given(args: Seq<String>)
    ensures
        command_of(Subcommand::Clear, args) == (MemoryCommand::Clear {
            workspace: spelled(args, "--workspace"@),
            global: spelled(args, "--global"@),
            all: spelled(args, "--all"@),
            yes: spelled(args, "--yes"@) || spelled(args, "-y"@),
        }),
        command_of(Subcommand::Edit, args) == (MemoryCommand::Edit {
            global: spelled(args, "--global"@),
        }),
        command_of(Subcommand::Stats, args) == MemoryCommand::Stats,
        conflicting(args) <==> {
            ||| spelled(args, "--workspace"@) && spelled(args, "--global"@)
            ||| spelled(args, "--workspace"@) && spelled(args, "--all"@)
            ||| spelled(args, "--global"@) && spelled(args, "--all"@)
        },
{
    lemma_spellings();
    lemma_given_is_spelled(args, Flag::Workspace, "--workspace"@, "--workspace"@);
    lemma_given_is_spelled(args, Flag::Global, "--global"@, "--global"@);
    lemma_given_is_spelled(args, Flag::All, "--all"@, "--all"@);
    lemma_given_is_spelled(args, Flag::Yes, "--yes"@, "-y"@);
}

/// What is wrong with an argument: whatever follows the mark that ends the flags
/// is unexpected; `--help` and what begins with `-h` ask for help; a flag that
/// was given before is repeated, and one that the subcommand does not take is
/// unexpected, as is a word without a dash or with an unknown letter behind it.
pub proof fn a_fault_is_named(subcommand: Subcommand, args: Seq<String>, i: int)
    requires
        0 <= i < args.len(),
    ensures
        (exists|j: int| 0 <= j < i && (#[trigger] args[j])@ == "--"@) ==> fault_at(
            subcommand,
            args,
            i,
        ) == Some(Fault::Unexpected),
        (forall|j: int| 0 <= j < i ==> (#[trigger] args[j])@ != "--"@) ==> {
            &&& args[i]@ == "--help"@ ==> fault_at(subcommand, args, i) == Some(Fault::Help)
            &&& args[i]@.len() >= 2 && args[i]@[0] == '-' && args[i]@[1] == 'h' ==> fault_at(
                subcommand,
                args,
                i,
            ) == Some(Fault::Help)
            &&& args[i]@.len() < 2 || args[i]@[0] != '-' ==> fault_at(subcommand, args, i) == Some(
                Fault::Unexpected,
            )
            &&& args[i]@.len() >= 2 && args[i]@[0] == '-' && args[i]@[1] != 'h' && args[i]@[1]
                != 'y' && args[i]@ != "--help"@ && args[i]@ != "--"@ && flag_named(args[i]@) is None
                ==> fault_at(subcommand, args, i) == Some(Fault::Unexpected)
            &&& flag_named(args[i]@) matches Some(flag) ==> (fault_at(subcommand, args, i) == if !takes(
                subcommand,
                flag,
            ) {
                Some(Fault::Unexpected)
            } else if exists|j: int| 0 <= j < i && flag_named((#[trigger] args[j])@) == Some(flag) {
                Some(Fault::Repeated)
            } else {
                None
            })
        },
        takes(Subcommand::Clear, Flag::Workspace) && takes(Subcommand::Clear, Flag::Global)
            && takes(Subcommand::Clear, Flag::All) && takes(Subcommand::Clear, Flag::Yes),
        takes(Subcommand::Edit, Flag::Global) && !takes(Subcommand::Edit, Flag::Workspace)
            && !takes(Subcommand::Edit, Flag::All) && !takes(Subcommand::Edit, Flag::Yes),
        !takes(Subcommand::Stats, Flag::Workspace) && !takes(Subcommand::Stats, Flag::Global)
            && !takes(Subcommand::Stats, Flag::All) && !takes(Subcommand::Stats, Flag::Yes),
{
    lemma_spellings();
    reveal_strlit("--workspace");
    reveal_strlit("--global");
    reveal_strlit("--all");
    reveal_strlit("--yes");
    reveal_strlit("-y");
    reveal_strlit("--");
    reveal_strlit("--help");
    if args[i]@ == "--help"@ {
        lemma_help_is_no_flag(args[i]@);
    }
}

/// With letters behind one dash, each letter counts: a `y` is read as the flag
/// that it spells, so that a second one repeats it, and an `h` behind it asks
/// for help. Any other letter is unexpected.
pub proof fn letters_are_read_one_by_one(yes_given: bool, letters: Seq<char>)
    requires
        letters.len() >= 2,
        letters[0] == 'y',
    ensures
        ({
            let fault = fault_of(Subcommand::Clear, yes_given, seq!['-'] + letters);
            &&& yes_given ==> fault == Fault::Repeated
            &&& !yes_given && letters[1] == 'y' ==> fault == Fault::Repeated
            &&& !yes_given && letters[1] == 'h' ==> fault == Fault::Help
            &&& !yes_given && letters[1] != 'y' && letters[1] != 'h' ==> fault == Fault::Unexpected
            &&& fault_of(Subcommand::Edit, yes_given, seq!['-'] + letters) == Fault::Unexpected
            &&& fault_of(Subcommand::Stats, yes_given, seq!['-'] + letters) == Fault::Unexpected
        }),
{
    reveal_strlit("--help");
    let arg = seq!['-'] + letters;
    assert(arg[1] == 'y');
    assert("--help"@[1] == '-');
}

/// `clear` deletes both scopes with `--all`, and else the one that was chosen,
/// the workspace where none was: the workspace is its whole directory, and the
/// global memory its one file.
pub proof fn a_scope_has_its_path(target: ClearTarget, paths: MemoryPaths, global: bool)
    ensures
        target.is_of(Scope::Workspace, paths) ==> target.path@ == paths.workspace_dir@
            && target.label@ == "workspace memory"@,
        target.is_of(Scope::Global, paths) ==> target.path@ == paths.global_memory_file@
            && target.label@ == "global MEMORY.md"@,
        cleared_scopes(global, true) == seq![Scope::Workspace, Scope::Global],
        cleared_scopes(true, false) == seq![Scope::Global],
        cleared_scopes(false, false) == seq![Scope::Workspace],
{
}

/// The notice has a line for each target that is there, in order, and none for
/// the others.
pub proof fn a_target_that_is_there_is_announced(
    targets: Seq<ClearTarget>,
    there: Seq<bool>,
    n: int,
)
    requires
        0 <= n < targets.len(),
        targets.len() == there.len(),
    ensures
        deletion_lines(targets, there, 0).len() == 0,
        deletion_lines(targets, there, n + 1) == deletion_lines(targets, there, n) + if there[n] {
            "  "@ + targets[n].label@ + ": "@ + targets[n].path@ + "\n"@
        } else {
            Seq::empty()
        },
{
    let before = deletion_lines(targets, there, n);
    let line = "  "@ + targets[n].label@ + ": "@ + targets[n].path@ + "\n"@;
    assert(before + "  "@ + targets[n].label@ + ": "@ + targets[n].path@ + "\n"@ =~= before + line);
    assert(before + Seq::<char>::empty() =~= before);
}

/// The report has a line for each target that was cleared and one for each that
/// failed, in order, and none for those without anything to clear.
pub proof fn an_outcome_is_reported(
    targets: Seq<ClearTarget>,
    outcomes: Seq<ClearOutcome>,
    n: int,
)
    requires
        0 <= n < targets.len(),
        targets.len() == outcomes.len(),
    ensures
        cleared_lines(targets, outcomes, 0).len() == 0,
        error_lines(targets, outcomes, 0).len() == 0,
        cleared_lines(targets, outcomes, n + 1) == cleared_lines(targets, outcomes, n)
            + match outcomes[n] {
            ClearOutcome::Cleared => "  Cleared: "@ + targets[n].label@ + "\n"@,
            _ => Seq::empty(),
        },
        error_lines(targets, outcomes, n + 1) == error_lines(targets, outcomes, n)
            + match outcomes[n] {
            ClearOutcome::Failed(error) => "  "@ + targets[n].label@ + ": "@ + error@ + "\n"@,
            _ => Seq::empty(),
        },
        outcomes[n] is Cleared ==> any_cleared(outcomes),
        outcomes[n] is Failed ==> any_failed(outcomes),
{
    let a = cleared_lines(targets, outcomes, n);
    let b = error_lines(targets, outcomes, n);
    assert(a + Seq::<char>::empty() =~= a);
    assert(b + Seq::<char>::empty() =~= b);
    assert(a + "  Cleared: "@ + targets[n].label@ + "\n"@ =~= a + ("  Cleared: "@
        + targets[n].label@ + "\n"@));
    if let ClearOutcome::Failed(error) = outcomes[n] {
        assert(b + "  "@ + targets[n].label@ + ": "@ + error@ + "\n"@ =~= b + ("  "@
            + targets[n].label@ + ": "@ + error@ + "\n"@));
    }
}

/// Something was cleared, or failed, only where some outcome says so.
pub proof fn success_and_failure_come_from_outcomes(outcomes: Seq<ClearOutcome>)
    ensures
        any_cleared(outcomes) ==> exists|i: int|
            0 <= i < outcomes.len() && #[trigger] outcomes[i] is Cleared,
        any_failed(outcomes) ==> exists|i: int|
            0 <= i < outcomes.len() && #[trigger] outcomes[i] is Failed,
{
}

/// The first variable that names an editor decides, without the white space
/// around the name: `VISUAL`, then `EDITOR`. Where neither does, the platform's
/// own editor is taken.
pub proof fn the_first_variable_that_names_an_editor_decides(
    visual: Option<Seq<char>>,
    editor: Option<Seq<char>>,
    windows: bool,
)
    ensures
        visual matches Some(v) ==> (trim(v).len() > 0 ==> chosen_editor(visual, editor, windows)
            == trim(v)),
        (visual is None || trim(visual->0).len() == 0) ==> {
            &&& editor matches Some(e) ==> (trim(e).len() > 0 ==> chosen_editor(
                visual,
                editor,
                windows,
            ) == trim(e))
            &&& (editor is None || trim(editor->0).len() == 0) ==> chosen_editor(
                visual,
                editor,
                windows,
            ) == if windows {
                "notepad"@
            } else {
                "vi"@
            }
        },
{
}

/// Rounding gives the nearest integer, and the even one of two that are equally
/// near.
pub proof fn rounding_gives_the_nearest(n: nat, d: nat)
    requires
        d > 0,
    ensures
        -(d as int) <= 2 * (half_even(n, d) * d - n) <= d,
        2 * (half_even(n, d) * d - n) == d || 2 * (half_even(n, d) * d - n) == -(d as int)
            ==> half_even(n, d) % 2 == 0,
{
    let q = n / d;
    let r = n % d;
    lemma_half_even(n, d);
    assert(n == q * d + r && r < d) by (nonlinear_arith)
        requires
            q == n / d,
            r == n % d,
            d > 0,
    ;
    assert((q + 1) * d == q * d + d) by (nonlinear_arith);
}

/// A count below 2^53 is a double as it is. Above, the doubles lie apart by a
/// power of two of which the count holds between 2^52 and 2^53, and the nearest
/// one is taken.
pub proof fn a_count_becomes_the_nearest_double(n: nat)
    ensures
        n < 9007199254740992 ==> as_double(n) == n,
        n >= 9007199254740992 ==> {
            &&& spacing(n) % 2 == 0
            &&& 4503599627370496 * spacing(n) <= n < 9007199254740992 * spacing(n)
        },
        as_double(n) == half_even(n, spacing(n)) * spacing(n),
        -(spacing(n) as int) <= 2 * (as_double(n) - n) <= spacing(n),
{
    lemma_spacing(n);
    rounding_gives_the_nearest(n, spacing(n));
}

proof fn lemma_spacing(n: nat)
    ensures
        spacing(n) >= 1,
        n < 9007199254740992 ==> spacing(n) == 1,
        n >= 9007199254740992 ==> spacing(n) % 2 == 0 && 4503599627370496 * spacing(n) <= n,
        n < 9007199254740992 * spacing(n),
    decreases n,
{
    if n >= 9007199254740992 {
        lemma_spacing(n / 2);
    }
}

/// A size is shown in bytes below 1024, and else in tenths of the unit: of 1024
/// bytes below 1024 of these, of 1024 times as many below the next, and of 1024
/// times as many from there on. The tenths are the nearest ones.
pub proof fn a_size_is_shown_in_its_unit(bytes: nat)
    ensures
        bytes < 1024 ==> human(bytes) == decimal(bytes) + " B"@,
        1024 <= bytes ==> ({
            let value = as_double(bytes);
            let (unit, name) = if value < 1024 * 1024 {
                (1024nat, " KB"@)
            } else if value < 1024 * 1024 * 1024 {
                ((1024 * 1024) as nat, " MB"@)
            } else {
                ((1024 * 1024 * 1024) as nat, " GB"@)
            };
            let tenths = half_even(10 * value, unit);
            &&& human(bytes) == decimal(tenths / 10) + "."@ + decimal(tenths % 10) + name
            &&& -(unit as int) <= 2 * (tenths * unit - 10 * value) <= unit
        }),
{
    let value = as_double(bytes);
    rounding_gives_the_nearest(10 * value, 1024);
    rounding_gives_the_nearest(10 * value, 1048576);
    rounding_gives_the_nearest(10 * value, 1073741824);
}

/// Files are counted by their source and measured together: one more file adds
/// one to its own source, nothing to another, and its size to the whole.
pub proof fn one_more_file_counts_once(
    files: Seq<MemoryFile>,
    file: MemoryFile,
    source: Seq<char>,
)
    ensures
        files_of(Seq::empty(), source) == 0,
        size_of_all(Seq::empty()) == 0,
        files_of(files.push(file), source) == files_of(files, source) + if file.source@ == source {
            1nat
        } else {
            0
        },
        size_of_all(files.push(file)) == size_of_all(files) + file.bytes,
{
    assert(files.push(file).drop_last() =~= files);
}

/// The report says where memory is kept, how many files there are of each source
/// and how large they are together, and what the index holds.
pub proof fn a_report_says_what_is_there(stats: MemoryStats)
    ensures
        places_text(stats) == "Global memory:    "@ + stats.global_memory_file@
            + "\nWorkspace memory: "@ + stats.workspace_dir@ + "\n"@ + (if stats.ephemeral {
            "                  (ephemeral — this workspace's memory is not persisted)\n"@
        } else {
            ""@
        }) + "\n"@,
        files_text(stats.files@) == "Files: "@ + decimal(stats.files@.len())
            + " total\n  global     "@ + decimal(files_of(stats.files@, "global"@))
            + "\n  workspace  "@ + decimal(files_of(stats.files@, "workspace"@))
            + "\n  session    "@ + decimal(files_of(stats.files@, "session"@))
            + "\n  size       "@ + human(size_of_all(stats.files@)) + "\n\n"@,
        stats.index matches Some(index) ==> index_text(stats.index_path@, stats.index)
            == "Index: "@ + stats.index_path@ + "\n  chunks     "@ + decimal(index.chunks as nat)
            + "\n  size       "@ + human(index.bytes as nat) + "\n"@,
        stats.index is None ==> index_text(stats.index_path@, stats.index)
            == "Index: none yet at "@ + stats.index_path@
            + "\n  built on the first session run with --experimental-memory\n"@,
{
}
/// A variable that is set is seen as it is.
pub proof fn a_variable_is_seen_as_it_is(s: Option<&str>)
    ensures
        s matches Some(text) ==> maybe(s) == Some(text@),
        s is None ==> maybe(s) is None,
{
}

// ---- What the functions give ----

/// Arguments are read as what they spell: a subcommand first, then its flags,
/// each once, and one scope at most.
pub proof fn arguments_are_read_as_they_are_spelled(
    args: &[String],
    r: Result<MemoryArgs, ArgsError>,
)
    requires
        call_ensures(MemoryArgs::parse, (args,), r),
    ensures
        args@.len() == 0 <==> r == Err::<MemoryArgs, ArgsError>(ArgsError::MissingCommand),
        r == Err::<MemoryArgs, ArgsError>(ArgsError::HelpRequested) <==> {
            &&& args@.len() > 0
            &&& args@[0]@ != "clear"@ && args@[0]@ != "edit"@ && args@[0]@ != "stats"@
            &&& asks_for_help(args@)
        },
        r == Err::<MemoryArgs, ArgsError>(ArgsError::UnknownCommand) <==> {
            &&& args@.len() > 0
            &&& args@[0]@ != "clear"@ && args@[0]@ != "edit"@ && args@[0]@ != "stats"@
            &&& !asks_for_help(args@)
        },
        r == Err::<MemoryArgs, ArgsError>(ArgsError::Conflict) ==> args@.len() > 0 && conflicting(
            args@.subrange(1, args@.len() as int),
        ),
        r matches Err(ArgsError::At { place, fault }) ==> ({
            let flags = args@.subrange(1, args@.len() as int);
            &&& args@.len() > 0 && place < flags.len()
            &&& subcommand_named(args@[0]@) matches Some(subcommand)
            &&& fault_at(subcommand, flags, place as int) == Some(fault)
            &&& forall|j: int| 0 <= j < place ==> fault_at(subcommand, flags, j) is None
        }),
        r matches Ok(parsed) ==> ({
            let flags = args@.subrange(1, args@.len() as int);
            &&& args@.len() > 0
            &&& args@[0]@ == "clear"@ ==> parsed.command == (MemoryCommand::Clear {
                workspace: spelled(flags, "--workspace"@),
                global: spelled(flags, "--global"@),
                all: spelled(flags, "--all"@),
                yes: spelled(flags, "--yes"@) || spelled(flags, "-y"@),
            })
            &&& args@[0]@ == "edit"@ ==> parsed.command == (MemoryCommand::Edit {
                global: spelled(flags, "--global"@),
            })
            &&& args@[0]@ == "stats"@ ==> parsed.command == MemoryCommand::Stats
            &&& args@[0]@ == "clear"@ || args@[0]@ == "edit"@ || args@[0]@ == "stats"@
            &&& !(spelled(flags, "--workspace"@) && spelled(flags, "--global"@))
            &&& !(spelled(flags, "--workspace"@) && spelled(flags, "--all"@))
            &&& !(spelled(flags, "--global"@) && spelled(flags, "--all"@))
        }),
{
    if args@.len() > 0 {
        let flags = args@.subrange(1, args@.len() as int);
        assert(rest(args@) =~= flags);
        a_command_holds_what_was_given(flags);
        lemma_spellings();
    }
}

/// Flags that a subcommand takes, each given once and with one scope at most,
/// are accepted.
pub proof fn good_arguments_are_accepted(
    args: &[String],
    subcommand: Subcommand,
    r: Result<MemoryArgs, ArgsError>,
)
    requires
        call_ensures(MemoryArgs::parse, (args,), r),
        args@.len() > 0,
        match subcommand {
            Subcommand::Clear => args@[0]@ == "clear"@,
            Subcommand::Edit => args@[0]@ == "edit"@,
            Subcommand::Stats => args@[0]@ == "stats"@,
        },
        ({
            let flags = args@.subrange(1, args@.len() as int);
            &&& forall|i: int|
                #![trigger flags[i]]
                0 <= i < flags.len() ==> {
                    &&& flag_named(flags[i]@) matches Some(flag)
                    &&& takes(subcommand, flag)
                    &&& forall|j: int|
                        0 <= j < flags.len() && j != i ==> flag_named((#[trigger] flags[j])@)
                            != Some(flag)
                }
            &&& !(spelled(flags, "--workspace"@) && spelled(flags, "--global"@))
            &&& !(spelled(flags, "--workspace"@) && spelled(flags, "--all"@))
            &&& !(spelled(flags, "--global"@) && spelled(flags, "--all"@))
        }),
    ensures
        r is Ok,
{
    let flags = args@.subrange(1, args@.len() as int);
    assert(rest(args@) =~= flags);
    lemma_spellings();
    flags_given_once_are_accepted(subcommand, flags);
    a_command_holds_what_was_given(flags);
    assert(subcommand_named(args@[0]@) == Some(subcommand));
    if let Err(ArgsError::At { place, fault }) = r {
        assert(fault_at(subcommand, flags, place as int) is None);
    }
}

/// `clear` deletes the scopes that were chosen, each with its own path.
pub proof fn the_chosen_scopes_are_cleared(
    global: bool,
    all: bool,
    paths: &MemoryPaths,
    r: Vec<ClearTarget>,
    workspace: ClearTarget,
    other: ClearTarget,
)
    requires
        call_ensures(clear_targets, (global, all, paths), r),
        call_ensures(workspace_target, (paths,), workspace),
        call_ensures(global_target, (paths,), other),
    ensures
        workspace.path@ == paths.workspace_dir@ && workspace.label@ == "workspace memory"@,
        other.path@ == paths.global_memory_file@ && other.label@ == "global MEMORY.md"@,
        all ==> r@.len() == 2 && r@[0].path@ == paths.workspace_dir@ && r@[1].path@
            == paths.global_memory_file@,
        !all && global ==> r@.len() == 1 && r@[0].path@ == paths.global_memory_file@,
        !all && !global ==> r@.len() == 1 && r@[0].path@ == paths.workspace_dir@,
        forall|i: int| 0 <= i < r@.len() ==> (#[trigger] r@[i]).scope is Global == (r@[i].label@
            == "global MEMORY.md"@),
{
    reveal_strlit("workspace memory");
    reveal_strlit("global MEMORY.md");
    assert("workspace memory"@[0] == 'w' && "global MEMORY.md"@[0] == 'g');
    let scopes = cleared_scopes(global, all);
    assert forall|i: int| 0 <= i < r@.len() implies (#[trigger] r@[i]).scope is Global == (r@[i].label@
        == "global MEMORY.md"@) by {
        assert(r@[i].is_of(scopes[i], *paths));
    }
    assert(r@[0].is_of(scopes[0], *paths));
    if all {
        assert(r@[1].is_of(scopes[1], *paths));
    }
}

/// Nothing is deleted without saying what, and only a `y` or a `yes` confirms.
pub proof fn deletions_are_announced_and_confirmed(
    targets: &[ClearTarget],
    there: &[bool],
    notice: Option<String>,
    reply: &str,
    confirmed: bool,
)
    requires
        call_ensures(deletion_notice, (targets, there), notice),
        targets@.len() == there@.len(),
        call_ensures(is_confirmed, (reply,), confirmed),
    ensures
        notice is Some <==> exists|i: int| 0 <= i < there@.len() && #[trigger] there@[i],
        notice matches Some(text) ==> text@ == "The following will be deleted:\n"@
            + deletion_lines(targets@, there@, targets@.len() as int),
        confirmed <==> (lower(trim(reply@)) == "y"@ || lower(trim(reply@)) == "yes"@),
{
    if there@.contains(true) {
        let i = choose|i: int| 0 <= i < there@.len() && there@[i] == true;
        assert(there@[i]);
    }
    if exists|i: int| 0 <= i < there@.len() && #[trigger] there@[i] {
        let i = choose|i: int| 0 <= i < there@.len() && #[trigger] there@[i];
        assert(there@.contains(there@[i]));
    }
}

/// Clearing failed where something went wrong and nothing was cleared; the
/// report says what was cleared and what was not.
pub proof fn clearing_is_reported(
    targets: &[ClearTarget],
    outcomes: &[ClearOutcome],
    r: ClearReport,
)
    requires
        call_ensures(clear_report, (targets, outcomes), r),
        targets@.len() == outcomes@.len(),
    ensures
        r.failed <==> {
            &&& forall|i: int| 0 <= i < outcomes@.len() ==> !(#[trigger] outcomes@[i] is Cleared)
            &&& exists|i: int| 0 <= i < outcomes@.len() && #[trigger] outcomes@[i] is Failed
        },
        r.out@ == cleared_lines(targets@, outcomes@, targets@.len() as int) + (if !any_cleared(
            outcomes@,
        ) {
            Seq::empty()
        } else if any_failed(outcomes@) {
            "Memory partially cleared. Errors:\n"@
        } else {
            "Memory cleared.\n"@
        }),
        r.err@ == (if r.failed {
            "Failed to clear memory:\n"@
        } else {
            Seq::empty()
        }) + error_lines(targets@, outcomes@, targets@.len() as int),
{
}

/// The editor is the first that is named, its command is split at white space,
/// and the file is that of the scope.
pub proof fn the_named_editor_opens_the_file(
    visual: Option<&str>,
    editor: Option<&str>,
    windows: bool,
    chosen: String,
    command: &str,
    split: Option<EditorCommand>,
    global: bool,
    paths: &MemoryPaths,
    file: (String, &'static str),
)
    requires
        call_ensures(resolve_editor, (visual, editor, windows), chosen),
        call_ensures(editor_command, (command,), split),
        call_ensures(edit_target, (global, paths), file),
    ensures
        visual matches Some(v) ==> (trim(v@).len() > 0 ==> chosen@ == trim(v@)),
        (visual is None || trim(visual->0@).len() == 0) ==> {
            &&& editor matches Some(e) ==> (trim(e@).len() > 0 ==> chosen@ == trim(e@))
            &&& (editor is None || trim(editor->0@).len() == 0) ==> chosen@ == if windows {
                "notepad"@
            } else {
                "vi"@
            }
        },
        split is None <==> words(command@).len() == 0,
        split matches Some(parts) ==> {
            &&& parts.program@ == words(command@)[0]
            &&& parts.args@.len() == words(command@).len() - 1
            &&& forall|i: int|
                0 <= i < parts.args@.len() ==> (#[trigger] parts.args@[i])@ == words(command@)[i + 1]
        },
        file.0@ == if global {
            paths.global_memory_file@
        } else {
            paths.workspace_memory_file@
        },
        file.1@ == if global {
            "global MEMORY.md"@
        } else {
            "workspace MEMORY.md"@
        },
{
}

/// The failure of an editor, a size and the statistics are spelled out.
pub proof fn reports_are_spelled_out(
    program: &str,
    code: Option<i32>,
    failure: String,
    bytes: u64,
    size: String,
    stats: &MemoryStats,
    report: String,
)
    requires
        call_ensures(editor_failure, (program, code), failure),
        call_ensures(human_bytes, (bytes,), size),
        call_ensures(stats_report, (stats,), report),
        size_of_all(stats.files@) <= u64::MAX,
    ensures
        code matches Some(c) ==> failure@ == "editor '"@ + program@ + "' exited with "@ + (
        "status "@ + signed_decimal(c as int)),
        code is None ==> failure@ == "editor '"@ + program@ + "' exited with "@ + "a signal"@,
        size@ == human(bytes as nat),
        report@ == places_text(*stats) + files_text(stats.files@) + index_text(
            stats.index_path@,
            stats.index,
        ),
{
}

} // verus!
