//! CLI argument parsing.

use vstd::prelude::*;

use crate::text::{joined, has_prefix, parse_u64, parsed_unsigned, starts_with, str_eq};

verus! {

#[derive(Debug)]
pub struct CliArgs {
    pub command: Command,
}

#[derive(Debug)]
pub enum Command {
    Scan(ScanArgs),
    View(ViewArgs),
}

#[derive(Debug)]
pub struct ScanArgs {
    pub path: String,
    pub basis: String,
    pub snapshot: Option<String>,
    pub max_depth: Option<u16>,
    pub quiet: bool,
    pub legacy_traversal: bool,
    pub strategy_override: Option<String>,
    pub progress_interval_secs: Option<u64>,
}

#[derive(Debug)]
pub struct ViewArgs {
    pub from_snapshot: String,
    pub path: Option<String>,
    pub top: usize,
    pub sort: String,
    pub json: bool,
}

/// Mathematical value of [`ScanArgs`].
pub struct ScanArgsView {
    pub path: Seq<char>,
    pub basis: Seq<char>,
    pub snapshot: Option<Seq<char>>,
    pub max_depth: Option<u16>,
    pub quiet: bool,
    pub legacy_traversal: bool,
    pub strategy_override: Option<Seq<char>>,
    pub progress_interval_secs: Option<u64>,
}

/// Mathematical value of [`ViewArgs`].
pub struct ViewArgsView {
    pub from_snapshot: Seq<char>,
    pub path: Option<Seq<char>>,
    pub top: usize,
    pub sort: Seq<char>,
    pub json: bool,
}

/// Mathematical value of [`Command`].
pub enum CommandView {
    Scan(ScanArgsView),
    View(ViewArgsView),
}

/// The characters of an optional owned string.
pub open spec fn opt_text(s: Option<String>) -> Option<Seq<char>> {
    match s {
        Some(t) => Some(t@),
        None => None,
    }
}

impl View for ScanArgs {
    type V = ScanArgsView;

    open spec fn view(&self) -> ScanArgsView {
        ScanArgsView {
            path: self.path@,
            basis: self.basis@,
            snapshot: opt_text(self.snapshot),
            max_depth: self.max_depth,
            quiet: self.quiet,
            legacy_traversal: self.legacy_traversal,
            strategy_override: opt_text(self.strategy_override),
            progress_interval_secs: self.progress_interval_secs,
        }
    }
}

impl View for ViewArgs {
    type V = ViewArgsView;

    open spec fn view(&self) -> ViewArgsView {
        ViewArgsView {
            from_snapshot: self.from_snapshot@,
            path: opt_text(self.path),
            top: self.top,
            sort: self.sort@,
            json: self.json,
        }
    }
}

impl View for Command {
    type V = CommandView;

    open spec fn view(&self) -> CommandView {
        match self {
            Command::Scan(a) => CommandView::Scan(a@),
            Command::View(a) => CommandView::View(a@),
        }
    }
}

impl View for CliArgs {
    type V = CommandView;

    open spec fn view(&self) -> CommandView {
        self.command@
    }
}

/// The arguments of a scan before any was read.
pub open spec fn default_scan_args() -> ScanArgsView {
    ScanArgsView {
        path: Seq::empty(),
        basis: "physical"@,
        snapshot: None,
        max_depth: None,
        quiet: false,
        legacy_traversal: false,
        strategy_override: None,
        progress_interval_secs: None,
    }
}

/// The arguments of a view before any was read.
pub open spec fn default_view_args() -> ViewArgsView {
    ViewArgsView { from_snapshot: Seq::empty(), path: None, top: 10, sort: "size"@, json: false }
}

impl Default for ScanArgs {
    fn default() -> (args: Self)
        ensures
            args@ == default_scan_args(),
    {
        Self {
            path: String::new(),
            basis: "physical".to_owned(),
            snapshot: None,
            max_depth: None,
            quiet: false,
            legacy_traversal: false,
            strategy_override: None,
            progress_interval_secs: None,
        }
    }
}

/// The characters of each argument.
pub open spec fn texts(args: Seq<String>) -> Seq<Seq<char>> {
    args.map_values(|s: String| s@)
}

/// The scan arguments that `args` spell from position `i` on, given what
/// the arguments before `i` have set; or the message of the first fault.
/// An option that takes a value takes the next argument, whatever it is.
pub open spec fn scan_args_from(args: Seq<Seq<char>>, i: int, acc: ScanArgsView) -> Result<
    ScanArgsView,
    Seq<char>,
>
    decreases args.len() - i,
{
    if i < 0 || i >= args.len() {
        if acc.path.len() == 0 {
            Err("Missing required argument: PATH"@)
        } else {
            Ok(acc)
        }
    } else {
        let arg = args[i];
        if arg == "--basis"@ {
            if i + 1 >= args.len() {
                Err("--basis requires a value"@)
            } else {
                scan_args_from(args, i + 2, ScanArgsView { basis: args[i + 1], ..acc })
            }
        } else if arg == "--snapshot"@ {
            if i + 1 >= args.len() {
                Err("--snapshot requires a file path"@)
            } else {
                scan_args_from(args, i + 2, ScanArgsView { snapshot: Some(args[i + 1]), ..acc })
            }
        } else if arg == "--max-depth"@ {
            if i + 1 >= args.len() {
                Err("--max-depth requires a value"@)
            } else {
                match parsed_unsigned(args[i + 1], u16::MAX as nat) {
                    Some(n) => scan_args_from(
                        args,
                        i + 2,
                        ScanArgsView { max_depth: Some(n as u16), ..acc },
                    ),
                    None => Err("--max-depth must be a number"@),
                }
            }
        } else if arg == "--quiet"@ {
            scan_args_from(args, i + 1, ScanArgsView { quiet: true, ..acc })
        } else if arg == "--legacy-traversal"@ {
            scan_args_from(args, i + 1, ScanArgsView { legacy_traversal: true, ..acc })
        } else if arg == "--strategy"@ {
            if i + 1 >= args.len() {
                Err("--strategy requires a value"@)
            } else {
                scan_args_from(
                    args,
                    i + 2,
                    ScanArgsView { strategy_override: Some(args[i + 1]), ..acc },
                )
            }
        } else if arg == "--progress-interval"@ {
            if i + 1 >= args.len() {
                Err("--progress-interval requires a value"@)
            } else {
                match parsed_unsigned(args[i + 1], u64::MAX as nat) {
                    Some(n) => if n == 0 {
                        Err("--progress-interval must be greater than zero"@)
                    } else {
                        scan_args_from(
                            args,
                            i + 2,
                            ScanArgsView { progress_interval_secs: Some(n as u64), ..acc },
                        )
                    },
                    None => Err("--progress-interval must be a positive integer"@),
                }
            }
        } else if !has_prefix(arg, "--"@) {
            if acc.path.len() == 0 {
                scan_args_from(args, i + 1, ScanArgsView { path: arg, ..acc })
            } else {
                Err("Unexpected argument: "@ + arg)
            }
        } else {
            Err("Unknown option: "@ + arg)
        }
    }
}

/// The view arguments that `args` spell from position `i` on, given what
/// the arguments before `i` have set; or the message of the first fault.
pub open spec fn view_args_from(args: Seq<Seq<char>>, i: int, acc: ViewArgsView) -> Result<
    ViewArgsView,
    Seq<char>,
>
    decreases args.len() - i,
{
    if i < 0 || i >= args.len() {
        if acc.from_snapshot.len() == 0 {
            Err("Missing required argument: SNAPSHOT_FILE"@)
        } else {
            Ok(acc)
        }
    } else {
        let arg = args[i];
        if arg == "--path"@ {
            if i + 1 >= args.len() {
                Err("--path requires a value"@)
            } else {
                view_args_from(args, i + 2, ViewArgsView { path: Some(args[i + 1]), ..acc })
            }
        } else if arg == "--top"@ {
            if i + 1 >= args.len() {
                Err("--top requires a value"@)
            } else {
                match parsed_unsigned(args[i + 1], usize::MAX as nat) {
                    Some(n) => view_args_from(args, i + 2, ViewArgsView { top: n as usize, ..acc }),
                    None => Err("--top must be a number"@),
                }
            }
        } else if arg == "--sort"@ {
            if i + 1 >= args.len() {
                Err("--sort requires a value"@)
            } else {
                view_args_from(args, i + 2, ViewArgsView { sort: args[i + 1], ..acc })
            }
        } else if arg == "--json"@ {
            view_args_from(args, i + 1, ViewArgsView { json: true, ..acc })
        } else if !has_prefix(arg, "--"@) {
            if acc.from_snapshot.len() == 0 {
                view_args_from(args, i + 1, ViewArgsView { from_snapshot: arg, ..acc })
            } else {
                Err("Unexpected argument: "@ + arg)
            }
        } else {
            Err("Unknown option: "@ + arg)
        }
    }
}

/// The command that a whole command line spells: the program's name, the
/// command's name, then the command's own arguments.
pub open spec fn command_of(args: Seq<Seq<char>>) -> Result<CommandView, Seq<char>> {
    if args.len() < 2 {
        Err("No command specified"@)
    } else if args[1] == "scan"@ {
        match scan_args_from(args, 2, default_scan_args()) {
            Ok(a) => Ok(CommandView::Scan(a)),
            Err(e) => Err(e),
        }
    } else if args[1] == "view"@ {
        match view_args_from(args, 2, default_view_args()) {
            Ok(a) => Ok(CommandView::View(a)),
            Err(e) => Err(e),
        }
    } else {
        Err("Unknown command: "@ + args[1])
    }
}

/// Whether a result of parsing is the one that the grammar gives.
pub open spec fn scan_result_is(r: Result<ScanArgs, String>, expected: Result<
    ScanArgsView,
    Seq<char>,
>) -> bool {
    match r {
        Ok(a) => expected == Ok::<ScanArgsView, Seq<char>>(a@),
        Err(e) => expected == Err::<ScanArgsView, Seq<char>>(e@),
    }
}

/// Whether a result of parsing is the one that the grammar gives.
pub open spec fn view_result_is(r: Result<ViewArgs, String>, expected: Result<
    ViewArgsView,
    Seq<char>,
>) -> bool {
    match r {
        Ok(a) => expected == Ok::<ViewArgsView, Seq<char>>(a@),
        Err(e) => expected == Err::<ViewArgsView, Seq<char>>(e@),
    }
}

/// Parse command line arguments.
pub fn parse_args(args: &[String]) -> (r: Result<CliArgs, String>)
    ensures
        match r {
            Ok(cli) => command_of(texts(args@)) == Ok::<CommandView, Seq<char>>(cli@),
            Err(e) => command_of(texts(args@)) == Err::<CommandView, Seq<char>>(e@),
        },
{
    if args.len() < 2 {
        return Err("No command specified".to_owned());
    }
    let name = args[1].as_str();
    if str_eq(name, "scan") {
        match parse_scan_from(args, 2) {
            Ok(scan_args) => Ok(CliArgs { command: Command::Scan(scan_args) }),
            Err(e) => Err(e),
        }
    } else if str_eq(name, "view") {
        match parse_view_from(args, 2) {
            Ok(view_args) => Ok(CliArgs { command: Command::View(view_args) }),
            Err(e) => Err(e),
        }
    } else {
        Err(joined("Unknown command: ", name))
    }
}

/// Parse the arguments of the scan command.
pub fn parse_scan_args(args: &[String]) -> (r: Result<ScanArgs, String>)
    ensures
        scan_result_is(r, scan_args_from(texts(args@), 0, default_scan_args())),
{
    parse_scan_from(args, 0)
}

/// Parse the arguments of the view command.
pub fn parse_view_args(args: &[String]) -> (r: Result<ViewArgs, String>)
    ensures
        view_result_is(r, view_args_from(texts(args@), 0, default_view_args())),
{
    parse_view_from(args, 0)
}

fn parse_scan_from(args: &[String], start: usize) -> (r: Result<ScanArgs, String>)
    ensures
        scan_result_is(r, scan_args_from(texts(args@), start as int, default_scan_args())),
{
    let mut scan_args = ScanArgs::default();
    let mut i: usize = start;
    let ghost all = texts(args@);
    let ghost goal = scan_args_from(all, start as int, default_scan_args());

    while i < args.len()
        invariant
            all == texts(args@),
            goal == scan_args_from(all, start as int, default_scan_args()),
            goal == scan_args_from(all, i as int, scan_args@),
        decreases args.len() - i,
    {
        let arg = args[i].as_str();
        assert(all[i as int] == arg@);
        if str_eq(arg, "--basis") {
            if i + 1 >= args.len() {
                return Err("--basis requires a value".to_owned());
            }
            assert(all[i + 1] == args@[i + 1]@);
            scan_args.basis = args[i + 1].clone();
            i += 2;
        } else if str_eq(arg, "--snapshot") {
            if i + 1 >= args.len() {
                return Err("--snapshot requires a file path".to_owned());
            }
            assert(all[i + 1] == args@[i + 1]@);
            scan_args.snapshot = Some(args[i + 1].clone());
            i += 2;
        } else if str_eq(arg, "--max-depth") {
            if i + 1 >= args.len() {
                return Err("--max-depth requires a value".to_owned());
            }
            assert(all[i + 1] == args@[i + 1]@);
            match parse_u64(args[i + 1].as_str()) {
                Some(n) => {
                    if n > 65_535 {
                        return Err("--max-depth must be a number".to_owned());
                    }
                    scan_args.max_depth = Some(n as u16);
                },
                None => {
                    return Err("--max-depth must be a number".to_owned());
                },
            }
            i += 2;
        } else if str_eq(arg, "--quiet") {
            scan_args.quiet = true;
            i += 1;
        } else if str_eq(arg, "--legacy-traversal") {
            scan_args.legacy_traversal = true;
            i += 1;
        } else if str_eq(arg, "--strategy") {
            if i + 1 >= args.len() {
                return Err("--strategy requires a value".to_owned());
            }
            assert(all[i + 1] == args@[i + 1]@);
            scan_args.strategy_override = Some(args[i + 1].clone());
            i += 2;
        } else if str_eq(arg, "--progress-interval") {
            if i + 1 >= args.len() {
                return Err("--progress-interval requires a value".to_owned());
            }
            assert(all[i + 1] == args@[i + 1]@);
            match parse_u64(args[i + 1].as_str()) {
                Some(secs) => {
                    if secs == 0 {
                        return Err("--progress-interval must be greater than zero".to_owned());
                    }
                    scan_args.progress_interval_secs = Some(secs);
                },
                None => {
                    return Err("--progress-interval must be a positive integer".to_owned());
                },
            }
            i += 2;
        } else if !starts_with(arg, "--") {
            if scan_args.path.as_str().is_empty() {
                scan_args.path = arg.to_owned();
            } else {
                return Err(joined("Unexpected argument: ", arg));
            }
            i += 1;
        } else {
            return Err(joined("Unknown option: ", arg));
        }
    }
    if scan_args.path.as_str().is_empty() {
        return Err("Missing required argument: PATH".to_owned());
    }
    Ok(scan_args)
}

fn parse_view_from(args: &[String], start: usize) -> (r: Result<ViewArgs, String>)
    ensures
        view_result_is(r, view_args_from(texts(args@), start as int, default_view_args())),
{
    let mut view_args = ViewArgs {
        from_snapshot: String::new(),
        path: None,
        top: 10,
        sort: "size".to_owned(),
        json: false,
    };
    let mut i: usize = start;
    let ghost all = texts(args@);
    let ghost goal = view_args_from(all, start as int, default_view_args());

    while i < args.len()
        invariant
            all == texts(args@),
            goal == view_args_from(all, start as int, default_view_args()),
            goal == view_args_from(all, i as int, view_args@),
        decreases args.len() - i,
    {
        let arg = args[i].as_str();
        assert(all[i as int] == arg@);
        if str_eq(arg, "--path") {
            if i + 1 >= args.len() {
                return Err("--path requires a value".to_owned());
            }
            assert(all[i + 1] == args@[i + 1]@);
            view_args.path = Some(args[i + 1].clone());
            i += 2;
        } else if str_eq(arg, "--top") {
            if i + 1 >= args.len() {
                return Err("--top requires a value".to_owned());
            }
            assert(all[i + 1] == args@[i + 1]@);
            match parse_u64(args[i + 1].as_str()) {
                Some(n) => {
                    if n > usize::MAX as u64 {
                        return Err("--top must be a number".to_owned());
                    }
                    view_args.top = n as usize;
                },
                None => {
                    return Err("--top must be a number".to_owned());
                },
            }
            i += 2;
        } else if str_eq(arg, "--sort") {
            if i + 1 >= args.len() {
                return Err("--sort requires a value".to_owned());
            }
            assert(all[i + 1] == args@[i + 1]@);
            view_args.sort = args[i + 1].clone();
            i += 2;
        } else if str_eq(arg, "--json") {
            view_args.json = true;
            i += 1;
        } else if !starts_with(arg, "--") {
            if view_args.from_snapshot.as_str().is_empty() {
                view_args.from_snapshot = arg.to_owned();
            } else {
                return Err(joined("Unexpected argument: ", arg));
            }
            i += 1;
        } else {
            return Err(joined("Unknown option: ", arg));
        }
    }
    if view_args.from_snapshot.as_str().is_empty() {
        return Err("Missing required argument: SNAPSHOT_FILE".to_owned());
    }
    Ok(view_args)
}

} // verus!
