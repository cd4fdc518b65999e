use vstd::prelude::*;

verus! {

/// The parsed command line. The argument parser itself lives in the
/// application shell; these are the shapes the logic consumes.
pub struct Cli {
    pub command: Option<Commands>,
}

/// The subcommands the tool offers.
pub enum Commands {
    /// Configure storage destinations, with list/add shortcuts.
    Config { list: bool, add: bool },
    /// Back up a directory of files.
    Backup,
    /// Show finished and failed backups.
    History,
    /// Show backups still in progress.
    Status,
}

/// The config shortcuts are mutually exclusive: asking to list and to add at
/// once is refused.
pub fn config_flags_conflict(list: bool, add: bool) -> (r: bool)
    ensures
        r == (list && add),
{
    list && add
}

} // verus!
