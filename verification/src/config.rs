use vstd::prelude::*;

verus! {

/// Host configuration kept between sessions. The core only defines the shape
/// and the default; loading and saving it is the surrounding application's
/// business.
#[derive(Debug, Clone, PartialEq, Eq)]
pub struct Config {
    pub command_history_path: String,
}

impl Default for Config {
    fn default() -> (c: Config)
        ensures
            c.command_history_path@ == "../Recent_command.txt"@,
    {
        Config { command_history_path: "../Recent_command.txt".to_owned() }
    }
}

} // verus!
