//! What the operator asked for on the command line, and the few decisions
//! that follow from it alone.

use crate::text::same_str;
use vstd::prelude::*;

verus! {

/// The command line as a whole.
pub struct Cli {
    pub help: bool,
    pub command: Option<Commands>,
}

/// The subcommands.
pub enum Commands {
    Kube(KubeArgs),
    Aws(AwsArgs),
    Database(DatabaseArgs),
    Terra(TerraArgs),
    Login(LoginArgs),
    Logout(LogoutArgs),
    Version,
    Docs,
    Quickstart,
    Animate(AnimateArgs),
    Loader,
    Update,
    Changelog,
    ClearUpdateCache,
}

/// What `th kube` was given.
pub struct KubeArgs {
    pub help: bool,
    pub environment: Option<String>,
}

/// What `th aws` was given.
pub struct AwsArgs {
    pub help: bool,
    pub environment: Option<String>,
    pub sudo_flag: Option<String>,
}

/// What `th database` was given.
pub struct DatabaseArgs {
    pub help: bool,
    pub target: Option<String>,
}

/// What `th terra` was given.
pub struct TerraArgs {
    pub help: bool,
}

/// What `th login` was given.
pub struct LoginArgs {
    pub help: bool,
}

/// What `th logout` was given.
pub struct LogoutArgs {
    pub help: bool,
}

/// What `th animate` was given.
pub struct AnimateArgs {
    pub help: bool,
    pub animation: Option<String>,
}

/// Which animation was asked for.
#[derive(Debug, Clone, Copy, PartialEq, Eq, Structural)]
pub enum Animation {
    Youlend,
    Th,
    Unknown,
}

/// Whether a subcommand talks to Teleport, so that its tools have to be
/// there before it runs.
pub open spec fn talks_to_teleport(command: Option<Commands>) -> bool {
    match command {
        Some(Commands::Kube(_)) => true,
        Some(Commands::Aws(_)) => true,
        Some(Commands::Database(_)) => true,
        Some(Commands::Login(_)) => true,
        Some(Commands::Logout(_)) => true,
        _ => false,
    }
}

/// The animation that a name stands for: `yl` and `th` by name, `th` where
/// no name is given.
pub open spec fn animation_of(name: Option<Seq<char>>) -> Animation {
    match name {
        None => Animation::Th,
        Some(n) => if n == "yl"@ {
            Animation::Youlend
        } else if n == "th"@ {
            Animation::Th
        } else {
            Animation::Unknown
        },
    }
}

impl Cli {
    /// Whether Teleport's tools have to be looked for before the command
    /// runs.
    pub fn needs_teleport_tools(&self) -> (b: bool)
        ensures
            b == talks_to_teleport(self.command),
    {
        match &self.command {
            Some(Commands::Kube(_)) => true,
            Some(Commands::Aws(_)) => true,
            Some(Commands::Database(_)) => true,
            Some(Commands::Login(_)) => true,
            Some(Commands::Logout(_)) => true,
            _ => false,
        }
    }

    /// Whether the help screen is all that is shown: on the help flag, or
    /// without a subcommand.
    pub fn shows_help(&self) -> (b: bool)
        ensures
            b == (self.help || self.command is None),
    {
        self.help || self.command.is_none()
    }
}

impl AwsArgs {
    /// Whether the sudo role was asked for: the flag is the single letter
    /// `s`.
    pub fn wants_sudo(&self) -> (b: bool)
        ensures
            b == (self.sudo_flag is Some && self.sudo_flag->0@ == "s"@),
    {
        match &self.sudo_flag {
            Some(flag) => same_str(flag.as_str(), "s"),
            None => false,
        }
    }
}

impl AnimateArgs {
    /// The animation that was asked for.
    pub fn choice(&self) -> (animation: Animation)
        ensures
            animation == animation_of(
                match self.animation {
                    Some(n) => Some(n@),
                    None => None,
                },
            ),
    {
        match &self.animation {
            None => Animation::Th,
            Some(name) => if same_str(name.as_str(), "yl") {
                Animation::Youlend
            } else if same_str(name.as_str(), "th") {
                Animation::Th
            } else {
                Animation::Unknown
            },
        }
    }
}

} // verus!
