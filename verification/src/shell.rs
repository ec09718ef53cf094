//! Platform policy: which program runs a command line, and with which
//! arguments.

use vstd::prelude::*;
use vstd::string::*;

verus! {

/// The host platforms the editor runs on.
#[derive(Clone, Copy, Debug, PartialEq, Eq, Structural)]
pub enum Platform {
    Windows,
    MacOs,
    Linux,
}

/// A program to start and the arguments to hand to it, in order.
#[derive(Debug)]
pub struct Invocation {
    pub program: String,
    pub args: Vec<String>,
}

impl Invocation {
    /// The program name as text.
    pub open spec fn program_text(&self) -> Seq<char> {
        self.program@
    }

    /// The arguments as texts, in order.
    pub open spec fn arg_texts(&self) -> Seq<Seq<char>> {
        self.args.deep_view()
    }
}

/// The shell that runs command lines on `platform`.
pub open spec fn shell_program(platform: Platform) -> Seq<char> {
    match platform {
        Platform::Windows => "powershell"@,
        Platform::MacOs => "zsh"@,
        Platform::Linux => "bash"@,
    }
}

/// The option that makes the shell of `platform` run its next argument as a
/// command line.
pub open spec fn shell_command_flag(platform: Platform) -> Seq<char> {
    match platform {
        Platform::Windows => "-Command"@,
        Platform::MacOs => "-c"@,
        Platform::Linux => "-c"@,
    }
}

/// The name under which the operating system `platform` is known.
pub open spec fn os_name(platform: Platform) -> Seq<char> {
    match platform {
        Platform::Windows => "windows"@,
        Platform::MacOs => "macos"@,
        Platform::Linux => "linux"@,
    }
}

/// The platform that goes by `name`, if it is one of the supported three.
pub open spec fn platform_named(name: Seq<char>) -> Option<Platform> {
    if name == "windows"@ {
        Some(Platform::Windows)
    } else if name == "macos"@ {
        Some(Platform::MacOs)
    } else if name == "linux"@ {
        Some(Platform::Linux)
    } else {
        None
    }
}

impl Platform {
    /// Picks the platform from an operating system name. Any name but
    /// `windows`, `macos` and `linux` is unsupported and gives `None`.
    pub fn from_os_name(name: &str) -> (platform: Option<Platform>)
        ensures
            platform == platform_named(name@),
    {
        let given = String::from_str(name);
        if given == String::from_str("windows") {
            Some(Platform::Windows)
        } else if given == String::from_str("macos") {
            Some(Platform::MacOs)
        } else if given == String::from_str("linux") {
            Some(Platform::Linux)
        } else {
            None
        }
    }
}

/// Resolves the shell invocation for `command` on `platform`: the platform's
/// shell, its run-a-command option, and the command line as one argument.
pub fn resolve_shell(platform: Platform, command: &str) -> (invocation: Invocation)
    ensures
        invocation.program_text() == shell_program(platform),
        invocation.arg_texts() == seq![shell_command_flag(platform), command@],
{
    let (program, flag) = match platform {
        Platform::Windows => ("powershell", "-Command"),
        Platform::MacOs => ("zsh", "-c"),
        Platform::Linux => ("bash", "-c"),
    };
    let mut args: Vec<String> = Vec::new();
    args.push(String::from_str(flag));
    args.push(String::from_str(command));
    assert(args.deep_view() =~= seq![shell_command_flag(platform), command@]);
    Invocation { program: String::from_str(program), args }
}

/// Each platform is the one that goes by its own name: the three names are
/// different texts.
pub proof fn lemma_platform_named_by_os_name(platform: Platform)
    ensures
        platform_named(os_name(platform)) == Some(platform),
{
    reveal_strlit("windows");
    reveal_strlit("macos");
    reveal_strlit("linux");
    assert("windows"@.len() == 7);
    assert("macos"@.len() == 5);
    assert("macos"@[0] == 'm');
    assert("linux"@[0] == 'l');
}

} // verus!
