//! The shell service: its configuration, its D-Bus `Ping`, and how it
//! launches applications.
use vstd::prelude::*;

use crate::ipc::str_views;

verus! {

/// The shell's configuration.
#[derive(Debug, Clone)]
pub struct ShellConfig {
    pub session_name: String,
}

impl Default for ShellConfig {
    /// The `xpde` session.
    fn default() -> (r: Self)
        ensures
            r.session_name@ == "xpde"@,
    {
        ShellConfig { session_name: String::from_str("xpde") }
    }
}

/// The `org.xpde.Shell1` interface.
#[derive(Debug)]
pub struct ShellDBus;

impl ShellDBus {
    /// `Ping`: answers `pong`.
    pub fn ping(&self) -> (r: String)
        ensures
            r@ == "pong"@,
    {
        String::from_str("pong")
    }
}

/// The command that launches the desktop entry `id` in its own user scope:
/// `systemd-run --user --scope -- gtk-launch <id>`.
pub open spec fn launch_command_spec(id: Seq<char>) -> Seq<Seq<char>> {
    seq!["systemd-run"@, "--user"@, "--scope"@, "--"@, "gtk-launch"@, id]
}

/// The program and arguments that launch the desktop entry `id`.
pub fn launch_command(id: &str) -> (r: Vec<String>)
    ensures
        str_views(r@) == launch_command_spec(id@),
{
    let mut v: Vec<String> = Vec::new();
    v.push(String::from_str("systemd-run"));
    v.push(String::from_str("--user"));
    v.push(String::from_str("--scope"));
    v.push(String::from_str("--"));
    v.push(String::from_str("gtk-launch"));
    v.push(String::from_str(id));
    assert(str_views(v@) =~= launch_command_spec(id@));
    v
}

} // verus!
