//! The `/client LiveSplit` chat command: what it answers.
use vstd::prelude::*;
use vstd::string::*;

use crate::text::str_equal;

verus! {

/// Printed when the command fires while the plugin is between a
/// hot-reload free and the next init.
pub open spec fn inactive_text() -> Seq<char> {
    "&eLiveSplit: plugin not active (between hot-reload Free/Init); ignoring command"@
}

/// The `status` answer for plugin version `version`.
pub open spec fn status_text(version: Seq<char>) -> Seq<char> {
    "&aLiveSplit v"@ + version + " \u{2014} IPC not yet implemented"@
}

/// The usage lines.
pub open spec fn usage_text() -> Seq<Seq<char>> {
    seq!["&eUsage:"@, "&e  /client LiveSplit status"@]
}

/// The chat lines that answer `/client LiveSplit <args>`.
pub open spec fn spec_command_reply(active: bool, args: Seq<Seq<char>>, version: Seq<char>) -> Seq<
    Seq<char>,
> {
    if !active {
        seq![inactive_text()]
    } else if args.len() == 1 && args[0] == "status"@ {
        seq![status_text(version)]
    } else {
        usage_text()
    }
}

/// The lines to print in answer to the chat command with arguments
/// `args`, given whether the plugin is active and its version.
pub fn command_reply(active: bool, args: &Vec<String>, version: &str) -> (lines: Vec<String>)
    ensures
        lines@.map_values(|s: String| s@) == spec_command_reply(
            active,
            args@.map_values(|s: String| s@),
            version@,
        ),
{
    let ghost argv = args@.map_values(|s: String| s@);
    let mut lines: Vec<String> = Vec::new();
    if !active {
        lines.push(String::from_str(
            "&eLiveSplit: plugin not active (between hot-reload Free/Init); ignoring command",
        ));
    } else if args.len() == 1 && str_equal(args[0].as_str(), "status") {
        let mut s = String::from_str("&aLiveSplit v");
        s.append(version);
        s.append(" \u{2014} IPC not yet implemented");
        lines.push(s);
    } else {
        lines.push(String::from_str("&eUsage:"));
        lines.push(String::from_str("&e  /client LiveSplit status"));
    }
    assert(lines@.map_values(|s: String| s@) =~= spec_command_reply(active, argv, version@));
    lines
}

/// While the plugin is inactive the command is answered with the single
/// inactive notice, whatever its arguments; while it is active, exactly
/// the one argument `status` gets the status line and anything else gets
/// the two usage lines.
pub proof fn lemma_command_reply_cases(active: bool, args: Seq<Seq<char>>, version: Seq<char>)
    ensures
        !active ==> spec_command_reply(active, args, version) == seq![
            "&eLiveSplit: plugin not active (between hot-reload Free/Init); ignoring command"@,
        ],
        active && args == seq!["status"@] ==> spec_command_reply(active, args, version) == seq![
            "&aLiveSplit v"@ + version + " \u{2014} IPC not yet implemented"@,
        ],
        active && args != seq!["status"@] ==> spec_command_reply(active, args, version) == seq![
            "&eUsage:"@,
            "&e  /client LiveSplit status"@,
        ],
{
    if active && args != seq!["status"@] && args.len() == 1 {
        assert(args[0] != "status"@) by {
            if args[0] == "status"@ {
                assert(args =~= seq!["status"@]);
            }
        }
    }
}

} // verus!
