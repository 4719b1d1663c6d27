//! What the command line and the output of git subprocesses say.
use crate::text;
use crate::text::{has_prefix, trim_space};
use crate::ticket::URL_SCHEME;
use vstd::prelude::*;
use vstd::utf8::*;

verus! {

/// Whether git called the program as a remote helper: `git-remote-iroh <remote> <url>`.
pub fn is_helper_call(args: &Vec<String>) -> (r: bool)
    ensures
        r == (args@.len() == 3 && has_prefix(args@[2]@, URL_SCHEME@)),
{
    args.len() == 3 && text::strip_prefix(args[2].as_str(), URL_SCHEME).is_some()
}

/// What a git command printed, without the white space around it, where it succeeded
/// and printed text.
pub fn git_stdout(success: bool, stdout: Vec<u8>) -> (r: Option<String>)
    ensures
        if success && valid_utf8(stdout@) {
            r matches Some(s) && s@ == trim_space(decode_utf8(stdout@))
        } else {
            r is None
        },
{
    if !success {
        return None;
    }
    match text::from_utf8(stdout) {
        Ok(s) => Some(text::trim(s.as_str()).to_owned()),
        Err(_) => None,
    }
}

/// Whether the repository has a working tree, from what
/// `git rev-parse --is-bare-repository` printed.
pub fn has_working_tree(bare: Option<&str>) -> (r: bool)
    ensures
        r == (bare matches Some(b) && b@ == "false"@),
{
    match bare {
        Some(b) => text::same(b, "false"),
        None => false,
    }
}

/// Whether a push to the checked-out branch of a repository with a working tree
/// bounces, from the value of `receive.denyCurrentBranch` where it is configured.
pub fn push_will_bounce(deny: Option<&str>) -> (r: bool)
    ensures
        r == !(deny matches Some(d) && (d@ == "updateInstead"@ || d@ == "ignore"@ || d@
            == "warn"@)),
{
    match deny {
        Some(d) => !text::same(d, "updateInstead") && !text::same(d, "ignore") && !text::same(
            d,
            "warn",
        ),
        None => true,
    }
}

/// The hint for a repository whose checked-out branch cannot be pushed to.
pub fn bounce_hint() -> (r: String)
    ensures
        r@ == "hint: this repository has a working tree; pushes to the checked-out branch\n"@
            + "hint: will be rejected. To accept them and update the working tree, run:\n"@
            + "hint:     git config receive.denyCurrentBranch updateInstead\n"@,
{
    let mut s =
        "hint: this repository has a working tree; pushes to the checked-out branch\n".to_owned();
    s.append("hint: will be rejected. To accept them and update the working tree, run:\n");
    s.append("hint:     git config receive.denyCurrentBranch updateInstead\n");
    s
}

/// What `serve` tells the user while it waits for peers.
pub fn serve_notice(url: &str) -> (r: String)
    ensures
        r@ == "\nServing this repository over iroh. On another machine:\n\n"@ + "    git clone "@
            + url@ + "\n"@ + "    git remote add <name> "@ + url@ + "\n\n"@
            + "Waiting for peers (Ctrl-C to stop) ...\n"@,
{
    let mut s = "\nServing this repository over iroh. On another machine:\n\n".to_owned();
    s.append("    git clone ");
    s.append(url);
    s.append("\n");
    s.append("    git remote add <name> ");
    s.append(url);
    s.append("\n\n");
    s.append("Waiting for peers (Ctrl-C to stop) ...\n");
    s
}

} // verus!
