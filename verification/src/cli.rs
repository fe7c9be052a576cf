//! The execution boundary's pure part.
//!
//! Running the compiled command is the caller's business (it prompts the
//! operator and would invoke the external tool); what can be pinned down here
//! is the preview line shown before that prompt.

use vstd::prelude::*;
use vstd::string::StringExecFns;

use crate::builder::Cmd;
use crate::text::{join_strs, join_with};

verus! {

#[derive(Debug)]
pub enum CliErr {
    RunningErr,
    StdOutErr,
}

/// The human-readable preview of a compiled command: the invocation name,
/// one space, then the space-joined argument list.
pub fn render_command(cmd: &Cmd) -> (r: String)
    ensures
        r@ == cmd.invocation@ + " "@ + join_strs(cmd.args.deep_view(), " "@),
{
    let mut r = cmd.invocation.clone();
    r.append(" ");
    let joined = join_with(&cmd.args, " ");
    r.append(joined.as_str());
    r
}

} // verus!

