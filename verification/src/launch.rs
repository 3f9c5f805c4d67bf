//! Launching: the argument vector the process image is replaced with. A
//! user-supplied command string runs under `bash -c`; without one, an
//! interactive shell starts with a green prompt sourced through an
//! init-file substitution.

use vstd::prelude::*;

verus! {

/// The command run when the caller supplies none: an interactive shell
/// whose init file sources the user's own and sets a green prompt.
pub open spec fn default_entrypoint_text() -> Seq<char> {
    "bash --init-file <(echo \"source ~/.bashrc; export PS1=\\\"\\[\\e[1;32m\\]\\u \\W> \\[\\e[0m\\]\\\"\")"@
}

/// The default entrypoint as a value.
pub fn default_entrypoint() -> (r: String)
    ensures
        r@ == default_entrypoint_text(),
{
    "bash --init-file <(echo \"source ~/.bashrc; export PS1=\\\"\\[\\e[1;32m\\]\\u \\W> \\[\\e[0m\\]\\\"\")".to_owned()
}

/// The argument vector the process image is replaced with: `bash -c` and
/// the supplied command string, or the default entrypoint when none is
/// supplied. The executable is the vector's first element.
pub fn launch_args(run: Option<String>) -> (args: Vec<String>)
    ensures
        args@.len() == 3,
        args@[0]@ == "bash"@,
        args@[1]@ == "-c"@,
        (run matches Some(cmd) ==> args@[2]@ == cmd@),
        run is None ==> args@[2]@ == default_entrypoint_text(),
{
    let entry = match run {
        Some(cmd) => cmd,
        None => default_entrypoint(),
    };
    let mut args: Vec<String> = Vec::new();
    args.push("bash".to_owned());
    args.push("-c".to_owned());
    args.push(entry);
    args
}

} // verus!
