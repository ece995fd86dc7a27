//! Running a profiled Qi program: configuration, compiler arguments, the
//! decisions of the waiting loop, and output merging.

use crate::text::push_char;
use vstd::prelude::*;

verus! {

/// How a Qi program is compiled and run for profiling.
#[derive(Debug, Clone)]
pub struct RunConfig {
    /// The `qi` compiler executable.
    pub qi_bin: String,
    /// Arguments passed to the program.
    pub args: Vec<String>,
    /// Timeout in seconds (0: none).
    pub timeout_secs: u64,
    /// Optimization level passed to `-O`.
    pub optimization: Option<String>,
    /// Reserved.
    pub quiet_stdout: bool,
}

impl Default for RunConfig {
    fn default() -> (c: Self)
        ensures
            c.qi_bin@ == "qi"@,
            c.args@.len() == 0,
            c.timeout_secs == 60,
            c.optimization.is_none(),
            !c.quiet_stdout,
    {
        RunConfig {
            qi_bin: String::from_str("qi"),
            args: Vec::new(),
            timeout_secs: 60,
            optimization: None,
            quiet_stdout: false,
        }
    }
}

/// Standard output and standard error as one text: a line feed is added
/// between them when standard output is not empty and does not end with one.
pub open spec fn combined(stdout: Seq<char>, stderr: Seq<char>) -> Seq<char> {
    if stdout.len() > 0 && stdout.last() != '\n' {
        stdout.push('\n') + stderr
    } else {
        stdout + stderr
    }
}

/// Merges a program's standard output and standard error.
pub fn combine_output(stdout: String, stderr: &str) -> (out: String)
    ensures
        out@ == combined(stdout@, stderr@),
{
    let mut combined = stdout;
    let n = combined.as_str().unicode_len();
    if n > 0 && combined.as_str().get_char(n - 1) != '\n' {
        push_char(&mut combined, '\n');
    }
    combined.append(stderr);
    combined
}

/// The arguments of the compiler call: `compile <source> -o <output>`, then
/// `-O <level>` when an optimization level is set.
pub open spec fn compile_args_spec(source: Seq<char>, output: Seq<char>, optimization: Option<Seq<char>>) -> Seq<Seq<char>> {
    seq!["compile"@, source, "-o"@, output] + match optimization {
        Some(o) => seq!["-O"@, o],
        None => Seq::<Seq<char>>::empty(),
    }
}

pub open spec fn opt_view(o: Option<String>) -> Option<Seq<char>> {
    match o {
        Some(s) => Some(s@),
        None => None,
    }
}

pub open spec fn string_views(v: Seq<String>) -> Seq<Seq<char>> {
    v.map_values(|s: String| s@)
}

/// The arguments for compiling `source` into `output` with `config`.
pub fn compile_args(source: &str, output: &str, config: &RunConfig) -> (args: Vec<String>)
    ensures
        string_views(args@) == compile_args_spec(source@, output@, opt_view(config.optimization)),
{
    let mut args: Vec<String> = Vec::new();
    args.push(String::from_str("compile"));
    args.push(String::from_str(source));
    args.push(String::from_str("-o"));
    args.push(String::from_str(output));
    match &config.optimization {
        Some(o) => {
            args.push(String::from_str("-O"));
            args.push(o.clone());
        },
        None => {},
    }
    proof {
        assert(string_views(args@) =~= compile_args_spec(source@, output@, opt_view(config.optimization)));
    }
    args
}

/// What to do while waiting for the profiled program.
#[derive(Debug, Clone, Copy, PartialEq, Eq, Structural)]
pub enum WaitAction {
    /// It has exited: collect its output.
    Finished,
    /// The timeout has passed: terminate it.
    Terminate,
    /// Poll again after a short sleep.
    Wait,
}

/// The next step of waiting: done when the program exited; with a timeout
/// (`timeout_secs > 0`) past its deadline, terminate; otherwise wait.
pub fn wait_step(timeout_secs: u64, exited: bool, past_deadline: bool) -> (a: WaitAction)
    ensures
        exited ==> a == WaitAction::Finished,
        !exited && timeout_secs > 0 && past_deadline ==> a == WaitAction::Terminate,
        !exited && !(timeout_secs > 0 && past_deadline) ==> a == WaitAction::Wait,
{
    if exited {
        WaitAction::Finished
    } else if timeout_secs > 0 && past_deadline {
        WaitAction::Terminate
    } else {
        WaitAction::Wait
    }
}

} // verus!
