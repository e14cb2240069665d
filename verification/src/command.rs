//! External-process commands: a program path plus an ordered argument list
//! in which each argument is either a literal or a placeholder for the
//! input or output path of the transformation being run.
//!
//! Resolving the argument list against concrete paths is pure and verified
//! here; actually spawning the process is I/O and is left to the caller.

use vstd::prelude::*;

verus! {

/// An argument to pass to the command transformer.
pub enum CommandArgument {
    /// An arbitrary string to be an argument.
    Arg(String),
    /// Indicates that this argument should be the path to the input file.
    InputPath,
    /// Indicates that this argument should be the path to the output file.
    OutputPath,
}

/// The mathematical shape of one argument.
pub enum CommandArgumentView {
    Arg(Seq<char>),
    InputPath,
    OutputPath,
}

impl View for CommandArgument {
    type V = CommandArgumentView;

    open spec fn view(&self) -> CommandArgumentView {
        match self {
            CommandArgument::Arg(s) => CommandArgumentView::Arg(s@),
            CommandArgument::InputPath => CommandArgumentView::InputPath,
            CommandArgument::OutputPath => CommandArgumentView::OutputPath,
        }
    }
}

impl DeepView for CommandArgument {
    type V = CommandArgumentView;

    open spec fn deep_view(&self) -> CommandArgumentView {
        self.view()
    }
}

/// An error from running an external command.
#[derive(Debug)]
pub enum CommandError {
    /// A command has exited with a non-zero status code.
    ExitStatus(i32),
    /// An error occurred executing the command, described as text.
    Error(String),
}

impl CommandError {
    /// Creates a new CommandError from an exit status code.
    pub fn from_status_code(exit_status: i32) -> (r: CommandError)
        ensures
            r matches CommandError::ExitStatus(c) && c == exit_status,
    {
        CommandError::ExitStatus(exit_status)
    }

    /// Creates a new CommandError from an error description.
    pub fn from_error(error: String) -> (r: CommandError)
        ensures
            r matches CommandError::Error(e) && e@ == error@,
    {
        CommandError::Error(error)
    }
}

/// A full command with an executable path and arguments.
pub struct FullCommand {
    /// The path to an executable.
    pub program: String,
    /// An ordered list of arguments to pass to the executable.
    pub args: Vec<CommandArgument>,
}

/// The mathematical shape of a command.
pub struct FullCommandView {
    pub program: Seq<char>,
    pub args: Seq<CommandArgumentView>,
}

impl View for FullCommand {
    type V = FullCommandView;

    open spec fn view(&self) -> FullCommandView {
        FullCommandView { program: self.program@, args: self.args.deep_view() }
    }
}

/// What one argument resolves to against concrete input and output paths.
pub open spec fn spec_resolve_argument(
    a: CommandArgumentView,
    input: Seq<char>,
    output: Seq<char>,
) -> Seq<char> {
    match a {
        CommandArgumentView::Arg(s) => s,
        CommandArgumentView::InputPath => input,
        CommandArgumentView::OutputPath => output,
    }
}

/// Every argument of `args` resolved against `input` and `output`.
pub open spec fn spec_resolve_arguments(
    args: Seq<CommandArgumentView>,
    input: Seq<char>,
    output: Seq<char>,
) -> Seq<Seq<char>> {
    args.map_values(|a: CommandArgumentView| spec_resolve_argument(a, input, output))
}

impl FullCommand {
    /// Creates a new instance of FullCommand with the provided program and
    /// no arguments.
    pub fn new(program: String) -> (r: FullCommand)
        ensures
            r@.program == program@,
            r@.args == Seq::<CommandArgumentView>::empty(),
    {
        let r = FullCommand { program, args: Vec::new() };
        proof {
            assert(r@.args =~= Seq::<CommandArgumentView>::empty());
        }
        r
    }

    /// The argument list with every placeholder substituted: `InputPath`
    /// becomes `input`, `OutputPath` becomes `output`, and a literal stays
    /// itself.
    pub fn resolve_arguments(&self, input: &str, output: &str) -> (r: Vec<String>)
        ensures
            r.deep_view() == spec_resolve_arguments(self@.args, input@, output@),
    {
        let n: usize = self.args.len();
        let mut out: Vec<String> = Vec::new();
        for i in 0..n
            invariant
                n == self.args.len(),
                out.deep_view() =~= spec_resolve_arguments(
                    self@.args.take(i as int),
                    input@,
                    output@,
                ),
        {
            let ghost out0 = out.deep_view();
            let resolved: String = match &self.args[i] {
                CommandArgument::Arg(s) => s.clone(),
                CommandArgument::InputPath => input.to_owned(),
                CommandArgument::OutputPath => output.to_owned(),
            };
            proof {
                assert(resolved@ == spec_resolve_argument(self@.args[i as int], input@, output@));
            }
            out.push(resolved);
            proof {
                assert(out.deep_view() =~= out0.push(
                    spec_resolve_argument(self@.args[i as int], input@, output@),
                ));
                assert(self@.args.take(i + 1) =~= self@.args.take(i as int).push(
                    self@.args[i as int],
                ));
                assert(out.deep_view() =~= spec_resolve_arguments(
                    self@.args.take(i + 1),
                    input@,
                    output@,
                ));
            }
        }
        proof {
            assert(self@.args.take(n as int) =~= self@.args);
        }
        out
    }
}

} // verus!
