//! External command execution with configurable I/O handling: the
//! configuration data and its display form.  Running the command and
//! piping its streams is the caller's.
use vstd::prelude::*;

use crate::buffer::{chars_of, push_char};
use crate::editor::is_control_char;
use crate::vec_map::VecMap;

verus! {

/// Configuration for executing an external command.
pub struct ExternalCommand {
    /// Path to the executable.
    pub command: String,
    /// Command line arguments.
    pub args: Vec<String>,
    /// Environment variables to set.
    pub envs: VecMap<String, String>,
    /// Where the command's stdin comes from.
    pub stdin: CommandInput,
    /// Where the command's stdout goes.
    pub stdout: CommandOutput,
    /// Where the command's stderr goes.
    pub stderr: CommandOutput,
}

/// Where a command's stdin comes from.
pub enum CommandInput {
    /// No input.
    Null,
    /// A text string.
    Text {
        /// The text written to stdin.
        text: String,
    },
    /// A file's contents.
    File {
        /// The file piped to stdin.
        path: String,
    },
}

/// Where a command's output stream goes.
pub enum CommandOutput {
    /// Discarded.
    Null,
    /// Written to a file.
    File {
        /// The output file.
        path: String,
        /// Whether to append to existing content.
        append: bool,
        /// Whether to skip writing when the output is empty.
        skip_if_empty: bool,
        /// Whether to skip writing when the command succeeded.
        skip_if_success: bool,
    },
}

impl CommandOutput {
    /// Whether the configuration writes the output: a file sink does,
    /// unless one of its skip rules applies.
    pub fn should_write(&self, output_empty: bool, success: bool) -> (r: bool)
        ensures
            r == match *self {
                CommandOutput::Null => false,
                CommandOutput::File { path, append, skip_if_empty, skip_if_success } => !(
                skip_if_empty && output_empty) && !(skip_if_success && success),
            },
    {
        match self {
            CommandOutput::Null => false,
            CommandOutput::File { path, append, skip_if_empty, skip_if_success } => {
                if *skip_if_empty && output_empty {
                    return false;
                }
                if *skip_if_success && success {
                    return false;
                }
                true
            },
        }
    }
}

/// Whether the argument must be quoted on a display line: it is empty or
/// holds a space or a control character.
pub open spec fn arg_needs_quoting(s: Seq<char>) -> bool {
    s.len() == 0 || exists|i: int| 0 <= i < s.len() && (s[i] == ' ' || is_control_char(#[trigger] s[i]))
}

/// The displayed form of one argument: quoted with backslash escapes for
/// quotes and backslashes when quoting is called for, verbatim otherwise.
pub open spec fn displayed_arg(s: Seq<char>) -> Seq<char> {
    if arg_needs_quoting(s) {
        seq!['"'] + escaped(s) + seq!['"']
    } else {
        s
    }
}

/// Backslash-escaping of quotes and backslashes.
pub open spec fn escaped(s: Seq<char>) -> Seq<char>
    decreases s.len(),
{
    if s.len() == 0 {
        Seq::empty()
    } else {
        escaped(s.drop_last()) + (if s.last() == '"' || s.last() == '\\' {
            seq!['\\', s.last()]
        } else {
            seq![s.last()]
        })
    }
}

/// The displayed command line: the command and each argument, separated
/// by single spaces, arguments quoted where needed.
pub open spec fn command_line_text(cmd: Seq<char>, args: Seq<Seq<char>>) -> Seq<char>
    decreases args.len(),
{
    if args.len() == 0 {
        cmd
    } else {
        command_line_text(cmd, args.drop_last()) + seq![' '] + displayed_arg(args.last())
    }
}

impl ExternalCommand {
    /// A displayable command line combining the command and its
    /// arguments.
    pub fn command_line(&self) -> (r: String)
        ensures
            r@ == command_line_text(self.command@, self.args.deep_view()),
    {
        let mut s: String = self.command.clone();
        let ghost argseq = self.args.deep_view();
        let mut i: usize = 0;
        while i < self.args.len()
            invariant
                i <= self.args@.len(),
                argseq == self.args.deep_view(),
                argseq.len() == self.args@.len(),
                s@ == command_line_text(self.command@, argseq.take(i as int)),
        decreases self.args@.len() - i,
        {
            push_char(&mut s, ' ');
            let shown = display_one_arg(&self.args[i]);
            s.append(shown.as_str());
            proof {
                assert(self.args@[i as int]@ == argseq[i as int]);
                assert(argseq.take(i + 1).drop_last() =~= argseq.take(i as int));
                assert(s@ =~= command_line_text(self.command@, argseq.take(i + 1)));
            }
            i = i + 1;
        }
        proof {
            assert(argseq.take(argseq.len() as int) =~= argseq);
        }
        s
    }
}

fn display_one_arg(arg: &String) -> (r: String)
    ensures
        r@ == displayed_arg(arg@),
{
    let chars = chars_of(arg.as_str());
    let mut needs = chars.len() == 0;
    let mut i: usize = 0;
    while i < chars.len()
        invariant
            i <= chars@.len(),
            chars@ == arg@,
            needs == (arg@.len() == 0 || exists|j: int|
                0 <= j < i && (arg@[j] == ' ' || is_control_char(#[trigger] arg@[j]))),
    decreases chars@.len() - i,
    {
        let c = chars[i];
        if c == ' ' || is_control_exec_cmd(c) {
            needs = true;
            proof {
                assert(arg@[i as int] == ' ' || is_control_char(arg@[i as int]));
            }
        }
        i = i + 1;
    }
    if !needs {
        return arg.clone();
    }
    let mut s = String::new();
    push_char(&mut s, '"');
    let ghost opened = s@;
    let mut k: usize = 0;
    while k < chars.len()
        invariant
            k <= chars@.len(),
            chars@ == arg@,
            s@ == opened + escaped(arg@.take(k as int)),
    decreases chars@.len() - k,
    {
        let c = chars[k];
        if c == '"' || c == '\\' {
            push_char(&mut s, '\\');
        }
        push_char(&mut s, c);
        proof {
            assert(arg@.take(k + 1).drop_last() =~= arg@.take(k as int));
            assert(arg@.take(k + 1).last() == arg@[k as int]);
            assert(s@ =~= opened + escaped(arg@.take(k + 1)));
        }
        k = k + 1;
    }
    push_char(&mut s, '"');
    proof {
        assert(arg@.take(arg@.len() as int) =~= arg@);
        assert(s@ =~= displayed_arg(arg@));
    }
    s
}

fn is_control_exec_cmd(c: char) -> (r: bool)
    ensures
        r == is_control_char(c),
{
    let u = c as u32;
    u < 32 || (127 <= u && u <= 159)
}

} // verus!
