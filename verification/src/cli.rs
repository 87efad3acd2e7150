//! What the command line asks for.

use crate::text::same_text;
use crate::text::views;
use vstd::prelude::*;

verus! {

/// What the program is asked to do.
#[derive(Debug, Clone, Copy, PartialEq, Eq, Structural)]
pub enum OptCommand {
    Validate,
    Dump,
    Check,
    Graph,
    ExampleConfig,
}

/// How results are written.
#[derive(Debug, Clone, Copy, PartialEq, Eq, Structural)]
pub enum OutputFormat {
    Plain,
    Json,
}

/// The settings of one run.
#[derive(Debug)]
pub struct Opts {
    pub command: OptCommand,
    pub config_file: String,
    pub root_dir: String,
    pub output: OutputFormat,
}

/// The mathematical value of an `Opts`.
pub struct OptsView {
    pub command: OptCommand,
    pub config_file: Seq<char>,
    pub root_dir: Seq<char>,
    pub output: OutputFormat,
}

impl View for Opts {
    type V = OptsView;

    open spec fn view(&self) -> OptsView {
        OptsView {
            command: self.command,
            config_file: self.config_file@,
            root_dir: self.root_dir@,
            output: self.output,
        }
    }
}

/// The command that the word `value` names.
pub open spec fn command_of(value: Seq<char>) -> Option<OptCommand> {
    if value == "validate"@ {
        Some(OptCommand::Validate)
    } else if value == "dump"@ {
        Some(OptCommand::Dump)
    } else if value == "check"@ {
        Some(OptCommand::Check)
    } else if value == "graph"@ {
        Some(OptCommand::Graph)
    } else if value == "example"@ {
        Some(OptCommand::ExampleConfig)
    } else {
        None
    }
}

/// The format that the word `value` names, or what to say of a word that
/// names none.
pub open spec fn format_of(value: Seq<char>) -> Result<OutputFormat, Seq<char>> {
    if value == "plain"@ {
        Ok(OutputFormat::Plain)
    } else if value == "json"@ {
        Ok(OutputFormat::Json)
    } else {
        Err("invalid output format (valid: json, plain)"@)
    }
}

/// The text of an option, or `default` where the option was not given.
pub open spec fn or_default(value: Option<String>, default: Seq<char>) -> Seq<char> {
    match value {
        Some(text) => text@,
        None => default,
    }
}

/// The settings that the arguments ask for, or what to say of arguments that
/// ask for none.
///
/// Exactly one free argument names the command. The number of free arguments
/// is looked at first, then the output format, then the command.
pub open spec fn opts_of(
    free: Seq<Seq<char>>,
    config: Option<String>,
    dir: Option<String>,
    output: Option<String>,
) -> Result<OptsView, Seq<char>> {
    if free.len() == 0 {
        Err("missing command"@)
    } else if free.len() > 1 {
        Err("multiple commands are not supported"@)
    } else {
        match format_of(or_default(output, "plain"@)) {
            Err(message) => Err(message),
            Ok(format) => match command_of(free[0]) {
                None => Err("unknown command"@),
                Some(command) => Ok(
                    OptsView {
                        command,
                        config_file: or_default(config, "flcheck.yaml"@),
                        root_dir: or_default(dir, "."@),
                        output: format,
                    },
                ),
            },
        }
    }
}

impl OptCommand {
    /// The command that the word `value` names.
    pub fn from(value: &str) -> (command: Option<OptCommand>)
        ensures
            command == command_of(value@),
    {
        if same_text(value, "validate") {
            Some(OptCommand::Validate)
        } else if same_text(value, "dump") {
            Some(OptCommand::Dump)
        } else if same_text(value, "check") {
            Some(OptCommand::Check)
        } else if same_text(value, "graph") {
            Some(OptCommand::Graph)
        } else if same_text(value, "example") {
            Some(OptCommand::ExampleConfig)
        } else {
            None
        }
    }
}

/// The format that the word `value` names.
pub fn parse_format(value: &str) -> (format: Result<OutputFormat, &'static str>)
    ensures
        match format_of(value@) {
            Ok(f) => format == Ok::<OutputFormat, &'static str>(f),
            Err(message) => format is Err && format->Err_0@ == message,
        },
{
    if same_text(value, "plain") {
        Ok(OutputFormat::Plain)
    } else if same_text(value, "json") {
        Ok(OutputFormat::Json)
    } else {
        Err("invalid output format (valid: json, plain)")
    }
}

/// The text of an option, or `default` where the option was not given.
pub fn value_or(value: Option<String>, default: &str) -> (text: String)
    ensures
        text@ == or_default(value, default@),
{
    match value {
        Some(text) => text,
        None => default.to_owned(),
    }
}

/// The settings that the arguments ask for: `free` holds the arguments that
/// are no options, the others hold the values of the options `config`,
/// `dir` and `output` where they were given.
pub fn get_opts(
    free: &Vec<String>,
    config: Option<String>,
    dir: Option<String>,
    output: Option<String>,
) -> (r: Result<Opts, &'static str>)
    ensures
        match opts_of(views(free@), config, dir, output) {
            Ok(opts) => r is Ok && r->Ok_0@ == opts,
            Err(message) => r is Err && r->Err_0@ == message,
        },
{
    if free.len() == 0 {
        return Err("missing command");
    }
    if free.len() > 1 {
        return Err("multiple commands are not supported");
    }
    let output_format = value_or(output, "plain");
    let format = match parse_format(output_format.as_str()) {
        Ok(format) => format,
        Err(message) => {
            return Err(message);
        },
    };
    assert(views(free@)[0] == free@[0]@);
    match OptCommand::from(free[0].as_str()) {
        Some(command) => Ok(
            Opts {
                command,
                config_file: value_or(config, "flcheck.yaml"),
                root_dir: value_or(dir, "."),
                output: format,
            },
        ),
        None => Err("unknown command"),
    }
}

} // verus!
