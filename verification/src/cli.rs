//! The command line and the configuration.

use crate::capacity::{ConfigLimits, Limits};
use crate::policy::ExclusivePolicy;
use crate::text::{optional_text, same_text, slice_text, texts, trim, trimmed};
use vstd::prelude::*;
use vstd::string::StringExecFns;

verus! {

/// Where the board is kept unless the configuration says otherwise.
pub const DEFAULT_ROOT: &'static str = "/home/zcourts/projects/projects/.ai/message-board";

/// How a runner is set up.
#[derive(Debug)]
pub struct Config {
    pub zboard: String,
    pub board_root: String,
    pub runner: String,
    pub docker_builder: Option<String>,
    pub exclusive: ExclusivePolicy,
    pub limits: ConfigLimits,
}

impl Config {
    /// The limits that follow from the configuration.
    pub fn limits(&self) -> (limits: Limits)
        ensures
            limits == self.limits.effective(),
    {
        self.limits.limits()
    }
}

/// The board's program unless the configuration says otherwise.
pub fn default_zboard() -> (program: String)
    ensures
        program@ == "zboard"@,
{
    "zboard".to_owned()
}

/// Where the board is kept unless the configuration says otherwise.
pub fn default_root() -> (path: String)
    ensures
        path@ == DEFAULT_ROOT@,
{
    DEFAULT_ROOT.to_owned()
}

/// The name of a runner that is not configured: that of the host, where the host has one.
pub open spec fn runner_name(hostname: Option<Seq<char>>) -> Seq<char> {
    match hostname {
        Some(name) => trimmed(name),
        None => trimmed("debian1"@),
    }
}

/// The name of a runner that is not configured, from what the host's name file holds.
pub fn default_runner(hostname: Option<&str>) -> (name: String)
    ensures
        name@ == runner_name(slice_text(hostname)),
{
    match hostname {
        Some(name) => trim(name),
        None => trim("debian1"),
    }
}

/// What the program was asked to do.
#[derive(Debug, PartialEq, Eq)]
pub enum Invocation {
    /// Say how it is used.
    Help,
    /// Print an example of a job.
    ExampleJob,
    /// Run, with the configuration in this file where one is named.
    Daemon { config: Option<String> },
}

/// What an [`Invocation`] holds.
pub enum InvocationView {
    Help,
    ExampleJob,
    Daemon { config: Option<Seq<char>> },
}

impl View for Invocation {
    type V = InvocationView;

    open spec fn view(&self) -> InvocationView {
        match self {
            Invocation::Help => InvocationView::Help,
            Invocation::ExampleJob => InvocationView::ExampleJob,
            Invocation::Daemon { config } => InvocationView::Daemon {
                config: optional_text(*config),
            },
        }
    }
}

/// The configuration file that the options from `from` on name, the last one where several do, or
/// what is wrong with them.
pub open spec fn config_option(
    arguments: Seq<Seq<char>>,
    from: int,
    config: Option<Seq<char>>,
) -> Result<Option<Seq<char>>, Seq<char>>
    decreases arguments.len() - from,
{
    if from >= arguments.len() {
        Ok(config)
    } else if arguments[from] != "--config"@ {
        Err("unknown option '"@ + arguments[from] + "'"@)
    } else if from + 1 >= arguments.len() {
        Err("--config requires a path"@)
    } else {
        config_option(arguments, from + 2, Some(arguments[from + 1]))
    }
}

/// What the arguments ask for, or what is wrong with them.
pub open spec fn invocation(arguments: Seq<Seq<char>>) -> Result<InvocationView, Seq<char>> {
    if arguments.len() == 0 || arguments[0] == "help"@ || arguments[0] == "--help"@
        || arguments[0] == "-h"@ {
        Ok(InvocationView::Help)
    } else if arguments[0] == "example-job"@ {
        Ok(InvocationView::ExampleJob)
    } else if arguments[0] != "daemon"@ {
        Err("unknown command '"@ + arguments[0] + "'"@)
    } else {
        match config_option(arguments, 1, None) {
            Ok(config) => Ok(InvocationView::Daemon { config }),
            Err(fault) => Err(fault),
        }
    }
}

fn quoted(words: &str, text: &str) -> (message: String)
    ensures
        message@ == words@ + text@ + "'"@,
{
    let mut message = words.to_owned();
    message.append(text);
    message.append("'");
    message
}

/// Reads the arguments behind the program's name.
pub fn parse_arguments(arguments: &Vec<String>) -> (res: Result<Invocation, String>)
    ensures
        match invocation(texts(arguments@)) {
            Ok(asked) => res matches Ok(found) && found@ == asked,
            Err(fault) => res matches Err(message) && message@ == fault,
        },
{
    if arguments.len() == 0 {
        return Ok(Invocation::Help);
    }
    let command = arguments[0].as_str();
    assert(texts(arguments@)[0] == command@);
    if same_text(command, "help") || same_text(command, "--help") || same_text(command, "-h") {
        return Ok(Invocation::Help);
    }
    if same_text(command, "example-job") {
        return Ok(Invocation::ExampleJob);
    }
    if !same_text(command, "daemon") {
        return Err(quoted("unknown command '", command));
    }
    let mut config: Option<String> = None;
    let mut at: usize = 1;
    while at < arguments.len()
        invariant
            1 <= at <= arguments@.len(),
            config_option(texts(arguments@), at as int, optional_text(config)) == config_option(
                texts(arguments@),
                1,
                None,
            ),
            match config_option(texts(arguments@), 1, None) {
                Ok(file) => invocation(texts(arguments@)) == Ok::<InvocationView, Seq<char>>(
                    InvocationView::Daemon { config: file },
                ),
                Err(fault) => invocation(texts(arguments@)) == Err::<InvocationView, Seq<char>>(
                    fault,
                ),
            },
        decreases arguments.len() - at,
    {
        let flag = arguments[at].as_str();
        assert(texts(arguments@)[at as int] == flag@);
        if !same_text(flag, "--config") {
            return Err(quoted("unknown option '", flag));
        }
        if arguments.len() - at < 2 {
            return Err("--config requires a path".to_owned());
        }
        config = Some(arguments[at + 1].clone());
        assert(texts(arguments@)[at + 1] == arguments@[at + 1]@);
        at = at + 2;
    }
    Ok(Invocation::Daemon { config })
}

} // verus!
