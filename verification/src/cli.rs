//! The commands a user can give, as plain values.
use vstd::prelude::*;

use crate::action::{body, completion, config, cookie, copy, env, handle, history, init, ls, query, send, snippet, var};
use crate::snippet::Curl;

verus! {

/// A command line: the handle to run with, whether to apply the
/// environment early, and the command.
pub struct Cli {
    /// Run the command with this handle in place of the one in use.
    pub from_handle: Option<String>,
    /// Apply the environment to the endpoint as soon as it is read.
    pub apply_environment: bool,
    pub command: Cmd,
}

/// A command.
pub enum Cmd {
    /// Initialize a project.
    Init(init::Args),
    /// Send the request of the endpoint in use.
    Send(send::Args),
    /// Create a handle.
    Create(handle::CreateArgs),
    /// Switch handle or change its endpoint.
    Use(handle::SwitchArgs),
    /// List handles.
    Ls(ls::Args),
    /// Copy an endpoint to another handle.
    Cp(copy::CpArgs),
    /// Move handles.
    Mv(copy::MvArgs),
    /// Delete handles.
    Rm(handle::RmArgs),
    /// Print information about the endpoint.
    Show { command: ShowCmd },
    /// Edit the endpoint in use.
    Edit,
    /// Manage the query parameters of the endpoint in use.
    Query { command: QueryCmd },
    /// Manage the headers of the endpoint in use.
    Header { command: HeaderCmd },
    /// Manage the request body of the endpoint in use.
    Body(body::Args),
    /// Print the last request or response.
    Last { command: Option<LastCmd> },
    /// Print the recorded requests.
    History(history::Args),
    /// Manage environments.
    Env { command: EnvCmd },
    /// Manage the variables of the environment in use.
    Var { command: VarCmd },
    /// Manage the configuration.
    Config { command: ConfigCmd },
    /// Print a shell completion script.
    Completion(completion::CompletionArgs),
}

/// What `last` prints.
pub enum LastCmd {
    /// The handle of the last request.
    Handle,
    /// The last request.
    Req,
    /// The last response, or a part of it.
    Res { command: Option<LastResCmd> },
}

/// Which part of the last response `last res` prints.
pub enum LastResCmd {
    Head,
    Body,
}

/// A `query` command.
pub enum QueryCmd {
    /// Print a query parameter.
    Get(query::GetArgs),
    /// Set query parameters.
    Put(query::SetArgs),
    /// Remove query parameters.
    Rm(query::RmArgs),
    /// List the query parameters.
    Ls,
}

/// A `header` command.
pub enum HeaderCmd {
    /// Print a header.
    Get { key: String },
    /// Set headers, each `key: value`.
    Put { header: Vec<String> },
    /// Remove headers.
    Rm { key: Vec<String> },
    /// List the headers.
    Ls,
}

/// A `show` command.
pub enum ShowCmd {
    Url,
    Method,
    /// The headers, or one of them.
    Headers { key: Option<String> },
    /// The query string, or one parameter.
    Query { key: Option<String> },
    /// The request body.
    Body,
    /// The handle in use.
    Handle,
    /// The environment in use.
    Env,
    /// The cookies of the environment.
    Cookies(cookie::PrintArgs),
    /// A code snippet for the request.
    Snippet(snippet::Args),
    /// The endpoint's file.
    Endpoint,
}

/// Which snippet `show snippet` prints.
pub enum SnippetCmd {
    Curl(Curl),
    Http,
}

/// A `config` command.
pub enum ConfigCmd {
    /// Edit the configuration file.
    Edit,
    /// Print a configuration value.
    Get(config::GetArgs),
    /// Set a configuration value.
    Put(config::SetArgs),
    /// Print the configuration file.
    Ls,
}

/// A `body` command.
pub enum BodyCmd {
    /// Print the request body.
    Show,
    /// Read a new request body from standard input.
    Stdin,
    /// Edit the request body.
    Edit,
}

/// An `env` command.
pub enum EnvCmd {
    Create(env::CreateArgs),
    Use(env::SwitchArgs),
    Ls,
    Cp(env::CpArgs),
    Rm(env::RmArgs),
    Header { command: HeaderEnvCmd },
}

/// An `env header` command.
pub enum HeaderEnvCmd {
    Put { headers: Vec<String> },
    Ls,
    Rm(env::HeaderRmArgs),
}

/// A `var` command.
pub enum VarCmd {
    /// Edit the variables file.
    Edit,
    Get(var::GetArgs),
    Put(var::SetArgs),
    Rm(var::RmArgs),
    Ls,
}

} // verus!
