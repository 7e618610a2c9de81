//! Building and organizing HTTP requests: the logic of the `quartz` command
//! line tool, with its contracts proved by Verus.
pub mod text;
pub mod strmap;
pub mod context;
pub mod endpoint;
pub mod uri;
pub mod cookie;
pub mod history;
pub mod snippet;
pub mod project;
pub mod config;
pub mod state;
pub mod tree;
pub mod validator;
pub mod action;
pub mod cli;
pub mod edit;
pub mod form;
pub mod paint;
pub mod laws;

use vstd::prelude::*;

use crate::config::{Config, SystemEnv};
use crate::context::Context;
use crate::endpoint::{same_endpoint, subst_all, subst_entries, Endpoint, EndpointHandle};
use crate::project::Project;
use crate::state::State;
use crate::strmap::StrMap;
use crate::text::{
    concat3, owned, push_str, split_on, split_once_at_char, split_once_char, str_is_empty,
    trim_char, trim_matches_char,
};

verus! {

/// Exit status of a run.
#[derive(PartialEq, Eq, Structural, Clone, Copy, Debug)]
pub enum QuartzCode {
    Success,
    Error,
}

/// Why an action could not be carried out.
#[derive(Debug)]
pub enum QuartzError {
    /// Something the project layout does not allow.
    Internal,
    /// A refusal with a message for the user.
    Message(String),
}

/// A `key=value` pair: the key before the first `=`, the value after it
/// without surrounding single quotes, then without surrounding double quotes.
pub open spec fn spec_eq_pair(input: Seq<char>) -> Option<(Seq<char>, Seq<char>)> {
    match split_once_char(input, '=') {
        Some((k, v)) => Some((k, trim_char(trim_char(v, '\''), '"'))),
        None => None,
    }
}

/// Breaks `input` into a `key=value` pair.
pub fn eq_pair(input: &str) -> (res: Option<(String, String)>)
    ensures
        match spec_eq_pair(input@) {
            Some((k, v)) => res matches Some((a, b)) && a@ == k && b@ == v,
            None => res is None,
        },
{
    match split_once_at_char(input, '=') {
        Some((key, value)) => {
            let value = trim_matches_char(value.as_str(), '\'');
            let value = trim_matches_char(value.as_str(), '"');
            Some((key, value))
        },
        None => None,
    }
}

/// A map of text pairs that can be filled from `key<sep>value` inputs.
pub trait PairMap: Sized {
    /// How an input breaks into a key and a value.
    spec fn spec_pair(input: Seq<char>) -> Option<(Seq<char>, Seq<char>)>;

    /// The entries of the map.
    spec fn spec_map(&self) -> Map<Seq<char>, Seq<char>>;

    /// What the pairs are called, for messages.
    fn name() -> (res: String);

    /// The form an input must have, for messages.
    fn expected() -> (res: String);

    /// The underlying map.
    fn map(&self) -> (res: &StrMap)
        ensures
            res.map() == self.spec_map(),
    ;

    /// Breaks `input` into a key and a value.
    fn pair(input: &str) -> (res: Option<(String, String)>)
        ensures
            match Self::spec_pair(input@) {
                Some((k, v)) => res matches Some((a, b)) && a@ == k && b@ == v,
                None => res is None,
            },
    ;

    /// Inserts the pair that `input` holds.
    fn set(&mut self, input: &str)
        requires
            Self::spec_pair(input@) is Some,
        ensures
            final(self).spec_map() == old(self).spec_map().insert(
                (Self::spec_pair(input@)->0).0,
                (Self::spec_pair(input@)->0).1,
            ),
    ;
}

/// Arguments that change how a run resolves its endpoint.
pub struct CtxArgs {
    pub from_handle: Option<String>,
    pub early_apply_environment: bool,
}

/// The result of an action.
pub type QuartzResult<T = ()> = Result<T, QuartzError>;

/// The version of this program.
pub open spec fn spec_version() -> Seq<char> {
    seq!['0', '.', '8', '.', '0']
}

/// A refusal with the message `a b c`.
pub fn refuse(a: &str, b: &str, c: &str) -> (res: QuartzError)
    ensures
        res matches QuartzError::Message(m) && m@ == a@ + b@ + c@,
{
    QuartzError::Message(concat3(a, b, c))
}

/// Everything an action works with: the arguments, the configuration, the
/// project's contents and state, and the text it prints.
pub struct Ctx {
    pub args: CtxArgs,
    pub config: Config,
    pub state: State,
    /// The project directory.
    pub path: String,
    /// The exit status so far.
    pub code: QuartzCode,
    /// The project's contents.
    pub project: Project,
    /// What the process environment says.
    pub system: SystemEnv,
    /// What the action prints.
    pub stdout: String,
    /// What the action prints as diagnostics.
    pub stderr: String,
}

impl Ctx {
    /// Whether output is coloured: never when `$NO_COLOR` is set, else as
    /// configured, else yes.
    pub open spec fn colors_on(&self) -> bool {
        !self.system.no_color && match self.config.ui.spec_colors() {
            Some(c) => c,
            None => true,
        }
    }

    /// Whether output is coloured.
    pub fn colors(&self) -> (res: bool)
        ensures
            res == self.colors_on(),
    {
        self.config.ui.colors(self.system.no_color)
    }

    /// The project directory.
    pub open spec fn spec_path(&self) -> Seq<char> {
        self.path@
    }

    /// The exit status so far.
    pub open spec fn spec_code(&self) -> QuartzCode {
        self.code
    }

    /// A context for the project at `path` (its `.quartz` directory).
    pub fn new(args: CtxArgs, config: Config, path: &str, project: Project, system: SystemEnv) -> (res: Ctx)
        ensures
            res.args == args,
            res.config == config,
            res.project == project,
            res.system == system,
            res.state.handle == args.from_handle,
            res.state.previous_handle is None,
            res.spec_path() == path@,
            res.spec_code() == QuartzCode::Success,
            res.stdout@.len() == 0,
            res.stderr@.len() == 0,
    {
        let handle = args.from_handle.clone();
        Ctx {
            args,
            config,
            state: State { handle, previous_handle: None },
            path: owned(path),
            code: QuartzCode::Success,
            project,
            system,
            stdout: String::new(),
            stderr: String::new(),
        }
    }

    /// The handle in use, as written: the one given on the command line,
    /// else the recorded one when not empty.
    pub open spec fn current_handle(&self) -> Option<Seq<char>> {
        match self.args.from_handle {
            Some(h) => Some(h@),
            None => match self.project.state_endpoint {
                Some(s) => if s@.len() > 0 {
                    Some(s@)
                } else {
                    None
                },
                None => None,
            },
        }
    }

    /// The name of the environment in use: the recorded one, else
    /// `default`.
    pub open spec fn env_name(&self) -> Seq<char> {
        match self.project.state_env {
            Some(s) => s@,
            None => seq!['d', 'e', 'f', 'a', 'u', 'l', 't'],
        }
    }

    /// `r` is the endpoint `stored` as a run sees it: with the variables of
    /// the environment in use applied when asked to, else as stored.
    pub open spec fn resolved(&self, stored: Endpoint, r: Endpoint) -> bool {
        if self.args.early_apply_environment {
            exists|env: Context| #![trigger env.variables.0.pairs()]
                env.name@ == self.env_name() && (match self.project.env(self.env_name()) {
                    Some(c) => env.variables.0.pairs() == c.variables.0.pairs(),
                    None => env.variables.0.pairs().len() == 0,
                }) && r.url@ == subst_all(stored.url@, env.variables.0.pairs())
                    && r.method@ == subst_all(stored.method@, env.variables.0.pairs())
                    && r.headers.0.pairs() == subst_entries(stored.headers.0.pairs(), env.variables.0.pairs())
                    && r.query.0.pairs() == subst_entries(stored.query.0.pairs(), env.variables.0.pairs())
                    && r.path@ == stored.path@
        } else {
            same_endpoint(r, stored)
        }
    }

    /// The handle written `handle`, which exists.
    pub fn require_input_handle(&self, handle: &str) -> (res: QuartzResult<EndpointHandle>)
        requires
            self.project.has(split_on(handle@, '/')),
        ensures
            res matches Ok(h) && h.segments() == split_on(handle@, '/'),
    {
        Ok(EndpointHandle::from(handle))
    }

    /// The handle in use, if there is one: the command line's, else the
    /// recorded one when not empty.
    pub fn handle_in_use(&self) -> (res: Option<EndpointHandle>)
        ensures
            match self.current_handle() {
                Some(t) => res matches Some(h) && h.segments() == split_on(t, '/'),
                None => res is None,
            },
    {
        if let Some(handle) = &self.args.from_handle {
            return Some(EndpointHandle::from(handle.as_str()));
        }
        if let Some(handle) = &self.project.state_endpoint {
            if !str_is_empty(handle.as_str()) {
                return Some(EndpointHandle::from(handle.as_str()));
            }
        }
        None
    }

    /// The handle in use, when there is one.
    pub fn require_handle(&self) -> (res: QuartzResult<EndpointHandle>)
        requires
            self.current_handle() is Some,
        ensures
            res matches Ok(h) && h.segments() == split_on(self.current_handle()->0, '/'),
    {
        match self.handle_in_use() {
            Some(h) => Ok(h),
            None => Err(refuse("no handle in use. Try ", "quartz use <HANDLE>", "")),
        }
    }

    /// Whether `handle` exists and has an endpoint.
    pub fn has_endpoint(&self, handle: &EndpointHandle) -> (res: bool)
        ensures
            res == (self.project.lookup(handle.segments()) matches Some(e) && e.endpoint is Some),
    {
        match self.project.find(&handle.path) {
            Some(i) => {
                proof {
                    crate::project::lemma_handle_index(self.project.handles@, handle.segments());
                }
                self.project.handles[i].endpoint.is_some()
            },
            None => {
                proof {
                    crate::project::lemma_handle_index(self.project.handles@, handle.segments());
                }
                false
            },
        }
    }

    /// The environment in use: its recorded contents, or an empty one of
    /// that name.
    pub fn require_env(&self) -> (res: Context)
        ensures
            res.name@ == self.env_name(),
            match self.project.env(self.env_name()) {
                Some(c) => res.variables.0.pairs() == c.variables.0.pairs()
                    && res.headers.0.pairs() == c.headers.0.pairs(),
                None => res.variables.0.pairs().len() == 0 && res.headers.0.pairs().len() == 0,
            },
    {
        proof {
            reveal_strlit("default");
            assert("default"@ =~= seq!['d', 'e', 'f', 'a', 'u', 'l', 't']);
        }
        let name = match &self.project.state_env {
            Some(s) => s.clone(),
            None => owned("default"),
        };
        proof {
            crate::project::lemma_env_index(self.project.envs@, name@);
        }
        match self.project.find_env(name.as_str()) {
            Some(i) => self.project.envs[i].duplicate(),
            None => Context::new(name.as_str()),
        }
    }

    /// The endpoint of `handle`, which has one, with the environment in use
    /// applied when asked to.
    pub fn require_endpoint_from_handle(&self, handle: &EndpointHandle) -> (res: QuartzResult<Endpoint>)
        requires
            self.project.lookup(handle.segments()) matches Some(e) && e.endpoint is Some,
        ensures
            res matches Ok(r) && self.resolved(self.project.lookup(handle.segments())->0.endpoint->0, r),
    {
        let i = match self.project.find(&handle.path) {
            Some(i) => i,
            None => {
                let h = handle.handle();
                return Err(refuse("no endpoint at ", h.as_str(), ""));
            },
        };
        let mut endpoint = match &self.project.handles[i].endpoint {
            Some(e) => e.duplicate(),
            None => {
                let h = handle.handle();
                return Err(refuse("no endpoint at ", h.as_str(), ""));
            },
        };
        if self.args.early_apply_environment {
            let env = self.require_env();
            endpoint.apply_env(&env);
        }
        Ok(endpoint)
    }

    /// The handle in use and its endpoint, which it has.
    pub fn require_endpoint(&self) -> (res: QuartzResult<(EndpointHandle, Endpoint)>)
        requires
            self.current_handle() matches Some(t) && self.project.lookup(split_on(t, '/')) matches Some(e)
                && e.endpoint is Some,
        ensures
            res matches Ok((h, r)) && h.segments() == split_on(self.current_handle()->0, '/') && self.resolved(
                self.project.lookup(h.segments())->0.endpoint->0,
                r,
            ),
    {
        let handle = self.require_handle()?;
        let endpoint = self.require_endpoint_from_handle(&handle)?;
        Ok((handle, endpoint))
    }

    /// The temporary file in which the file `path` is edited: `user/EDIT`
    /// under the project directory, with the extension given, else the one
    /// of `path`.
    pub fn edit_with_extension(&self, path: &str, extension: Option<&str>) -> (res: String)
        requires
            path@.len() < 0x7fff_ffff_ffff_ffff,
        ensures
            res@ == crate::edit::temp_path(
                self.path@,
                path@,
                match extension {
                    Some(e) => Some(e@),
                    None => None,
                },
            ),
    {
        crate::edit::temp_file(self.path.as_str(), path, extension)
    }

    /// The temporary file in which the file `path` is edited, with the
    /// extension of `path`.
    pub fn edit(&self, path: &str) -> (res: String)
        requires
            path@.len() < 0x7fff_ffff_ffff_ffff,
        ensures
            res@ == crate::edit::temp_path(self.path@, path@, None),
    {
        self.edit_with_extension(path, None)
    }

    /// The `User-Agent` this program sends.
    pub fn user_agent() -> (res: String)
        ensures
            res@ == seq!['q', 'u', 'a', 'r', 't', 'z', '/'] + spec_version(),
    {
        proof {
            reveal_strlit("quartz/");
            reveal_strlit("0.8.0");
        }
        let mut agent = owned("quartz/");
        push_str(&mut agent, "0.8.0");
        agent
    }

    /// The project directory.
    pub fn path(&self) -> (res: &str)
        ensures
            res@ == self.spec_path(),
    {
        self.path.as_str()
    }

    /// Sets the exit status.
    pub fn code(&mut self, value: QuartzCode)
        ensures
            final(self).spec_code() == value,
            final(self).project == old(self).project,
            final(self).stdout == old(self).stdout,
            final(self).stderr == old(self).stderr,
            final(self).args == old(self).args,
            final(self).config == old(self).config,
            final(self).state == old(self).state,
            final(self).system == old(self).system,
            final(self).spec_path() == old(self).spec_path(),
    {
        self.code = value;
    }

    /// The exit status.
    pub fn exit_code(&self) -> (res: QuartzCode)
        ensures
            res == self.spec_code(),
    {
        self.code
    }

    /// Prints `s`.
    pub fn print(&mut self, s: &str)
        ensures
            final(self).stdout@ == old(self).stdout@ + s@,
            final(self).project == old(self).project,
            final(self).stderr == old(self).stderr,
            final(self).args == old(self).args,
            final(self).config == old(self).config,
            final(self).state == old(self).state,
            final(self).system == old(self).system,
            final(self).spec_code() == old(self).spec_code(),
            final(self).spec_path() == old(self).spec_path(),
    {
        push_str(&mut self.stdout, s);
    }

    /// Prints `s` as a diagnostic.
    pub fn eprint(&mut self, s: &str)
        ensures
            final(self).stderr@ == old(self).stderr@ + s@,
            final(self).project == old(self).project,
            final(self).stdout == old(self).stdout,
            final(self).args == old(self).args,
            final(self).config == old(self).config,
            final(self).state == old(self).state,
            final(self).system == old(self).system,
            final(self).spec_code() == old(self).spec_code(),
            final(self).spec_path() == old(self).spec_path(),
    {
        push_str(&mut self.stderr, s);
    }
}

} // verus!
