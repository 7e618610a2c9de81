//! Which handle and environment are in use.
use vstd::prelude::*;

use crate::project::Project;
use crate::text::{owned, push_str};

verus! {

/// The recorded state values.
pub enum StateField {
    Endpoint,
    PreviousEndpoint,
    Env,
}

/// State given on the command line, which overrides the recorded state.
pub struct State {
    pub handle: Option<String>,
    pub previous_handle: Option<String>,
}

/// The recorded value of a field.
pub open spec fn field_value(p: &Project, f: StateField) -> Option<String> {
    match f {
        StateField::Endpoint => p.state_endpoint,
        StateField::PreviousEndpoint => p.state_previous,
        StateField::Env => p.state_env,
    }
}

/// The file name of each field.
pub open spec fn field_file(f: StateField) -> Seq<char> {
    match f {
        StateField::Endpoint => seq!['e', 'n', 'd', 'p', 'o', 'i', 'n', 't'],
        StateField::Env => seq!['e', 'n', 'v'],
        StateField::PreviousEndpoint => seq![
            'p',
            'r',
            'e',
            'v',
            'i',
            'o',
            'u',
            's',
            '-',
            'e',
            'n',
            'd',
            'p',
            'o',
            'i',
            'n',
            't',
        ],
    }
}

impl StateField {
    /// The state directory, under the project directory.
    pub open spec fn state_dir() -> Seq<char> {
        seq!['u', 's', 'e', 'r', '/', 's', 't', 'a', 't', 'e']
    }

    /// The file of the field under the project directory `root`.
    pub fn file_path(&self, root: &str) -> (res: String)
        ensures
            res@ == root@ + seq!['/'] + Self::state_dir() + seq!['/'] + field_file(*self),
    {
        let mut p = owned(root);
        push_str(&mut p, "/user/state/");
        let name = match self {
            StateField::Endpoint => "endpoint",
            StateField::Env => "env",
            StateField::PreviousEndpoint => "previous-endpoint",
        };
        push_str(&mut p, name);
        proof {
            reveal_strlit("/user/state/");
            reveal_strlit("endpoint");
            reveal_strlit("env");
            reveal_strlit("previous-endpoint");
        }
        assert(p@ =~= root@ + seq!['/'] + Self::state_dir() + seq!['/'] + field_file(*self));
        p
    }

    /// The recorded value of the field, if any.
    pub fn get(&self, project: &Project) -> (res: Option<String>)
        ensures
            res == field_value(project, *self),
    {
        match self {
            StateField::Endpoint => project.state_endpoint.clone(),
            StateField::PreviousEndpoint => project.state_previous.clone(),
            StateField::Env => project.state_env.clone(),
        }
    }

    /// Records `value` for the field.
    pub fn set(&self, project: &mut Project, value: &str)
        ensures
            field_value(final(project), *self) matches Some(v) && v@ == value@,
            final(project).handles == old(project).handles,
            final(project).envs == old(project).envs,
            final(project).history == old(project).history,
            *self != StateField::Endpoint ==> final(project).state_endpoint == old(project).state_endpoint,
            *self != StateField::PreviousEndpoint ==> final(project).state_previous == old(project).state_previous,
            *self != StateField::Env ==> final(project).state_env == old(project).state_env,
    {
        match self {
            StateField::Endpoint => project.state_endpoint = Some(owned(value)),
            StateField::PreviousEndpoint => project.state_previous = Some(owned(value)),
            StateField::Env => project.state_env = Some(owned(value)),
        }
    }
}

impl State {
    /// The value of the field: the command line's handle for the endpoint
    /// when given, else the recorded value.
    pub fn get(&self, project: &Project, field: StateField) -> (res: Option<String>)
        ensures
            res == match (field, self.handle) {
                (StateField::Endpoint, Some(h)) => Some(h),
                _ => field_value(project, field),
            },
    {
        if let StateField::Endpoint = field {
            if let Some(h) = &self.handle {
                return Some(h.clone());
            }
        }
        field.get(project)
    }
}

} // verus!
