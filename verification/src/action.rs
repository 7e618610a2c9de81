//! The commands of the program, each a function of the run's context.
//!
//! An action reads and changes the project held by the context and appends
//! what it prints to the context's output. A refused request is answered
//! with an error and leaves the context as it was.
pub mod body;
pub mod completion;
pub mod config;
pub mod cookie;
pub mod copy;
pub mod env;
pub mod handle;
pub mod header;
pub mod history;
pub mod init;
pub mod last;
pub mod ls;
pub mod pairs;
pub mod query;
pub mod send;
pub mod show;
pub mod snippet;
pub mod var;

use vstd::prelude::*;

use crate::endpoint::{
    fold_colon_pairs, fold_eq_pairs, patch_well_formed, Endpoint, EndpointHandle, EndpointPatch, Headers, Query,
};
use crate::project::{is_prefix, Project};
use crate::text::{split_on, views};
use crate::{refuse, Ctx, QuartzError, QuartzResult};
use crate::action::pairs::{all_pairs, first_bad};
use crate::cli::{BodyCmd, Cmd, ConfigCmd, EnvCmd, HeaderCmd, QueryCmd, ShowCmd, VarCmd};
use crate::context::{Context, Variables};
use crate::endpoint::{subst_all, subst_entries};

verus! {

/// The two contexts agree on everything but the project, the output and the
/// exit status.
pub open spec fn same_settings(a: &Ctx, b: &Ctx) -> bool {
    &&& a.args == b.args
    &&& a.config == b.config
    &&& a.state == b.state
    &&& a.system == b.system
    &&& a.path@ == b.path@
}

/// `r` is the endpoint `base` (or, when there is none, a `GET` endpoint with
/// nothing else at `dir`) with `patch` applied.
pub open spec fn patched_from(r: Endpoint, base: Option<Endpoint>, dir: Seq<char>, patch: &EndpointPatch) -> bool {
    let method = match base {
        Some(b) => b.method@,
        None => seq!['G', 'E', 'T'],
    };
    let url = match base {
        Some(b) => b.url@,
        None => Seq::<char>::empty(),
    };
    let query = match base {
        Some(b) => b.query.0.map(),
        None => Map::<Seq<char>, Seq<char>>::empty(),
    };
    let headers = match base {
        Some(b) => b.headers.0.map(),
        None => Map::<Seq<char>, Seq<char>>::empty(),
    };
    let path = match base {
        Some(b) => b.path@,
        None => dir,
    };
    &&& r.method@ == (match patch.method {
        Some(m) => m@,
        None => method,
    })
    &&& r.url@ == (match patch.url {
        Some(u) => u@,
        None => url,
    })
    &&& r.query.0.map() == fold_eq_pairs(query, views(patch.query@))
    &&& r.headers.0.map() == fold_colon_pairs(headers, views(patch.headers@))
    &&& r.path@ == path
}

/// Whether applying the patch changes anything.
pub open spec fn patch_changes(patch: &EndpointPatch) -> bool {
    patch.url is Some || patch.method is Some || patch.query@.len() > 0 || patch.headers@.len() > 0
}

/// `after` is `before` with the handle `p` and its missing non-empty
/// prefixes created; the prefixes are empty and nothing else but `p` changed.
pub open spec fn grown(before: &Project, after: &Project, p: Seq<Seq<char>>) -> bool {
    &&& forall|q: Seq<Seq<char>>|
        q != p && before.has(q) ==> #[trigger] after.lookup(q) == before.lookup(q)
    &&& forall|q: Seq<Seq<char>>|
        !before.has(q) ==> (#[trigger] after.has(q) <==> (q.len() >= 1 && is_prefix(q, p)))
    &&& forall|q: Seq<Seq<char>>|
        q != p && !before.has(q) && #[trigger] after.has(q) ==> after.lookup(q)->0.endpoint is None
            && after.lookup(q)->0.body is None
    &&& after.envs == before.envs
    &&& after.state_previous == before.state_previous
    &&& after.state_env == before.state_env
    &&& after.history == before.history
}

/// The refusal of a malformed pair: of a header when `is_header`, else of a
/// query parameter.
pub fn malformed(is_header: bool) -> (res: QuartzError)
    ensures
        res matches QuartzError::Message(m) && m@ == (if is_header {
            malformed_text(seq!['h', 'e', 'a', 'd', 'e', 'r'], seq!['<', 'k', 'e', 'y', '>', ':', ' ', '[', 'v', 'a', 'l', 'u', 'e', ']'])
        } else {
            malformed_text(
                seq!['q', 'u', 'e', 'r', 'y', ' ', 'p', 'a', 'r', 'a', 'm'],
                seq!['<', 'k', 'e', 'y', '>', '=', '<', 'v', 'a', 'l', 'u', 'e', '>'],
            )
        }),
{
    proof {
        reveal_strlit("header");
        reveal_strlit("<key>: [value]");
        reveal_strlit("query param");
        reveal_strlit("<key>=<value>");
    }
    let (name, expected) = if is_header {
        ("header", "<key>: [value]")
    } else {
        ("query param", "<key>=<value>")
    };
    let mut text = crate::text::concat3("malformed ", name, ". Expected ");
    crate::text::push_str(&mut text, expected);
    proof {
        reveal_strlit("malformed ");
        reveal_strlit(". Expected ");
    }
    QuartzError::Message(text)
}

/// The refusal of a malformed `key=value` variable.
pub fn malformed_variable() -> (res: QuartzError)
    ensures
        res matches QuartzError::Message(m) && m@ == malformed_text(
            seq!['v', 'a', 'r', 'i', 'a', 'b', 'l', 'e'],
            seq!['<', 'k', 'e', 'y', '>', '=', '<', 'v', 'a', 'l', 'u', 'e', '>'],
        ),
{
    let mut text = crate::text::concat3("malformed ", "variable", ". Expected ");
    crate::text::push_str(&mut text, "<key>=<value>");
    proof {
        reveal_strlit("malformed ");
        reveal_strlit("variable");
        reveal_strlit(". Expected ");
        reveal_strlit("<key>=<value>");
    }
    QuartzError::Message(text)
}

/// The variables of the environment in use.
pub open spec fn env_variables(ctx: &Ctx) -> Map<Seq<char>, Seq<char>> {
    match ctx.project.env(ctx.env_name()) {
        Some(c) => c.variables.0.map(),
        None => Map::empty(),
    }
}

/// The headers of the environment in use.
pub open spec fn env_headers(ctx: &Ctx) -> Map<Seq<char>, Seq<char>> {
    match ctx.project.env(ctx.env_name()) {
        Some(c) => c.headers.0.map(),
        None => Map::empty(),
    }
}

/// `after` differs from `before` only in the environment in use, which it
/// has.
pub open spec fn env_rewritten(before: &Ctx, after: &Ctx) -> bool {
    &&& after.project.env(before.env_name()) is Some
    &&& forall|n: Seq<char>|
        n != before.env_name() ==> #[trigger] after.project.env(n) == before.project.env(n)
    &&& after.project.handles == before.project.handles
    &&& after.project.state_endpoint == before.project.state_endpoint
    &&& after.project.state_previous == before.project.state_previous
    &&& after.project.state_env == before.project.state_env
    &&& after.project.history == before.project.history
    &&& after.project.wf()
    &&& same_settings(after, before)
}

/// `malformed <name>. Expected <expected>`.
pub open spec fn malformed_text(name: Seq<char>, expected: Seq<char>) -> Seq<char> {
    seq!['m', 'a', 'l', 'f', 'o', 'r', 'm', 'e', 'd', ' '] + name + seq!['.', ' ', 'E', 'x', 'p', 'e', 'c', 't', 'e', 'd', ' '] + expected
}

/// The endpoint in use as stored, when there is one.
pub open spec fn stored_endpoint(ctx: &Ctx) -> Option<Endpoint> {
    match ctx.current_handle() {
        Some(t) => match ctx.project.lookup(split_on(t, '/')) {
            Some(e) => e.endpoint,
            None => None,
        },
        None => None,
    }
}

/// `r` is the endpoint in use as the run sees it.
pub open spec fn in_use(ctx: &Ctx, r: Endpoint) -> bool {
    stored_endpoint(ctx) matches Some(s) && ctx.resolved(s, r)
}

/// The segments of the handle in use.
pub open spec fn in_use_handle(ctx: &Ctx) -> Seq<Seq<char>> {
    split_on(ctx.current_handle()->0, '/')
}

/// The endpoint stored for the handle that was in use in `before`.
pub open spec fn new_endpoint(before: &Ctx, after: &Ctx) -> Endpoint {
    after.project.lookup(in_use_handle(before))->0.endpoint->0
}

/// `after` differs from `before` only in the endpoint of the handle in use,
/// which it has; the body stays.
pub open spec fn endpoint_rewritten(before: &Ctx, after: &Ctx) -> bool {
    let p = in_use_handle(before);
    &&& forall|q: Seq<Seq<char>>|
        q != p ==> #[trigger] after.project.lookup(q) == before.project.lookup(q)
    &&& after.project.lookup(p) matches Some(e) && e.body == before.project.lookup(p)->0.body
        && e.endpoint is Some
    &&& after.project.envs == before.project.envs
    &&& after.project.state_endpoint == before.project.state_endpoint
    &&& after.project.state_previous == before.project.state_previous
    &&& after.project.state_env == before.project.state_env
    &&& after.project.history == before.project.history
    &&& after.project.wf()
    &&& same_settings(after, before)
}

/// `r` holds the request of `b` but, maybe, its query parameters.
pub open spec fn same_but_query(r: Endpoint, b: Endpoint) -> bool {
    &&& r.url@ == b.url@
    &&& r.method@ == b.method@
    &&& r.headers.0.pairs() == b.headers.0.pairs()
    &&& r.path@ == b.path@
}

/// `r` holds the request of `b` but, maybe, its headers.
pub open spec fn same_but_headers(r: Endpoint, b: Endpoint) -> bool {
    &&& r.url@ == b.url@
    &&& r.method@ == b.method@
    &&& r.query.0.pairs() == b.query.0.pairs()
    &&& r.path@ == b.path@
}

/// Stores `endpoint` for the handle `h` in use, keeping its body.
pub fn store_endpoint(ctx: &mut Ctx, h: &EndpointHandle, endpoint: Endpoint)
    requires
        old(ctx).project.wf(),
        old(ctx).current_handle() matches Some(t) && h.segments() == split_on(t, '/'),
        old(ctx).project.has(h.segments()),
    ensures
        endpoint_rewritten(old(ctx), final(ctx)),
        new_endpoint(old(ctx), final(ctx)) == endpoint,
        final(ctx).stdout == old(ctx).stdout,
        final(ctx).stderr == old(ctx).stderr,
        final(ctx).code == old(ctx).code,
{
    let i = ctx.project.find(&h.path).unwrap();
    proof {
        crate::project::lemma_handle_index(ctx.project.handles@, h.segments());
    }
    let body: Option<String> = match &ctx.project.handles[i].body {
        Some(b) => Some(b.clone()),
        None => None,
    };
    ctx.project.set_entry(&h.path, Some(endpoint), body);
}

/// The command was handed back unchanged, for the caller to carry out, and
/// the context is as it was.
pub open spec fn handed_back<T>(before: &Ctx, after: &Ctx, command: T, res: QuartzResult<Option<T>>) -> bool {
    &&& res matches Ok(Some(c)) && c == command
    &&& *after == *before
}

/// The outcome of a command that was carried out here: `Ok(())` or the
/// error.
pub open spec fn unit_of<T>(res: QuartzResult<Option<T>>) -> QuartzResult {
    match res {
        Ok(_) => Ok(()),
        Err(e) => Err(e),
    }
}

/// The command was carried out here: nothing was handed back.
pub open spec fn carried_out<T>(res: QuartzResult<Option<T>>) -> bool {
    !(res matches Ok(Some(_)))
}

/// What the command `command` does. Initializing, sending, editing and
/// printing completions are handed back to the caller, and so are the body
/// commands but `show`, and the `show`, `var` and `config` commands that
/// those hand back.
pub open spec fn ran(before: &Ctx, after: &Ctx, command: Cmd, res: QuartzResult<Option<Cmd>>) -> bool {
    match command {
        Cmd::Init(_) | Cmd::Send(_) | Cmd::Edit | Cmd::Completion(_) => handed_back(before, after, command, res),
        Cmd::Body(a) => match a.command {
            BodyCmd::Show => carried_out(res) && body::printed(before, after, unit_of(res)),
            _ => handed_back(before, after, command, res),
        },
        Cmd::Create(a) => carried_out(res) && handle::created(before, after, a, unit_of(res)),
        Cmd::Use(a) => carried_out(res) && handle::switched(before, after, a, unit_of(res)),
        Cmd::Ls(a) => carried_out(res) && ls::listed(before, after, a, unit_of(res)),
        Cmd::Cp(a) => carried_out(res) && copy::copied(before, after, a, unit_of(res)),
        Cmd::Mv(a) => carried_out(res) && copy::handles_moved(before, after, a, unit_of(res)),
        Cmd::Rm(a) => carried_out(res) && handle::removed(before, after, a, unit_of(res)),
        Cmd::Query { command: c } => carried_out(res) && query::ran(before, after, c, unit_of(res)),
        Cmd::Header { command: c } => carried_out(res) && header::ran(before, after, c, unit_of(res)),
        Cmd::Last { command: c } => carried_out(res) && last::shown(before, after, c, unit_of(res)),
        Cmd::History(a) => carried_out(res) && history::listed(before, after, a, unit_of(res)),
        Cmd::Env { command: c } => carried_out(res) && env::ran(before, after, c, unit_of(res)),
        Cmd::Show { command: c } => match res {
            Ok(Some(Cmd::Show { command: d })) => show::ran(before, after, c, Ok(Some(d))),
            Ok(Some(_)) => false,
            Ok(None) => show::ran(before, after, c, Ok(None)),
            Err(e) => show::ran(before, after, c, Err(e)),
        },
        Cmd::Var { command: c } => match res {
            Ok(Some(Cmd::Var { command: d })) => var::ran(before, after, c, Ok(Some(d))),
            Ok(Some(_)) => false,
            Ok(None) => var::ran(before, after, c, Ok(None)),
            Err(e) => var::ran(before, after, c, Err(e)),
        },
        Cmd::Config { command: c } => match res {
            Ok(Some(Cmd::Config { command: d })) => config::ran(before, after, c, Ok(Some(d))),
            Ok(Some(_)) => false,
            Ok(None) => config::ran(before, after, c, Ok(None)),
            Err(e) => config::ran(before, after, c, Err(e)),
        },
    }
}

/// `Ok(())` becomes `Ok(None)`: nothing is handed back.
fn nothing_back(r: QuartzResult) -> (res: QuartzResult<Option<Cmd>>)
    ensures
        carried_out(res),
        unit_of(res) == r,
{
    match r {
        Ok(u) => {
            let res: QuartzResult<Option<Cmd>> = Ok(None);
            assert(unit_of(res) == Ok::<(), QuartzError>(u));
            res
        },
        Err(e) => Err(e),
    }
}

/// Runs a command on the context. What needs the file system, the network,
/// an editor or a terminal is handed back unchanged, for the caller to carry
/// out.
pub fn cmd(ctx: &mut Ctx, command: Cmd) -> (res: QuartzResult<Option<Cmd>>)
    requires
        old(ctx).project.wf(),
        runnable(old(ctx), command),
    ensures
        final(ctx).project.wf(),
        ran(old(ctx), final(ctx), command, res),
{
    match command {
        Cmd::Init(a) => Ok(Some(Cmd::Init(a))),
        Cmd::Send(a) => Ok(Some(Cmd::Send(a))),
        Cmd::Edit => Ok(Some(Cmd::Edit)),
        Cmd::Completion(a) => Ok(Some(Cmd::Completion(a))),
        Cmd::Body(a) => match a.command {
            BodyCmd::Show => nothing_back(body::print(ctx)),
            _ => Ok(Some(Cmd::Body(a))),
        },
        Cmd::Create(a) => nothing_back(handle::create(ctx, a)),
        Cmd::Use(a) => nothing_back(handle::switch(ctx, a)),
        Cmd::Ls(a) => nothing_back(ls::cmd(ctx, a)),
        Cmd::Cp(a) => nothing_back(copy::cp(ctx, a)),
        Cmd::Mv(a) => nothing_back(copy::mv(ctx, a)),
        Cmd::Rm(a) => nothing_back(handle::rm(ctx, a)),
        Cmd::Query { command: c } => nothing_back(query::cmd(ctx, c)),
        Cmd::Header { command: c } => nothing_back(header::cmd(ctx, c)),
        Cmd::Last { command: c } => nothing_back(last::cmd(ctx, c)),
        Cmd::History(a) => nothing_back(history::cmd(ctx, a)),
        Cmd::Env { command: c } => nothing_back(env::cmd(ctx, c)),
        Cmd::Show { command: c } => match show::cmd(ctx, c) {
            Ok(Some(d)) => Ok(Some(Cmd::Show { command: d })),
            Ok(None) => Ok(None),
            Err(e) => Err(e),
        },
        Cmd::Var { command: c } => match var::cmd(ctx, c) {
            Ok(Some(d)) => Ok(Some(Cmd::Var { command: d })),
            Ok(None) => Ok(None),
            Err(e) => Err(e),
        },
        Cmd::Config { command: c } => match config::cmd(ctx, c) {
            Ok(Some(d)) => Ok(Some(Cmd::Config { command: d })),
            Ok(None) => Ok(None),
            Err(e) => Err(e),
        },
    }
}

/// Whether the command `command` can run on the context: each command runs
/// only where the program does not stop on it, and the caller tests this
/// first with `refusal`.
pub open spec fn runnable(ctx: &Ctx, command: Cmd) -> bool {
    match command {
        Cmd::Send(a) => stored_endpoint(ctx) is Some && all_pairs::<Variables>(views(a.variables@))
            && all_pairs::<Query>(views(a.query@)) && all_pairs::<Headers>(views(a.headers@)),
        Cmd::Edit => ctx.current_handle() is Some,
        Cmd::Body(a) => match a.command {
            BodyCmd::Show => stored_endpoint(ctx) is Some,
            BodyCmd::Stdin => ctx.current_handle() is Some,
            BodyCmd::Edit => ctx.current_handle() is Some && (a.format is Some || stored_endpoint(ctx) is Some),
        },
        Cmd::Create(a) => a.handle@.len() > 0 && !ctx.project.has(split_on(a.handle@, '/'))
            && patch_well_formed(&a.config),
        Cmd::Use(a) => !handle::switch_refused(ctx, &a),
        Cmd::Ls(a) => a.handle matches Some(n) ==> ctx.project.has(split_on(n@, '/')),
        Cmd::Cp(a) => a.src@.len() > 0 && ctx.project.has(split_on(a.src@, '/')),
        Cmd::Query { command: c } => query::runnable(ctx, c),
        Cmd::Header { command: c } => header::runnable(ctx, c),
        Cmd::Var { command: c } => var::runnable(ctx, c),
        Cmd::Config { command: c } => config::runnable(c),
        Cmd::Env { command: c } => env::runnable(ctx, c),
        Cmd::Show { command: c } => show::runnable(ctx, c),
        _ => true,
    }
}

/// The endpoint in use has the query parameter `key`, however the run sees
/// it.
pub open spec fn query_readable(ctx: &Ctx, key: Seq<char>) -> bool {
    &&& stored_endpoint(ctx) is Some
    &&& forall|r: Endpoint| #[trigger] in_use(ctx, r) ==> r.query.0.map().contains_key(key)
}

/// The endpoint in use has the header `key`, however the run sees it.
pub open spec fn header_readable(ctx: &Ctx, key: Seq<char>) -> bool {
    &&& stored_endpoint(ctx) is Some
    &&& forall|r: Endpoint| #[trigger] in_use(ctx, r) ==> r.headers.0.map().contains_key(key)
}

/// The run sees one endpoint in use: its query parameters and headers are
/// the same however it is taken.
pub proof fn lemma_in_use_unique(ctx: &Ctx, r1: Endpoint, r2: Endpoint)
    requires
        in_use(ctx, r1),
        in_use(ctx, r2),
    ensures
        r1.query.0.pairs() == r2.query.0.pairs(),
        r1.headers.0.pairs() == r2.headers.0.pairs(),
{
    if ctx.args.early_apply_environment {
        let s = stored_endpoint(ctx)->0;
        let e1 = choose|env: Context| #![trigger env.variables.0.pairs()]
            env.name@ == ctx.env_name() && (match ctx.project.env(ctx.env_name()) {
                Some(c) => env.variables.0.pairs() == c.variables.0.pairs(),
                None => env.variables.0.pairs().len() == 0,
            }) && r1.url@ == subst_all(s.url@, env.variables.0.pairs())
                && r1.method@ == subst_all(s.method@, env.variables.0.pairs())
                && r1.headers.0.pairs() == subst_entries(s.headers.0.pairs(), env.variables.0.pairs())
                && r1.query.0.pairs() == subst_entries(s.query.0.pairs(), env.variables.0.pairs())
                && r1.path@ == s.path@;
        let e2 = choose|env: Context| #![trigger env.variables.0.pairs()]
            env.name@ == ctx.env_name() && (match ctx.project.env(ctx.env_name()) {
                Some(c) => env.variables.0.pairs() == c.variables.0.pairs(),
                None => env.variables.0.pairs().len() == 0,
            }) && r2.url@ == subst_all(s.url@, env.variables.0.pairs())
                && r2.method@ == subst_all(s.method@, env.variables.0.pairs())
                && r2.headers.0.pairs() == subst_entries(s.headers.0.pairs(), env.variables.0.pairs())
                && r2.query.0.pairs() == subst_entries(s.query.0.pairs(), env.variables.0.pairs())
                && r2.path@ == s.path@;
        assert(e1.variables.0.pairs() =~= e2.variables.0.pairs());
    }
}

/// Why the endpoint in use has no query parameter `key`, or `None`.
fn query_key_refusal(ctx: &Ctx, key: &str) -> (res: Option<QuartzError>)
    ensures
        res is None <==> query_readable(ctx, key@),
{
    if let Some(e) = endpoint_refusal(ctx) {
        return Some(e);
    }
    let r = match ctx.require_endpoint() {
        Ok((_, r)) => r,
        Err(e) => return Some(e),
    };
    assert(in_use(ctx, r));
    proof {
        assert forall|r2: Endpoint| #[trigger] in_use(ctx, r2) implies r2.query.0.map() == r.query.0.map() by {
            lemma_in_use_unique(ctx, r, r2);
        }
    }
    if r.query.0.get(key).is_some() {
        None
    } else {
        Some(refuse("no query param ", key, " found"))
    }
}

/// Why the endpoint in use has no header `key`, or `None`.
fn header_key_refusal(ctx: &Ctx, key: &str) -> (res: Option<QuartzError>)
    ensures
        res is None <==> header_readable(ctx, key@),
{
    if let Some(e) = endpoint_refusal(ctx) {
        return Some(e);
    }
    let r = match ctx.require_endpoint() {
        Ok((_, r)) => r,
        Err(e) => return Some(e),
    };
    assert(in_use(ctx, r));
    proof {
        assert forall|r2: Endpoint| #[trigger] in_use(ctx, r2) implies r2.headers.0.map() == r.headers.0.map() by {
            lemma_in_use_unique(ctx, r, r2);
        }
    }
    if r.headers.0.get(key).is_some() {
        None
    } else {
        Some(refuse("no header named ", key, " found"))
    }
}

/// Why the environment in use has no variable `key`, or `None`.
fn variable_key_refusal(ctx: &Ctx, key: &str) -> (res: Option<QuartzError>)
    ensures
        res is None <==> env_variables(ctx).contains_key(key@),
{
    let env = ctx.require_env();
    assert(env.variables.0.map() =~= env_variables(ctx));
    if env.variables.0.get(key).is_some() {
        None
    } else {
        Some(refuse(key, " variable not set", ""))
    }
}

/// Why there is no endpoint in use, or `None` when there is one.
pub fn endpoint_refusal(ctx: &Ctx) -> (res: Option<QuartzError>)
    ensures
        res is None <==> stored_endpoint(ctx) is Some,
{
    match ctx.handle_in_use() {
        None => Some(refuse("no handle in use. Try ", "quartz use <HANDLE>", "")),
        Some(h) => if ctx.has_endpoint(&h) {
            None
        } else {
            let n = h.handle();
            Some(refuse("no endpoint at ", n.as_str(), ""))
        },
    }
}

/// Why there is no handle in use, or `None` when there is one.
pub fn handle_refusal(ctx: &Ctx) -> (res: Option<QuartzError>)
    ensures
        res is None <==> ctx.current_handle() is Some,
{
    match ctx.handle_in_use() {
        None => Some(refuse("no handle in use. Try ", "quartz use <HANDLE>", "")),
        Some(_) => None,
    }
}

/// Why a patch cannot be applied, or `None` when it is well formed.
fn patch_refusal(patch: &EndpointPatch) -> (res: Option<QuartzError>)
    ensures
        res is None <==> patch_well_formed(patch),
{
    match patch.first_malformed() {
        Some((_, is_header)) => Some(malformed(is_header)),
        None => None,
    }
}

/// Why `query` inputs are not `key=value` pairs, or `None`.
fn query_refusal(inputs: &Vec<String>) -> (res: Option<QuartzError>)
    ensures
        res is None <==> all_pairs::<Query>(views(inputs@)),
{
    if first_bad::<Query>(inputs).is_some() {
        Some(malformed(false))
    } else {
        None
    }
}

/// Why header inputs are not `key: value` pairs, or `None`.
fn header_refusal(inputs: &Vec<String>) -> (res: Option<QuartzError>)
    ensures
        res is None <==> all_pairs::<Headers>(views(inputs@)),
{
    if first_bad::<Headers>(inputs).is_some() {
        Some(malformed(true))
    } else {
        None
    }
}

/// Why variable inputs are not `key=value` pairs, or `None`.
fn variable_refusal(inputs: &Vec<String>) -> (res: Option<QuartzError>)
    ensures
        res is None <==> all_pairs::<Variables>(views(inputs@)),
{
    if first_bad::<Variables>(inputs).is_some() {
        Some(malformed_variable())
    } else {
        None
    }
}

/// Why a configuration key is not one, or `None`.
fn key_refusal(key: &str) -> (res: Option<QuartzError>)
    ensures
        res is None <==> config::is_config_key(key@),
{
    if config::key_kind(key) == 3 {
        Some(refuse("invalid key", "", ""))
    } else {
        None
    }
}

/// Why the program stops on `command`, with the message it stops with, or
/// `None` when `command` can run.
pub fn refusal(ctx: &Ctx, command: &Cmd) -> (res: Option<QuartzError>)
    ensures
        res is None <==> runnable(ctx, *command),
{
    match command {
        Cmd::Send(a) => {
            if let Some(e) = endpoint_refusal(ctx) {
                return Some(e);
            }
            if let Some(e) = variable_refusal(&a.variables) {
                return Some(e);
            }
            if let Some(e) = query_refusal(&a.query) {
                return Some(e);
            }
            header_refusal(&a.headers)
        },
        Cmd::Edit => handle_refusal(ctx),
        Cmd::Body(a) => match a.command {
            BodyCmd::Show => endpoint_refusal(ctx),
            BodyCmd::Stdin => handle_refusal(ctx),
            BodyCmd::Edit => {
                if let Some(e) = handle_refusal(ctx) {
                    return Some(e);
                }
                if a.format.is_some() {
                    None
                } else {
                    endpoint_refusal(ctx)
                }
            },
        },
        Cmd::Create(a) => {
            if crate::text::str_is_empty(a.handle.as_str()) {
                return Some(refuse("missing endpoint handle", "", ""));
            }
            let h = EndpointHandle::from(a.handle.as_str());
            if ctx.project.contains_handle(&h) {
                return Some(refuse("endpoint already exists", "", ""));
            }
            patch_refusal(&a.config)
        },
        Cmd::Use(a) => {
            let h = match &a.handle {
                Some(n) => EndpointHandle::from(n.as_str()),
                None => match ctx.handle_in_use() {
                    Some(h) => h,
                    None => return Some(refuse("no handle in use. Try ", "quartz use <HANDLE>", "")),
                },
            };
            if let Some(e) = patch_refusal(&a.config) {
                return Some(e);
            }
            if !ctx.project.contains_handle(&h) && (a.handle.is_some() || a.config.has_changes()) {
                let n = h.handle();
                return Some(refuse("could not find ", n.as_str(), " handle"));
            }
            None
        },
        Cmd::Ls(a) => match &a.handle {
            Some(n) => if ctx.project.contains_handle(&EndpointHandle::from(n.as_str())) {
                None
            } else {
                Some(refuse("no such handle: ", n.as_str(), ""))
            },
            None => None,
        },
        Cmd::Cp(a) => {
            if crate::text::str_is_empty(a.src.as_str()) || !ctx.project.contains_handle(
                &EndpointHandle::from(a.src.as_str()),
            ) {
                Some(refuse("could not find ", a.src.as_str(), " handle"))
            } else {
                None
            }
        },
        Cmd::Query { command: c } => {
            if let Some(e) = endpoint_refusal(ctx) {
                return Some(e);
            }
            match c {
                QueryCmd::Put(a) => query_refusal(&a.queries),
                QueryCmd::Get(a) => query_key_refusal(ctx, a.key.as_str()),
                _ => None,
            }
        },
        Cmd::Header { command: c } => {
            if let Some(e) = endpoint_refusal(ctx) {
                return Some(e);
            }
            match c {
                HeaderCmd::Put { header } => header_refusal(header),
                HeaderCmd::Get { key } => header_key_refusal(ctx, key.as_str()),
                _ => None,
            }
        },
        Cmd::Var { command: c } => match c {
            VarCmd::Put(a) => variable_refusal(&a.variables),
            VarCmd::Get(a) => variable_key_refusal(ctx, a.key.as_str()),
            _ => None,
        },
        Cmd::Config { command: c } => match c {
            ConfigCmd::Get(a) => key_refusal(a.key.as_str()),
            ConfigCmd::Put(a) => key_refusal(a.key.as_str()),
            _ => None,
        },
        Cmd::Env { command: c } => match c {
            EnvCmd::Create(a) => if ctx.project.find_env(a.name.as_str()).is_some() {
                Some(refuse("a environment named ", a.name.as_str(), " already exists"))
            } else {
                None
            },
            _ => None,
        },
        Cmd::Show { command: c } => match c {
            ShowCmd::Handle | ShowCmd::Env | ShowCmd::Cookies(_) => None,
            ShowCmd::Snippet(a) => {
                if let Some(e) = endpoint_refusal(ctx) {
                    return Some(e);
                }
                if let Some(e) = variable_refusal(&a.variables) {
                    return Some(e);
                }
                patch_refusal(&a.patch)
            },
            ShowCmd::Query { key: Some(k) } => query_key_refusal(ctx, k.as_str()),
            ShowCmd::Headers { key: Some(k) } => header_key_refusal(ctx, k.as_str()),
            _ => endpoint_refusal(ctx),
        },
        _ => None,
    }
}
} // verus!
