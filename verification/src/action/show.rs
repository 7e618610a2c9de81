//! Printing the parts of the endpoint in use.
use vstd::prelude::*;

use crate::action::{header_readable, in_use, query_readable, same_settings, stored_endpoint};
use crate::endpoint::Endpoint;
use crate::state::StateField;
use crate::Ctx;
use crate::QuartzResult;
use crate::action::{body, carried_out, env, handed_back, header, query, snippet, unit_of};
use crate::action::pairs::all_pairs;
use crate::cli::ShowCmd;
use crate::context::Variables;
use crate::endpoint::patch_well_formed;
use crate::text::views;

verus! {

/// What `url` does: how the context after it relates to the one before.
pub open spec fn url_shown(before: &Ctx, after: &Ctx, res: QuartzResult) -> bool {
    &&& after.project == before.project
    &&& same_settings(after, before)
    &&& after.code == before.code
    &&& after.stderr == before.stderr
    &&& res is Ok <==> stored_endpoint(before) is Some
    &&& res is Err ==> *after == *before
    &&& res is Ok ==> exists|r: Endpoint|
        in_use(before, r) && after.stdout@ == before.stdout@ + r.url@ + seq!['\n']
}

/// Prints the URL of the endpoint in use and a line break.
///
/// Needs an endpoint in use.
pub fn url(ctx: &mut Ctx) -> (res: QuartzResult)
    requires
        stored_endpoint(old(ctx)) is Some,
    ensures
        url_shown(old(ctx), final(ctx), res),
{
    let (_, endpoint) = match ctx.require_endpoint() {
        Ok(x) => x,
        Err(e) => return Err(e),
    };
    assert(in_use(ctx, endpoint));
    let ghost before = ctx.stdout@;
    ctx.print(endpoint.url.as_str());
    ctx.print("\n");
    proof {
        reveal_strlit("\n");
        assert(ctx.stdout@ =~= before + endpoint.url@ + seq!['\n']);
    }
    Ok(())
}

/// What `method` does: how the context after it relates to the one before.
pub open spec fn method_shown(before: &Ctx, after: &Ctx, res: QuartzResult) -> bool {
    &&& after.project == before.project
    &&& same_settings(after, before)
    &&& after.code == before.code
    &&& after.stderr == before.stderr
    &&& res is Ok <==> stored_endpoint(before) is Some
    &&& res is Err ==> *after == *before
    &&& res is Ok ==> exists|r: Endpoint|
        in_use(before, r) && after.stdout@ == before.stdout@ + r.method@ + seq!['\n']
}

/// Prints the method of the endpoint in use and a line break.
///
/// Needs an endpoint in use.
pub fn method(ctx: &mut Ctx) -> (res: QuartzResult)
    requires
        stored_endpoint(old(ctx)) is Some,
    ensures
        method_shown(old(ctx), final(ctx), res),
{
    let (_, endpoint) = match ctx.require_endpoint() {
        Ok(x) => x,
        Err(e) => return Err(e),
    };
    assert(in_use(ctx, endpoint));
    let ghost before = ctx.stdout@;
    ctx.print(endpoint.method.as_str());
    ctx.print("\n");
    proof {
        reveal_strlit("\n");
        assert(ctx.stdout@ =~= before + endpoint.method@ + seq!['\n']);
    }
    Ok(())
}

/// The handle in use as recorded or given, even when empty.
pub open spec fn shown_handle(ctx: &Ctx) -> Option<Seq<char>> {
    match ctx.state.handle {
        Some(h) => Some(h@),
        None => match ctx.project.state_endpoint {
            Some(s) => Some(s@),
            None => None,
        },
    }
}

/// What `handle` does: how the context after it relates to the one before.
pub open spec fn handle_shown(before: &Ctx, after: &Ctx) -> bool {
    &&& after.project == before.project
    &&& same_settings(after, before)
    &&& after.code == before.code
    &&& after.stderr == before.stderr
    &&& after.stdout@ == before.stdout@ + match shown_handle(before) {
        Some(h) => h + seq!['\n'],
        None => Seq::empty(),
    }
}

/// Prints the handle in use and a line break, when there is one.
pub fn handle(ctx: &mut Ctx)
    ensures
        handle_shown(old(ctx), final(ctx)),
{
    let h = ctx.state.get(&ctx.project, StateField::Endpoint);
    if let Some(h) = h {
        let ghost before = ctx.stdout@;
        ctx.print(h.as_str());
        ctx.print("\n");
        proof {
            reveal_strlit("\n");
            assert(ctx.stdout@ =~= before + (h@ + seq!['\n']));
        }
    } else {
        assert(ctx.stdout@ =~= old(ctx).stdout@ + Seq::<char>::empty());
    }
}

/// Whether the `show` command `command` can run: what reads the endpoint in
/// use needs one, and a snippet's variables and changes must be well formed.
pub open spec fn runnable(ctx: &Ctx, command: ShowCmd) -> bool {
    match command {
        ShowCmd::Handle | ShowCmd::Env | ShowCmd::Cookies(_) => true,
        ShowCmd::Query { key: Some(k) } => query_readable(ctx, k@),
        ShowCmd::Headers { key: Some(k) } => header_readable(ctx, k@),
        ShowCmd::Snippet(a) => stored_endpoint(ctx) is Some && all_pairs::<Variables>(views(a.variables@))
            && patch_well_formed(&a.patch),
        _ => stored_endpoint(ctx) is Some,
    }
}

/// What the `show` command `command` does; printing the cookies and the
/// endpoint's file are handed back to the caller.
pub open spec fn ran(before: &Ctx, after: &Ctx, command: ShowCmd, res: QuartzResult<Option<ShowCmd>>) -> bool {
    match command {
        ShowCmd::Cookies(a) => handed_back(before, after, ShowCmd::Cookies(a), res),
        ShowCmd::Endpoint => handed_back(before, after, ShowCmd::Endpoint, res),
        ShowCmd::Url => carried_out(res) && url_shown(before, after, unit_of(res)),
        ShowCmd::Method => carried_out(res) && method_shown(before, after, unit_of(res)),
        ShowCmd::Headers { key: Some(k) } => carried_out(res) && header::got(before, after, k, unit_of(res)),
        ShowCmd::Headers { key: None } => carried_out(res) && header::listed(before, after, unit_of(res)),
        ShowCmd::Query { key: Some(k) } => carried_out(res) && query::got(before, after, k, unit_of(res)),
        ShowCmd::Query { key: None } => carried_out(res) && query::printed(before, after, unit_of(res)),
        ShowCmd::Body => carried_out(res) && body::printed(before, after, unit_of(res)),
        ShowCmd::Handle => res matches Ok(None) && handle_shown(before, after),
        ShowCmd::Env => res matches Ok(None) && env::printed(before, after),
        ShowCmd::Snippet(a) => carried_out(res) && snippet::shown(before, after, a, unit_of(res)),
    }
}

/// Runs a `show` command; `cookies` and `endpoint` are handed back, as they
/// read files.
pub fn cmd(ctx: &mut Ctx, command: ShowCmd) -> (res: QuartzResult<Option<ShowCmd>>)
    requires
        runnable(old(ctx), command),
    ensures
        ran(old(ctx), final(ctx), command, res),
{
    let r = match command {
        ShowCmd::Cookies(a) => return Ok(Some(ShowCmd::Cookies(a))),
        ShowCmd::Endpoint => return Ok(Some(ShowCmd::Endpoint)),
        ShowCmd::Url => url(ctx),
        ShowCmd::Method => method(ctx),
        ShowCmd::Headers { key } => match key {
            Some(k) => header::get(ctx, k),
            None => header::ls(ctx),
        },
        ShowCmd::Query { key } => match key {
            Some(k) => query::get(ctx, k),
            None => query::print(ctx),
        },
        ShowCmd::Body => body::print(ctx),
        ShowCmd::Handle => {
            handle(ctx);
            Ok(())
        },
        ShowCmd::Env => {
            env::print(ctx);
            Ok(())
        },
        ShowCmd::Snippet(a) => snippet::cmd(ctx, a),
    };
    match r {
        Ok(()) => Ok(None),
        Err(e) => Err(e),
    }
}

} // verus!
