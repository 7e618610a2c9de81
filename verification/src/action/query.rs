//! The query parameters of the endpoint in use.
use vstd::prelude::*;

use crate::action::pairs::{all_pairs, first_bad, fold_pairs, remove_keys, rm_keys, set_all};
use crate::action::{
    header_readable, query_readable,
    endpoint_rewritten, in_use, malformed, new_endpoint, same_but_query, same_settings, store_endpoint,
    stored_endpoint,
};
use crate::context::pairs_text;
use crate::endpoint::{query_text, Endpoint, Query};
use crate::text::{join_with, views};
use crate::{refuse, Ctx, QuartzCode, QuartzResult};
use crate::cli::QueryCmd;

verus! {

/// Arguments of `query get`.
pub struct GetArgs {
    pub key: String,
}

/// Arguments of `query set`.
pub struct SetArgs {
    pub queries: Vec<String>,
}

/// Arguments of `query rm`.
pub struct RmArgs {
    pub keys: Vec<String>,
}

/// `Removed query param: `.
pub open spec fn removed_text() -> Seq<char> {
    seq!['R', 'e', 'm', 'o', 'v', 'e', 'd', ' ', 'q', 'u', 'e', 'r', 'y', ' ', 'p', 'a', 'r', 'a', 'm', ':', ' ']
}

/// `: No such query param` and a line break.
pub open spec fn missing_text() -> Seq<char> {
    seq![':', ' ', 'N', 'o', ' ', 's', 'u', 'c', 'h', ' ', 'q', 'u', 'e', 'r', 'y', ' ', 'p', 'a', 'r', 'a', 'm', '\n']
}

/// What `get` does: how the context after it relates to the one before.
pub open spec fn got(before: &Ctx, after: &Ctx, key: String, res: QuartzResult) -> bool {
    &&& after.project == before.project
    &&& same_settings(after, before)
    &&& after.code == before.code
    &&& after.stderr == before.stderr
    &&& res is Err ==> *after == *before
    &&& res is Err ==> stored_endpoint(before) is None || exists|r: Endpoint|
        in_use(before, r) && !r.query.0.map().contains_key(key@)
    &&& res is Ok ==> exists|r: Endpoint|
        in_use(before, r) && r.query.0.map().contains_key(key@) && after.stdout@
            == before.stdout@ + r.query.0.map()[key@] + seq!['\n']
}

/// Prints the value of the query parameter `key` of the endpoint in use.
///
/// Needs an endpoint in use; refused when it has no such parameter.
pub fn get(ctx: &mut Ctx, key: String) -> (res: QuartzResult)
    requires
        query_readable(old(ctx), key@),
        stored_endpoint(old(ctx)) is Some,
    ensures
        got(old(ctx), final(ctx), key, res),
{
    let (_, endpoint) = match ctx.require_endpoint() {
        Ok(x) => x,
        Err(e) => return Err(e),
    };
    assert(in_use(ctx, endpoint));
    match endpoint.query.0.get(key.as_str()) {
        Some(v) => {
            let ghost before = ctx.stdout@;
            ctx.print(v.as_str());
            ctx.print("\n");
            proof {
                reveal_strlit("\n");
                assert(ctx.stdout@ =~= before + endpoint.query.0.map()[key@] + seq!['\n']);
            }
            Ok(())
        },
        None => Err(refuse("no query param ", key.as_str(), " found")),
    }
}

/// What `set` does: how the context after it relates to the one before.
pub open spec fn was_set(before: &Ctx, after: &Ctx, queries: Vec<String>, res: QuartzResult) -> bool {
    &&& after.project.wf()
    &&& same_settings(after, before)
    &&& after.code == before.code
    &&& after.stdout == before.stdout
    &&& after.stderr == before.stderr
    &&& res is Ok <==> stored_endpoint(before) is Some && all_pairs::<Query>(views(queries@))
    &&& res is Err ==> *after == *before
    &&& res is Ok ==> endpoint_rewritten(before, after) && exists|r: Endpoint|
        in_use(before, r) && same_but_query(new_endpoint(before, after), r) && new_endpoint(
            before,
            after,
        ).query.0.map() == fold_pairs::<Query>(r.query.0.map(), views(queries@))
}

/// Sets, in order, the `key=value` query parameters of `queries` on the
/// endpoint in use and stores it.
///
/// Needs an endpoint in use and well-formed inputs.
pub fn set(ctx: &mut Ctx, queries: Vec<String>) -> (res: QuartzResult)
    requires
        stored_endpoint(old(ctx)) is Some,
        all_pairs::<Query>(views(queries@)),
        old(ctx).project.wf(),
    ensures
        was_set(old(ctx), final(ctx), queries, res),
{
    let (h, mut endpoint) = match ctx.require_endpoint() {
        Ok(x) => x,
        Err(e) => return Err(e),
    };
    if first_bad::<Query>(&queries).is_some() {
        return Err(malformed(false));
    }
    let ghost r = endpoint;
    assert(in_use(ctx, r));
    set_all(&mut endpoint.query, &queries);
    store_endpoint(ctx, &h, endpoint);
    assert(same_but_query(new_endpoint(old(ctx), ctx), r));
    Ok(())
}

/// What `rm` does: how the context after it relates to the one before.
pub open spec fn removed(before: &Ctx, after: &Ctx, keys: Vec<String>, res: QuartzResult) -> bool {
    &&& after.project.wf()
    &&& same_settings(after, before)
    &&& res is Ok <==> stored_endpoint(before) is Some
    &&& res is Err ==> *after == *before
    &&& res is Ok ==> endpoint_rewritten(before, after) && exists|r: Endpoint|
        in_use(before, r) && same_but_query(new_endpoint(before, after), r) && ({
            let (m, out, err, failed) = rm_keys(r.query.0.map(), views(keys@), removed_text(), missing_text());
            &&& new_endpoint(before, after).query.0.map() == m
            &&& after.stdout@ == before.stdout@ + out
            &&& after.stderr@ == before.stderr@ + err
            &&& after.code == (if failed {
                QuartzCode::Error
            } else {
                before.code
            })
        })
}

/// Removes, in order, the query parameters `keys` from the endpoint in use
/// and stores it; prints each key removed, reports each key missing, and
/// fails the run when one is missing.
///
/// Needs an endpoint in use.
pub fn rm(ctx: &mut Ctx, keys: Vec<String>) -> (res: QuartzResult)
    requires
        stored_endpoint(old(ctx)) is Some,
        old(ctx).project.wf(),
    ensures
        removed(old(ctx), final(ctx), keys, res),
{
    let (h, mut endpoint) = match ctx.require_endpoint() {
        Ok(x) => x,
        Err(e) => return Err(e),
    };
    let ghost r = endpoint;
    assert(in_use(ctx, r));
    proof {
        reveal_strlit("Removed query param: ");
        reveal_strlit(": No such query param\n");
        assert("Removed query param: "@ =~= removed_text());
        assert(": No such query param\n"@ =~= missing_text());
    }
    let (out, err, failed) = remove_keys(&mut endpoint.query.0, &keys, "Removed query param: ", ": No such query param\n");
    store_endpoint(ctx, &h, endpoint);
    ctx.print(out.as_str());
    ctx.eprint(err.as_str());
    if failed {
        ctx.code(QuartzCode::Error);
    }
    assert(same_but_query(new_endpoint(old(ctx), ctx), r));
    Ok(())
}

/// What `ls` does: how the context after it relates to the one before.
pub open spec fn listed(before: &Ctx, after: &Ctx, res: QuartzResult) -> bool {
    &&& after.project == before.project
    &&& same_settings(after, before)
    &&& after.code == before.code
    &&& after.stderr == before.stderr
    &&& res is Ok <==> stored_endpoint(before) is Some
    &&& res is Err ==> *after == *before
    &&& res is Ok ==> exists|r: Endpoint|
        in_use(before, r) && after.stdout@ == before.stdout@ + pairs_text(
            r.query.0.pairs(),
            seq!['='],
        )
}

/// Prints the query parameters of the endpoint in use, one `key=value` per
/// line.
///
/// Needs an endpoint in use.
pub fn ls(ctx: &mut Ctx) -> (res: QuartzResult)
    requires
        stored_endpoint(old(ctx)) is Some,
    ensures
        listed(old(ctx), final(ctx), res),
{
    let (_, endpoint) = match ctx.require_endpoint() {
        Ok(x) => x,
        Err(e) => return Err(e),
    };
    assert(in_use(ctx, endpoint));
    let text = endpoint.query.to_text();
    ctx.print(text.as_str());
    Ok(())
}

/// What `print` does: how the context after it relates to the one before.
pub open spec fn printed(before: &Ctx, after: &Ctx, res: QuartzResult) -> bool {
    &&& after.project == before.project
    &&& same_settings(after, before)
    &&& after.code == before.code
    &&& after.stderr == before.stderr
    &&& res is Ok <==> stored_endpoint(before) is Some
    &&& res is Err ==> *after == *before
    &&& res is Ok ==> exists|r: Endpoint|
        in_use(before, r) && after.stdout@ == before.stdout@ + query_text(r.query.0.pairs()) + seq!['\n']
}

/// Prints the query string of the endpoint in use and a line break.
///
/// Needs an endpoint in use.
pub fn print(ctx: &mut Ctx) -> (res: QuartzResult)
    requires
        stored_endpoint(old(ctx)) is Some,
    ensures
        printed(old(ctx), final(ctx), res),
{
    let (_, endpoint) = match ctx.require_endpoint() {
        Ok(x) => x,
        Err(e) => return Err(e),
    };
    assert(in_use(ctx, endpoint));
    let text = endpoint.query_string();
    let ghost before = ctx.stdout@;
    ctx.print(text.as_str());
    ctx.print("\n");
    proof {
        reveal_strlit("\n");
        assert(ctx.stdout@ =~= before + text@ + seq!['\n']);
    }
    Ok(())
}

/// Whether the `query` command `command` can run: there is an endpoint in
/// use, the parameters to set are `key=value` pairs and the one to read
/// exists.
pub open spec fn runnable(ctx: &Ctx, command: QueryCmd) -> bool {
    &&& stored_endpoint(ctx) is Some
    &&& command matches QueryCmd::Put(a) ==> all_pairs::<Query>(views(a.queries@))
    &&& command matches QueryCmd::Get(a) ==> query_readable(ctx, a.key@)
}

/// What the `query` command `command` does.
pub open spec fn ran(before: &Ctx, after: &Ctx, command: QueryCmd, res: QuartzResult) -> bool {
    match command {
        QueryCmd::Get(a) => got(before, after, a.key, res),
        QueryCmd::Put(a) => was_set(before, after, a.queries, res),
        QueryCmd::Rm(a) => removed(before, after, a.keys, res),
        QueryCmd::Ls => listed(before, after, res),
    }
}

/// Runs a `query` command.
pub fn cmd(ctx: &mut Ctx, command: QueryCmd) -> (res: QuartzResult)
    requires
        old(ctx).project.wf(),
        runnable(old(ctx), command),
    ensures
        final(ctx).project.wf(),
        ran(old(ctx), final(ctx), command, res),
{
    match command {
        QueryCmd::Get(a) => get(ctx, a.key),
        QueryCmd::Put(a) => set(ctx, a.queries),
        QueryCmd::Rm(a) => rm(ctx, a.keys),
        QueryCmd::Ls => ls(ctx),
    }
}

} // verus!
