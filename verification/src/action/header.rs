//! The headers of the endpoint in use.
use vstd::prelude::*;

use crate::action::pairs::{all_pairs, first_bad, fold_pairs, remove_keys, rm_keys, set_all};
use crate::action::{
    header_readable, query_readable,
    endpoint_rewritten, in_use, malformed, new_endpoint, same_but_headers, same_settings, store_endpoint,
    stored_endpoint,
};
use crate::context::pairs_text;
use crate::endpoint::{Endpoint, Headers};
use crate::text::views;
use crate::{refuse, Ctx, QuartzCode, QuartzResult};
use crate::cli::HeaderCmd;

verus! {

/// `Removed header: `.
pub open spec fn removed_text() -> Seq<char> {
    seq!['R', 'e', 'm', 'o', 'v', 'e', 'd', ' ', 'h', 'e', 'a', 'd', 'e', 'r', ':', ' ']
}

/// `: No such header` and a line break.
pub open spec fn missing_text() -> Seq<char> {
    seq![':', ' ', 'N', 'o', ' ', 's', 'u', 'c', 'h', ' ', 'h', 'e', 'a', 'd', 'e', 'r', '\n']
}

/// What `get` does: how the context after it relates to the one before.
pub open spec fn got(before: &Ctx, after: &Ctx, key: String, res: QuartzResult) -> bool {
    &&& after.project == before.project
    &&& same_settings(after, before)
    &&& after.code == before.code
    &&& after.stderr == before.stderr
    &&& res is Err ==> *after == *before
    &&& res is Err ==> stored_endpoint(before) is None || exists|r: Endpoint|
        in_use(before, r) && !r.headers.0.map().contains_key(key@)
    &&& res is Ok ==> exists|r: Endpoint|
        in_use(before, r) && r.headers.0.map().contains_key(key@) && after.stdout@
            == before.stdout@ + r.headers.0.map()[key@] + seq!['\n']
}

/// Prints the value of the header `key` of the endpoint in use.
///
/// Needs an endpoint in use; refused when it has no such header.
pub fn get(ctx: &mut Ctx, key: String) -> (res: QuartzResult)
    requires
        header_readable(old(ctx), key@),
        stored_endpoint(old(ctx)) is Some,
    ensures
        got(old(ctx), final(ctx), key, res),
{
    let (_, endpoint) = match ctx.require_endpoint() {
        Ok(x) => x,
        Err(e) => return Err(e),
    };
    assert(in_use(ctx, endpoint));
    match endpoint.headers.0.get(key.as_str()) {
        Some(v) => {
            let ghost before = ctx.stdout@;
            ctx.print(v.as_str());
            ctx.print("\n");
            proof {
                reveal_strlit("\n");
                assert(ctx.stdout@ =~= before + endpoint.headers.0.map()[key@] + seq!['\n']);
            }
            Ok(())
        },
        None => Err(refuse("no header named ", key.as_str(), " found")),
    }
}

/// What `set` does: how the context after it relates to the one before.
pub open spec fn was_set(before: &Ctx, after: &Ctx, headers: Vec<String>, res: QuartzResult) -> bool {
    &&& after.project.wf()
    &&& same_settings(after, before)
    &&& after.code == before.code
    &&& after.stdout == before.stdout
    &&& after.stderr == before.stderr
    &&& res is Ok <==> stored_endpoint(before) is Some && all_pairs::<Headers>(views(headers@))
    &&& res is Err ==> *after == *before
    &&& res is Ok ==> endpoint_rewritten(before, after) && exists|r: Endpoint|
        in_use(before, r) && same_but_headers(new_endpoint(before, after), r) && new_endpoint(
            before,
            after,
        ).headers.0.map() == fold_pairs::<Headers>(r.headers.0.map(), views(headers@))
}

/// Sets, in order, the `key: value` headers of `headers` on the endpoint in
/// use and stores it.
///
/// Needs an endpoint in use and well-formed inputs.
pub fn set(ctx: &mut Ctx, headers: Vec<String>) -> (res: QuartzResult)
    requires
        stored_endpoint(old(ctx)) is Some,
        all_pairs::<Headers>(views(headers@)),
        old(ctx).project.wf(),
    ensures
        was_set(old(ctx), final(ctx), headers, res),
{
    let (h, mut endpoint) = match ctx.require_endpoint() {
        Ok(x) => x,
        Err(e) => return Err(e),
    };
    if first_bad::<Headers>(&headers).is_some() {
        return Err(malformed(true));
    }
    let ghost r = endpoint;
    assert(in_use(ctx, r));
    set_all(&mut endpoint.headers, &headers);
    store_endpoint(ctx, &h, endpoint);
    assert(same_but_headers(new_endpoint(old(ctx), ctx), r));
    Ok(())
}

/// What `rm` does: how the context after it relates to the one before.
pub open spec fn removed(before: &Ctx, after: &Ctx, keys: Vec<String>, res: QuartzResult) -> bool {
    &&& after.project.wf()
    &&& same_settings(after, before)
    &&& res is Ok <==> stored_endpoint(before) is Some
    &&& res is Err ==> *after == *before
    &&& res is Ok ==> endpoint_rewritten(before, after) && exists|r: Endpoint|
        in_use(before, r) && same_but_headers(new_endpoint(before, after), r) && ({
            let (m, out, err, failed) = rm_keys(r.headers.0.map(), views(keys@), removed_text(), missing_text());
            &&& new_endpoint(before, after).headers.0.map() == m
            &&& after.stdout@ == before.stdout@ + out
            &&& after.stderr@ == before.stderr@ + err
            &&& after.code == (if failed {
                QuartzCode::Error
            } else {
                before.code
            })
        })
}

/// Removes, in order, the headers `keys` from the endpoint in use
/// and stores it; prints each key removed, reports each key missing, and
/// fails the run when one is missing.
///
/// Needs an endpoint in use.
pub fn rm(ctx: &mut Ctx, keys: Vec<String>) -> (res: QuartzResult)
    requires
        stored_endpoint(old(ctx)) is Some,
        old(ctx).project.wf(),
    ensures
        removed(old(ctx), final(ctx), keys, res),
{
    let (h, mut endpoint) = match ctx.require_endpoint() {
        Ok(x) => x,
        Err(e) => return Err(e),
    };
    let ghost r = endpoint;
    assert(in_use(ctx, r));
    proof {
        reveal_strlit("Removed header: ");
        reveal_strlit(": No such header\n");
        assert("Removed header: "@ =~= removed_text());
        assert(": No such header\n"@ =~= missing_text());
    }
    let (out, err, failed) = remove_keys(&mut endpoint.headers.0, &keys, "Removed header: ", ": No such header\n");
    store_endpoint(ctx, &h, endpoint);
    ctx.print(out.as_str());
    ctx.eprint(err.as_str());
    if failed {
        ctx.code(QuartzCode::Error);
    }
    assert(same_but_headers(new_endpoint(old(ctx), ctx), r));
    Ok(())
}

/// What `ls` does: how the context after it relates to the one before.
pub open spec fn listed(before: &Ctx, after: &Ctx, res: QuartzResult) -> bool {
    &&& after.project == before.project
    &&& same_settings(after, before)
    &&& after.code == before.code
    &&& after.stderr == before.stderr
    &&& res is Ok <==> stored_endpoint(before) is Some
    &&& res is Err ==> *after == *before
    &&& res is Ok ==> exists|r: Endpoint|
        in_use(before, r) && after.stdout@ == before.stdout@ + pairs_text(
            r.headers.0.pairs(),
            seq![':', ' '],
        )
}

/// Prints the headers of the endpoint in use, one `key: value` per line.
///
/// Needs an endpoint in use.
pub fn ls(ctx: &mut Ctx) -> (res: QuartzResult)
    requires
        stored_endpoint(old(ctx)) is Some,
    ensures
        listed(old(ctx), final(ctx), res),
{
    let (_, endpoint) = match ctx.require_endpoint() {
        Ok(x) => x,
        Err(e) => return Err(e),
    };
    assert(in_use(ctx, endpoint));
    let text = endpoint.headers.to_text();
    ctx.print(text.as_str());
    Ok(())
}

/// Whether the `header` command `command` can run: there is an endpoint in
/// use, the headers to set are `key: value` pairs and the one to read
/// exists.
pub open spec fn runnable(ctx: &Ctx, command: HeaderCmd) -> bool {
    &&& stored_endpoint(ctx) is Some
    &&& command matches HeaderCmd::Put { header } ==> all_pairs::<Headers>(views(header@))
    &&& command matches HeaderCmd::Get { key } ==> header_readable(ctx, key@)
}

/// What the `header` command `command` does.
pub open spec fn ran(before: &Ctx, after: &Ctx, command: HeaderCmd, res: QuartzResult) -> bool {
    match command {
        HeaderCmd::Get { key } => got(before, after, key, res),
        HeaderCmd::Put { header } => was_set(before, after, header, res),
        HeaderCmd::Rm { key } => removed(before, after, key, res),
        HeaderCmd::Ls => listed(before, after, res),
    }
}

/// Runs a `header` command.
pub fn cmd(ctx: &mut Ctx, command: HeaderCmd) -> (res: QuartzResult)
    requires
        old(ctx).project.wf(),
        runnable(old(ctx), command),
    ensures
        final(ctx).project.wf(),
        ran(old(ctx), final(ctx), command, res),
{
    match command {
        HeaderCmd::Get { key } => get(ctx, key),
        HeaderCmd::Put { header } => set(ctx, header),
        HeaderCmd::Rm { key } => rm(ctx, key),
        HeaderCmd::Ls => ls(ctx),
    }
}

} // verus!
