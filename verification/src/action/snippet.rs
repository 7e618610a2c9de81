//! Code snippets of the endpoint in use.
use vstd::prelude::*;

use crate::action::body::{resolve_body, stored_body, stored_body_of};
use crate::action::pairs::{all_pairs, first_bad, fold_pairs, set_all};
use crate::action::{env_variables, in_use, malformed, malformed_variable, same_settings, stored_endpoint};
use crate::cli::SnippetCmd;
use crate::context::{pairs_text, Variables};
use crate::endpoint::{
    fold_colon_pairs, fold_eq_pairs, patch_well_formed, query_text, spec_resolve_url, subst_all,
    subst_entries, url_with_query, with_http, Endpoint, EndpointPatch,
};
use crate::snippet::curl_text;
use crate::strmap::as_map;
use crate::text::{join_with, owned, push_str, views};
use crate::uri::{uri_host, uri_host_of, uri_parses, uri_path_query, uri_path_query_of, uri_text, uri_text_of};
use crate::{refuse, Ctx, QuartzResult};

verus! {

/// Arguments of `show snippet`.
pub struct Args {
    /// Variables to set or override, as `key=value`.
    pub variables: Vec<String>,
    /// Changes to the endpoint.
    pub patch: EndpointPatch,
    pub command: SnippetCmd,
}

/// `e` is `r` with `patch` applied, then the variables `vs` substituted in
/// order.
pub open spec fn prepared(r: Endpoint, patch: &EndpointPatch, vs: Seq<(Seq<char>, Seq<char>)>, e: Endpoint) -> bool {
    exists|q: Seq<(Seq<char>, Seq<char>)>, h: Seq<(Seq<char>, Seq<char>)>|
        #![trigger as_map(q), as_map(h)]
        as_map(q) == fold_eq_pairs(r.query.0.map(), views(patch.query@)) && as_map(h) == fold_colon_pairs(
            r.headers.0.map(),
            views(patch.headers@),
        ) && e.url@ == subst_all(
            match patch.url {
                Some(u) => u@,
                None => r.url@,
            },
            vs,
        ) && e.method@ == subst_all(
            match patch.method {
                Some(m) => m@,
                None => r.method@,
            },
            vs,
        ) && e.query.0.pairs() == subst_entries(q, vs) && e.headers.0.pairs() == subst_entries(h, vs)
            && e.variables.0.pairs() == vs && e.path@ == r.path@
}

/// `e` is the endpoint in use of `ctx`, with `patch` applied and the
/// environment in use, with the `key=value` `variables` set, substituted.
pub open spec fn prepared_for(ctx: &Ctx, variables: Seq<Seq<char>>, patch: &EndpointPatch, e: Endpoint) -> bool {
    exists|r: Endpoint, vs: Seq<(Seq<char>, Seq<char>)>|
        #![trigger in_use(ctx, r), as_map(vs)]
        in_use(ctx, r) && as_map(vs) == fold_pairs::<Variables>(env_variables(ctx), variables) && prepared(
            r,
            patch,
            vs,
            e,
        )
}

/// The endpoint in use, patched, with the environment in use (with the
/// `key=value` `variables` set) applied.
///
/// Needs an endpoint in use and well-formed inputs.
pub fn prepare(ctx: &Ctx, variables: &Vec<String>, patch: &EndpointPatch) -> (res: QuartzResult<Endpoint>)
    requires
        stored_endpoint(ctx) is Some,
        all_pairs::<Variables>(views(variables@)),
        patch_well_formed(patch),
    ensures
        res is Ok <==> (stored_endpoint(ctx) is Some && all_pairs::<Variables>(views(variables@))
            && patch_well_formed(patch)),
        res matches Ok(e) ==> prepared_for(ctx, views(variables@), patch, e),
{
    let (_, mut endpoint) = match ctx.require_endpoint() {
        Ok(x) => x,
        Err(e) => return Err(e),
    };
    let ghost r = endpoint;
    assert(in_use(ctx, r));
    let mut env = ctx.require_env();
    if first_bad::<Variables>(variables).is_some() {
        return Err(malformed_variable());
    }
    if let Some((_, is_header)) = patch.first_malformed() {
        return Err(malformed(is_header));
    }
    assert(env.variables.0.map() =~= env_variables(ctx));
    set_all(&mut env.variables, variables);
    endpoint.update(patch);
    let ghost q = endpoint.query.0.pairs();
    let ghost h = endpoint.headers.0.pairs();
    endpoint.apply_env(&env);
    assert(prepared(r, patch, env.variables.0.pairs(), endpoint));
    assert(as_map(env.variables.0.pairs()) == env.variables.0.map());
    Ok(endpoint)
}

/// The full URL of `e`, or `Err` when the URI parser refuses it.
pub open spec fn full_url_of(e: Endpoint) -> Result<Seq<char>, ()> {
    let u = url_with_query(
        e.url@,
        query_text(e.query.0.pairs()),
    );
    spec_resolve_url(u, uri_parses(u), uri_parses(with_http(u)))
}

/// The body sent with `e`: the stored body of the handle in use with the
/// variables of `e` substituted.
pub open spec fn body_of(ctx: &Ctx, e: Endpoint) -> Option<Seq<char>> {
    match stored_body(ctx) {
        Some(b) => Some(subst_all(b, e.variables.0.pairs())),
        None => None,
    }
}

/// The raw HTTP request of `e`: the request line, the host, the headers
/// and, after an empty line, the body.
pub open spec fn http_text(
    method: Seq<char>,
    path_query: Seq<char>,
    host: Seq<char>,
    headers: Seq<(Seq<char>, Seq<char>)>,
    body: Option<Seq<char>>,
) -> Seq<char> {
    method + seq![' '] + path_query + seq![' ', 'H', 'T', 'T', 'P', '/', '1', '.', '1', '\n', 'H', 'o', 's', 't', ':', ' ']
        + host + seq!['\n'] + pairs_text(headers, seq![':', ' ']) + match body {
        Some(b) => seq!['\n'] + b,
        None => Seq::empty(),
    }
}

/// What the snippet of `e` is, given its full URL `s`: the `curl` command
/// line shows the URL as the URI parser writes it back.
pub open spec fn snippet_text(command: SnippetCmd, s: Seq<char>, e: Endpoint, body: Option<Seq<char>>) -> Seq<char> {
    match command {
        SnippetCmd::Curl(c) => curl_text(c.long, c.multiline, uri_text(s), e.method@, e.headers.0.pairs(), body),
        SnippetCmd::Http => http_text(e.method@, uri_path_query(s)->0, uri_host(s)->0, e.headers.0.pairs(), body),
    }
}

/// Whether a snippet can be made of `e` with full URL `s`.
pub open spec fn snippet_ok(command: SnippetCmd, s: Seq<char>) -> bool {
    match command {
        SnippetCmd::Curl(_) => true,
        SnippetCmd::Http => uri_path_query(s) is Some && uri_host(s) is Some,
    }
}

/// What `cmd` does: how the context after it relates to the one before.
pub open spec fn shown(before: &Ctx, after: &Ctx, args: Args, res: QuartzResult) -> bool {
    &&& after.project == before.project
    &&& same_settings(after, before)
    &&& after.code == before.code
    &&& after.stderr == before.stderr
    &&& res is Err ==> *after == *before
    &&& res is Err ==> !(stored_endpoint(before) is Some && all_pairs::<Variables>(views(args.variables@))
        && patch_well_formed(&args.patch)) || exists|e: Endpoint|
        prepared_for(before, views(args.variables@), &args.patch, e) && (full_url_of(e) is Err || !snippet_ok(
            args.command,
            full_url_of(e)->Ok_0,
        ))
    &&& res is Ok ==> exists|e: Endpoint|
        prepared_for(before, views(args.variables@), &args.patch, e) && full_url_of(e) is Ok
            && snippet_ok(args.command, full_url_of(e)->Ok_0) && after.stdout@ == before.stdout@
            + snippet_text(args.command, full_url_of(e)->Ok_0, e, body_of(before, e))
}

/// Prints a snippet (a `curl` command line, or the raw HTTP request) of the
/// endpoint in use, patched, with the environment applied.
///
/// Needs an endpoint in use and well-formed inputs; refused when the URL
/// is not one the URI parser accepts (with a path and a host, for the raw
/// request).
pub fn cmd(ctx: &mut Ctx, args: Args) -> (res: QuartzResult)
    requires
        stored_endpoint(old(ctx)) is Some,
        all_pairs::<Variables>(views(args.variables@)),
        patch_well_formed(&args.patch),
    ensures
        shown(old(ctx), final(ctx), args, res),
{
    let e = match prepare(ctx, &args.variables, &args.patch) {
        Ok(e) => e,
        Err(err) => return Err(err),
    };
    let url = match e.full_url() {
        Ok(u) => u,
        Err(_) => return Err(refuse("invalid URL", "", "")),
    };
    let body: Option<String> = match stored_body_of(ctx) {
        Some(b) => Some(resolve_body(b.as_str(), &e)),
        None => None,
    };
    let text = match &args.command {
        SnippetCmd::Curl(c) => {
            let b = match &body {
                Some(b) => Some(b.as_str()),
                None => None,
            };
            let shown = match uri_text_of(url.as_str()) {
                Some(t) => t,
                None => return Err(refuse("invalid URL", "", "")),
            };
            c.render(&e, shown.as_str(), b)
        },
        SnippetCmd::Http => {
            let pq = match uri_path_query_of(url.as_str()) {
                Some(Some(pq)) => pq,
                _ => return Err(refuse("invalid URL", "", "")),
            };
            let host = match uri_host_of(url.as_str()) {
                Some(Some(h)) => h,
                _ => return Err(refuse("invalid URL", "", "")),
            };
            let mut t = owned(e.method.as_str());
            push_str(&mut t, " ");
            push_str(&mut t, pq.as_str());
            push_str(&mut t, " HTTP/1.1\nHost: ");
            push_str(&mut t, host.as_str());
            push_str(&mut t, "\n");
            let hs = e.headers.to_text();
            push_str(&mut t, hs.as_str());
            if let Some(b) = &body {
                push_str(&mut t, "\n");
                push_str(&mut t, b.as_str());
            }
            proof {
                reveal_strlit(" ");
                reveal_strlit(" HTTP/1.1\nHost: ");
                reveal_strlit("\n");
                assert(t@ =~= http_text(
                    e.method@,
                    pq@,
                    host@,
                    e.headers.0.pairs(),
                    match body {
                        Some(b) => Some(b@),
                        None => None,
                    },
                ));
            }
            t
        },
    };
    ctx.print(text.as_str());
    Ok(())
}

} // verus!
