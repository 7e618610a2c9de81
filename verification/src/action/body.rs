//! The request body of the endpoint in use.
use vstd::prelude::*;

use crate::action::{in_use, same_settings, stored_endpoint};
use crate::endpoint::{handle_dir, subst_all, Endpoint};
use crate::project::put_entry;
use crate::text::{contains_sub, owned, push_str, replace_str, split_on};
use crate::cli::BodyCmd;
use crate::{Ctx, QuartzResult};

verus! {

/// Arguments of `body`: the format to read the body as, and the command.
pub struct Args {
    /// Which extension to read the body as, such as `json`.
    pub format: Option<String>,
    pub command: BodyCmd,
}

/// The stored body of the handle in use, when it has one.
pub open spec fn stored_body(ctx: &Ctx) -> Option<Seq<char>> {
    match ctx.current_handle() {
        Some(t) => match ctx.project.lookup(split_on(t, '/')) {
            Some(e) => match e.body {
                Some(b) => Some(b@),
                None => None,
            },
            None => None,
        },
        None => None,
    }
}

/// The stored body of the handle in use, when it has one.
pub fn stored_body_of(ctx: &Ctx) -> (res: Option<String>)
    ensures
        match res {
            Some(b) => stored_body(ctx) == Some(b@),
            None => stored_body(ctx) is None,
        },
{
    let t = match &ctx.args.from_handle {
        Some(h) => h.as_str(),
        None => match &ctx.project.state_endpoint {
            Some(s) => if crate::text::str_is_empty(s.as_str()) {
                return None;
            } else {
                s.as_str()
            },
            None => return None,
        },
    };
    let h = crate::endpoint::EndpointHandle::from(t);
    match ctx.project.find(&h.path) {
        Some(i) => {
            proof {
                crate::project::lemma_handle_index(ctx.project.handles@, h.segments());
            }
            match &ctx.project.handles[i].body {
                Some(b) => Some(b.clone()),
                None => None,
            }
        },
        None => None,
    }
}

/// The body `body` with each `{{key}}` of the variables `r` carries
/// replaced by its value.
pub fn resolve_body(body: &str, r: &Endpoint) -> (res: String)
    ensures
        res@ == subst_all(body@, r.variables.0.pairs()),
{
    let vars = &r.variables.0;
    let n = vars.len();
    let mut out = owned(body);
    let mut i: usize = 0;
    while i < n
        invariant
            n == vars.pairs().len(),
            i <= n,
            out@ == subst_all(body@, vars.pairs().take(i as int)),
        decreases n - i,
    {
        let mut key_match = owned("{{");
        push_str(&mut key_match, vars.key_at(i).as_str());
        push_str(&mut key_match, "}}");
        proof {
            reveal_strlit("{{");
            reveal_strlit("}}");
            assert(key_match@ =~= crate::endpoint::braces(vars.pairs()[i as int].0));
            assert(vars.pairs().take(i + 1).drop_last() =~= vars.pairs().take(i as int));
        }
        out = replace_str(out.as_str(), key_match.as_str(), vars.value_at(i).as_str());
        i = i + 1;
    }
    assert(vars.pairs().take(n as int) =~= vars.pairs());
    out
}

/// What `print` does: how the context after it relates to the one before.
pub open spec fn printed(before: &Ctx, after: &Ctx, res: QuartzResult) -> bool {
    &&& after.project == before.project
    &&& same_settings(after, before)
    &&& after.code == before.code
    &&& after.stderr == before.stderr
    &&& res is Ok <==> stored_endpoint(before) is Some
    &&& res is Err ==> *after == *before
    &&& res is Ok ==> exists|r: Endpoint|
        in_use(before, r) && after.stdout@ == before.stdout@ + match stored_body(before) {
            Some(b) => subst_all(b, r.variables.0.pairs()),
            None => Seq::empty(),
        }
}

/// Prints the body of the endpoint in use with the variables it carries
/// applied; nothing when it has no body.
///
/// Needs an endpoint in use.
pub fn print(ctx: &mut Ctx) -> (res: QuartzResult)
    requires
        stored_endpoint(old(ctx)) is Some,
    ensures
        printed(old(ctx), final(ctx), res),
{
    let (h, endpoint) = match ctx.require_endpoint() {
        Ok(x) => x,
        Err(e) => return Err(e),
    };
    assert(in_use(ctx, endpoint));
    let i = ctx.project.find(&h.path).unwrap();
    proof {
        crate::project::lemma_handle_index(ctx.project.handles@, h.segments());
    }
    let text = match &ctx.project.handles[i].body {
        Some(b) => resolve_body(b.as_str(), &endpoint),
        None => String::new(),
    };
    ctx.print(text.as_str());
    Ok(())
}

/// Sets the body of the handle in use to `input`; nothing happens when the
/// handle does not exist.
///
/// Needs a handle in use.
pub fn stdin(ctx: &mut Ctx, input: String) -> (res: QuartzResult)
    requires
        old(ctx).current_handle() is Some,
        old(ctx).project.wf(),
    ensures
        final(ctx).project.wf(),
        same_settings(final(ctx), old(ctx)),
        final(ctx).code == old(ctx).code,
        final(ctx).stdout == old(ctx).stdout,
        final(ctx).stderr == old(ctx).stderr,
        res is Ok <==> old(ctx).current_handle() is Some,
        res is Err ==> *final(ctx) == *old(ctx),
        res is Ok ==> ({
            let p = split_on(old(ctx).current_handle()->0, '/');
            final(ctx).project.store() == if old(ctx).project.has(p) {
                put_entry(
                    old(ctx).project.store(),
                    p,
                    old(ctx).project.store()(p)->0.endpoint,
                    Some(input@),
                )
            } else {
                old(ctx).project.store()
            }
        }),
        final(ctx).project.envs == old(ctx).project.envs,
        final(ctx).project.state_endpoint == old(ctx).project.state_endpoint,
        final(ctx).project.state_env == old(ctx).project.state_env,
        final(ctx).project.state_previous == old(ctx).project.state_previous,
        final(ctx).project.history == old(ctx).project.history,
{
    let h = match ctx.require_handle() {
        Ok(h) => h,
        Err(e) => return Err(e),
    };
    if let Some(i) = ctx.project.find(&h.path) {
        proof {
            crate::project::lemma_handle_index(ctx.project.handles@, h.segments());
        }
        let endpoint = match &ctx.project.handles[i].endpoint {
            Some(e) => Some(e.duplicate()),
            None => None,
        };
        ctx.project.set_entry(&h.path, endpoint, Some(input));
    }
    Ok(())
}

/// The format a body is edited as, after a content type: the first of
/// `json`, `html` and `xml` it holds.
pub open spec fn body_format(content_type: Seq<char>) -> Option<Seq<char>> {
    if contains_sub(content_type, seq!['j', 's', 'o', 'n']) {
        Some(seq!['j', 's', 'o', 'n'])
    } else if contains_sub(content_type, seq!['h', 't', 'm', 'l']) {
        Some(seq!['h', 't', 'm', 'l'])
    } else if contains_sub(content_type, seq!['x', 'm', 'l']) {
        Some(seq!['x', 'm', 'l'])
    } else {
        None
    }
}

/// `content-type`.
pub open spec fn content_type_key() -> Seq<char> {
    seq!['c', 'o', 'n', 't', 'e', 'n', 't', '-', 't', 'y', 'p', 'e']
}

/// What editing the body of the handle in use works on: the body file, and
/// the format to edit it as: the one given, else the one the endpoint's
/// `content-type` header names.
///
/// Needs a handle in use, and an endpoint when no format is given.
pub fn edit(ctx: &Ctx, format: Option<String>) -> (res: QuartzResult<(String, Option<String>)>)
    requires
        ctx.current_handle() is Some,
        format is Some || stored_endpoint(ctx) is Some,
    ensures
        res is Ok <==> (ctx.current_handle() is Some && (format is Some || stored_endpoint(ctx) is Some)),
        res matches Ok((path, ext)) ==> {
            let p = split_on(ctx.current_handle()->0, '/');
            &&& path@ == handle_dir(ctx.path@, p) + seq!['/', 'b', 'o', 'd', 'y']
            &&& match format {
                Some(f) => ext matches Some(e) && e@ == f@,
                None => exists|r: Endpoint|
                    in_use(ctx, r) && match (if r.headers.0.map().contains_key(content_type_key()) {
                        body_format(r.headers.0.map()[content_type_key()])
                    } else {
                        None
                    }) {
                        Some(f) => ext matches Some(e) && e@ == f,
                        None => ext is None,
                    },
            }
        },
{
    let h = match ctx.require_handle() {
        Ok(h) => h,
        Err(e) => return Err(e),
    };
    let mut path = h.dir(ctx.path.as_str());
    push_str(&mut path, "/body");
    proof {
        reveal_strlit("/body");
        assert("/body"@ =~= seq!['/', 'b', 'o', 'd', 'y']);
    }
    let ext = match format {
        Some(f) => Some(f),
        None => {
            let endpoint = match ctx.require_endpoint_from_handle(&h) {
                Ok(e) => e,
                Err(e) => return Err(e),
            };
            assert(in_use(ctx, endpoint));
            proof {
                reveal_strlit("content-type");
                reveal_strlit("json");
                reveal_strlit("html");
                reveal_strlit("xml");
                assert("content-type"@ =~= content_type_key());
                assert("json"@ =~= seq!['j', 's', 'o', 'n']);
                assert("html"@ =~= seq!['h', 't', 'm', 'l']);
                assert("xml"@ =~= seq!['x', 'm', 'l']);
            }
            let ext = match endpoint.headers.0.get("content-type") {
                Some(content) => {
                    if crate::text::contains_str(content.as_str(), "json") {
                        Some(owned("json"))
                    } else if crate::text::contains_str(content.as_str(), "html") {
                        Some(owned("html"))
                    } else if crate::text::contains_str(content.as_str(), "xml") {
                        Some(owned("xml"))
                    } else {
                        None
                    }
                },
                None => None,
            };
            assert(match (if endpoint.headers.0.map().contains_key(content_type_key()) {
                body_format(endpoint.headers.0.map()[content_type_key()])
            } else {
                None
            }) {
                Some(f) => ext matches Some(e) && e@ == f,
                None => ext is None,
            });
            ext
        },
    };
    Ok((path, ext))
}

} // verus!
