//! Sending the endpoint in use: preparing the request, following
//! redirects, and where its cookies belong.
use vstd::prelude::*;

use crate::action::body::{resolve_body, stored_body, stored_body_of};
use crate::action::pairs::{all_pairs, first_bad, fold_pairs, set_all};
use crate::action::snippet::full_url_of;
use crate::action::{env_variables, in_use, malformed, malformed_variable, stored_endpoint};
use crate::context::Variables;
use crate::cookie::{CookieJar, CookieView};
use crate::endpoint::{
    fold_colon_pairs, fold_eq_pairs, subst_all, subst_entries, Endpoint, EndpointPatch, Headers, Query,
};
use crate::strmap::as_map;
use crate::text::{join_strings, join_with, owned, push_str, starts_with, starts_with_str, views};
use crate::uri::{
    uri_authority, uri_authority_of, uri_build, uri_built, uri_host, uri_host_of, uri_is_valid, uri_parses,
    uri_scheme, uri_scheme_of,
};
use crate::{refuse, Ctx, PairMap, QuartzResult};

verus! {

/// Arguments of `send`.
pub struct Args {
    /// Headers to set, as `key: value`.
    pub headers: Vec<String>,
    /// Query parameters to set, as `key=value`.
    pub query: Vec<String>,
    /// Variables to set, as `key=value`.
    pub variables: Vec<String>,
    /// The method to use.
    pub request: Option<String>,
    /// The body to send.
    pub data: Option<String>,
    /// Do not follow redirects.
    pub no_follow: bool,
    /// Cookies to send: `name=value` pairs, or files of cookies.
    pub cookies: Vec<String>,
    /// Where to write the cookies afterwards.
    pub cookie_jar: Option<String>,
}

/// A request ready to be sent.
pub struct Request {
    /// The handle it is sent for.
    pub handle: String,
    pub endpoint: Endpoint,
    pub body: String,
}

/// `user-agent`.
pub open spec fn agent_key() -> Seq<char> {
    seq!['u', 's', 'e', 'r', '-', 'a', 'g', 'e', 'n', 't']
}

/// `Cookie`.
pub open spec fn cookie_key() -> Seq<char> {
    seq!['C', 'o', 'o', 'k', 'i', 'e']
}

/// Each cookie as `name=value`.
pub open spec fn cookie_pairs(s: Seq<CookieView>) -> Seq<Seq<char>> {
    s.map_values(|c: CookieView| c.name + seq!['='] + c.value)
}

/// The `Cookie` header: the cookies of the jar, then the extra ones, joined
/// by `; `.
pub open spec fn cookie_header(jar: Seq<CookieView>, extra: Seq<Seq<char>>) -> Seq<char> {
    join_with(cookie_pairs(jar) + extra, seq![';', ' '])
}

/// `e` is `r` with a `user-agent` header when it has none, the `Cookie`
/// header `cookie`, the changes of `args`, and the variables `vs`
/// substituted in order.
pub open spec fn send_prepared(
    r: Endpoint,
    agent: Seq<char>,
    cookie: Seq<char>,
    args: &Args,
    vs: Seq<(Seq<char>, Seq<char>)>,
    e: Endpoint,
) -> bool {
    let h0 = r.headers.0.map();
    let h1 = if h0.contains_key(agent_key()) {
        h0
    } else {
        h0.insert(agent_key(), agent)
    };
    let h2 = h1.insert(cookie_key(), cookie);
    exists|q: Seq<(Seq<char>, Seq<char>)>, h: Seq<(Seq<char>, Seq<char>)>|
        #![trigger as_map(q), as_map(h)]
        as_map(q) == fold_eq_pairs(r.query.0.map(), views(args.query@)) && as_map(h) == fold_colon_pairs(
            h2,
            views(args.headers@),
        ) && e.url@ == subst_all(r.url@, vs) && e.method@ == subst_all(
            match args.request {
                Some(m) => m@,
                None => r.method@,
            },
            vs,
        ) && e.query.0.pairs() == subst_entries(q, vs) && e.headers.0.pairs() == subst_entries(h, vs)
            && e.variables.0.pairs() == vs && e.path@ == r.path@
}

/// Copies of the texts.
fn copy_all(v: &Vec<String>) -> (res: Vec<String>)
    ensures
        views(res@) == views(v@),
{
    let mut res: Vec<String> = Vec::new();
    let mut i: usize = 0;
    while i < v.len()
        invariant
            i <= v@.len(),
            views(res@) == views(v@).take(i as int),
        decreases v.len() - i,
    {
        let ghost before = views(res@);
        let c = v[i].clone();
        res.push(c);
        assert(views(res@) =~= before.push(c@));
        assert(views(v@).take(i + 1) =~= views(v@).take(i as int).push(v@[i as int]@));
        assert(views(res@) =~= views(v@).take(i + 1));
        i = i + 1;
    }
    assert(views(v@).take(v@.len() as int) =~= views(v@));
    res
}

/// The `Cookie` header for the cookies of `jar` and the `extra` ones.
pub fn cookie_value(jar: &CookieJar, extra: &Vec<String>) -> (res: String)
    ensures
        res@ == cookie_header(jar@, views(extra@)),
{
    let mut items: Vec<String> = Vec::new();
    let mut i: usize = 0;
    while i < jar.len()
        invariant
            i <= jar@.len(),
            views(items@) == cookie_pairs(jar@.take(i as int)),
        decreases jar@.len() - i,
    {
        let c = jar.get(i);
        let mut s = owned(c.name());
        push_str(&mut s, "=");
        push_str(&mut s, c.value());
        proof {
            reveal_strlit("=");
            assert("="@ =~= seq!['=']);
            assert(s@ =~= jar@[i as int].name + seq!['='] + jar@[i as int].value);
        }
        let ghost before = views(items@);
        items.push(s);
        assert(views(items@) =~= before.push(s@));
        assert(jar@.take(i + 1) =~= jar@.take(i as int).push(jar@[i as int]));
        assert(cookie_pairs(jar@.take(i + 1)) =~= cookie_pairs(jar@.take(i as int)).push(s@));
        assert(views(items@) =~= cookie_pairs(jar@.take(i + 1)));
        i = i + 1;
    }
    assert(jar@.take(jar@.len() as int) =~= jar@);
    let mut k: usize = 0;
    while k < extra.len()
        invariant
            k <= extra@.len(),
            views(items@) == cookie_pairs(jar@) + views(extra@).take(k as int),
        decreases extra.len() - k,
    {
        let ghost before = views(items@);
        let c = extra[k].clone();
        items.push(c);
        assert(views(items@) =~= before.push(c@));
        assert(views(extra@).take(k + 1) =~= views(extra@).take(k as int).push(extra@[k as int]@));
        assert(views(items@) =~= cookie_pairs(jar@) + views(extra@).take(k + 1));
        k = k + 1;
    }
    assert(views(extra@).take(extra@.len() as int) =~= views(extra@));
    let r = join_strings(&items, "; ");
    proof {
        reveal_strlit("; ");
        assert("; "@ =~= seq![';', ' ']);
    }
    r
}

/// The request for the endpoint in use: a `user-agent` header added when it
/// has none, the `Cookie` header of the cookies of `jar` and the `extra`
/// ones, the changes of `args` applied, the environment in use (with the
/// variables of `args` set) substituted; the body given, else the stored one
/// with the variables substituted.
///
/// Needs an endpoint in use and well-formed inputs.
pub fn prepare(ctx: &Ctx, args: &Args, jar: &CookieJar, extra: &Vec<String>) -> (res: QuartzResult<Request>)
    requires
        stored_endpoint(ctx) is Some,
        all_pairs::<Variables>(views(args.variables@)),
        all_pairs::<Query>(views(args.query@)),
        all_pairs::<Headers>(views(args.headers@)),
    ensures
        res is Ok <==> (stored_endpoint(ctx) is Some && all_pairs::<Variables>(views(args.variables@))
            && all_pairs::<Query>(views(args.query@)) && all_pairs::<Headers>(views(args.headers@))),
        res matches Ok(req) ==> exists|r: Endpoint, vs: Seq<(Seq<char>, Seq<char>)>|
            #![trigger in_use(ctx, r), as_map(vs)]
            in_use(ctx, r) && as_map(vs) == fold_pairs::<Variables>(env_variables(ctx), views(args.variables@))
                && send_prepared(
                r,
                seq!['q', 'u', 'a', 'r', 't', 'z', '/'] + crate::spec_version(),
                cookie_header(jar@, views(extra@)),
                args,
                vs,
                req.endpoint,
            ) && req.handle@ == ctx.current_handle()->0 && req.body@ == match args.data {
                Some(d) => d@,
                None => match stored_body(ctx) {
                    Some(b) => subst_all(b, vs),
                    None => Seq::empty(),
                },
            },
{
    let (h, mut endpoint) = match ctx.require_endpoint() {
        Ok(x) => x,
        Err(e) => return Err(e),
    };
    let ghost r = endpoint;
    assert(in_use(ctx, r));
    let mut env = ctx.require_env();
    if first_bad::<Variables>(&args.variables).is_some() {
        return Err(malformed_variable());
    }
    let patch = EndpointPatch {
        url: None,
        method: match &args.request {
            Some(m) => Some(m.clone()),
            None => None,
        },
        query: copy_all(&args.query),
        headers: copy_all(&args.headers),
    };
    if let Some((_, is_header)) = patch.first_malformed() {
        proof {
            if all_pairs::<Query>(views(args.query@)) && all_pairs::<Headers>(views(args.headers@)) {
                assert forall|i: int| 0 <= i < patch.query@.len() implies crate::spec_eq_pair(
                    #[trigger] patch.query@[i]@,
                ) is Some by {
                    assert(patch.query@[i]@ == views(args.query@)[i]);
                }
                assert forall|i: int| 0 <= i < patch.headers@.len() implies crate::endpoint::spec_colon_pair(
                    #[trigger] patch.headers@[i]@,
                ) is Some by {
                    assert(patch.headers@[i]@ == views(args.headers@)[i]);
                }
            }
        }
        return Err(malformed(is_header));
    }
    proof {
        assert forall|i: int| 0 <= i < views(args.query@).len() implies Query::spec_pair(
            #[trigger] views(args.query@)[i],
        ) is Some by {
            assert(patch.query@[i]@ == views(args.query@)[i]);
        }
        assert forall|i: int| 0 <= i < views(args.headers@).len() implies Headers::spec_pair(
            #[trigger] views(args.headers@)[i],
        ) is Some by {
            assert(patch.headers@[i]@ == views(args.headers@)[i]);
        }
    }
    assert(env.variables.0.map() =~= env_variables(ctx));
    set_all(&mut env.variables, &args.variables);
    proof {
        reveal_strlit("user-agent");
        reveal_strlit("Cookie");
        assert("user-agent"@ =~= agent_key());
        assert("Cookie"@ =~= cookie_key());
    }
    if !endpoint.headers.0.contains_key("user-agent") {
        endpoint.headers.0.insert(owned("user-agent"), Ctx::user_agent());
    }
    let cookie = cookie_value(jar, extra);
    endpoint.headers.0.insert(owned("Cookie"), cookie);
    endpoint.update(&patch);
    let ghost q = endpoint.query.0.pairs();
    let ghost hh = endpoint.headers.0.pairs();
    endpoint.apply_env(&env);
    let ghost vs = env.variables.0.pairs();
    assert(as_map(q) == fold_eq_pairs(r.query.0.map(), views(args.query@)));
    assert(send_prepared(
        r,
        seq!['q', 'u', 'a', 'r', 't', 'z', '/'] + crate::spec_version(),
        cookie_header(jar@, views(extra@)),
        args,
        vs,
        endpoint,
    ));
    assert(as_map(vs) == env.variables.0.map());
    let body = match &args.data {
        Some(d) => d.clone(),
        None => match stored_body_of(ctx) {
            Some(b) => resolve_body(b.as_str(), &endpoint),
            None => String::new(),
        },
    };
    let handle = h.handle();
    proof {
        crate::endpoint::law_handle_round_trip(ctx.current_handle()->0);
    }
    Ok(Request { handle, endpoint, body })
}

/// The URL to send the request to next after a response with `status` and
/// an optional `Location` header, or `None` to stop: redirects (statuses
/// 300 to 399) are followed unless `no_follow`; a location starting with
/// `/` is resolved against the scheme and authority of the full URL; another
/// location is used when the URI parser accepts it; otherwise the request
/// is sent again to the same URL.
pub open spec fn spec_follow(e: Endpoint, no_follow: bool, status: u16, location: Option<Seq<char>>) -> Result<
    Option<Seq<char>>,
    (),
> {
    if no_follow || !(300 <= status <= 399) {
        Ok(None)
    } else {
        match location {
            None => Ok(Some(e.url@)),
            Some(l) => if starts_with(l, seq!['/']) {
                match full_url_of(e) {
                    Ok(s) => match (uri_scheme(s), uri_authority(s)) {
                        (Some(sc), Some(au)) => match uri_built(sc, au, l) {
                            Some(b) => Ok(Some(b)),
                            None => Err(()),
                        },
                        _ => Err(()),
                    },
                    Err(_) => Err(()),
                }
            } else if uri_parses(l) {
                Ok(Some(l))
            } else {
                Ok(Some(e.url@))
            },
        }
    }
}

/// Where to send the request next, after a response with `status` and an
/// optional `Location` header; `None` to stop.
pub fn follow(e: &Endpoint, no_follow: bool, status: u16, location: Option<&str>) -> (res: QuartzResult<
    Option<String>,
>)
    ensures
        match spec_follow(
            *e,
            no_follow,
            status,
            match location {
                Some(l) => Some(l@),
                None => None,
            },
        ) {
            Ok(None) => res matches Ok(None),
            Ok(Some(u)) => res matches Ok(Some(v)) && v@ == u,
            Err(_) => res is Err,
        },
{
    if no_follow || !(300 <= status && status <= 399) {
        return Ok(None);
    }
    let l = match location {
        Some(l) => l,
        None => return Ok(Some(e.url.clone())),
    };
    proof {
        reveal_strlit("/");
        assert("/"@ =~= seq!['/']);
    }
    if starts_with_str(l, "/") {
        let url = match e.full_url() {
            Ok(u) => u,
            Err(_) => return Err(refuse("invalid URL", "", "")),
        };
        let scheme = match uri_scheme_of(url.as_str()) {
            Some(Some(s)) => s,
            _ => return Err(refuse("invalid URL", "", "")),
        };
        let authority = match uri_authority_of(url.as_str()) {
            Some(Some(a)) => a,
            _ => return Err(refuse("invalid URL", "", "")),
        };
        match uri_build(scheme.as_str(), authority.as_str(), l) {
            Some(b) => Ok(Some(b)),
            None => Err(refuse("invalid redirect location ", l, "")),
        }
    } else if uri_is_valid(l) {
        Ok(Some(owned(l)))
    } else {
        Ok(Some(e.url.clone()))
    }
}

/// The domain that the cookies a response sets belong to: the host of the
/// full URL of `e`.
///
/// Refused when the URL has no host the URI parser gives.
pub fn cookie_domain(e: &Endpoint) -> (res: QuartzResult<String>)
    ensures
        match full_url_of(*e) {
            Ok(s) => match uri_host(s) {
                Some(hst) => res matches Ok(d) && d@ == hst,
                None => res is Err,
            },
            Err(_) => res is Err,
        },
{
    let url = match e.full_url() {
        Ok(u) => u,
        Err(_) => return Err(refuse("invalid URL", "", "")),
    };
    match uri_host_of(url.as_str()) {
        Some(Some(h)) => Ok(h),
        _ => Err(refuse("invalid URL", "", "")),
    }
}

} // verus!
