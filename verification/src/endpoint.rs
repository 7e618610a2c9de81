//! Endpoints (request templates) and the handles that name them.
use vstd::prelude::*;

use crate::context::{map_text, pairs_text, Context, Variables};
use crate::strmap::{ins_all, pair_views, subst_pairs, StrMap};
use crate::text::{
    chars_of, contains_char, contains_str, contains_sub, join_strings, join_with, lemma_join_split, lemma_split_join, owned, push_char,
    push_str, replace_all, replace_str, split_char, split_on, split_once_at_str, split_once_sub,
    str_eq, trim, trim_ws, views,
};
use crate::uri::{uri_is_valid, uri_parses};
use crate::state::StateField;
use crate::{eq_pair, spec_eq_pair, Ctx, PairMap};

verus! {

// ---------------------------------------------------------------------------
// Query and headers
// ---------------------------------------------------------------------------
/// The query parameters of an endpoint.
pub struct Query(pub StrMap);

/// The headers of an endpoint.
pub struct Headers(pub StrMap);

/// A header input: the key before the first `": "`, the value after it.
pub open spec fn spec_colon_pair(input: Seq<char>) -> Option<(Seq<char>, Seq<char>)> {
    split_once_sub(input, seq![':', ' '])
}

impl PairMap for Query {
    open spec fn spec_pair(input: Seq<char>) -> Option<(Seq<char>, Seq<char>)> {
        spec_eq_pair(input)
    }

    open spec fn spec_map(&self) -> Map<Seq<char>, Seq<char>> {
        self.0.map()
    }

    fn name() -> (res: String)
        ensures
            res@ == seq!['q', 'u', 'e', 'r', 'y', ' ', 'p', 'a', 'r', 'a', 'm'],
    {
        proof {
            reveal_strlit("query param");
        }
        owned("query param")
    }

    fn expected() -> (res: String)
        ensures
            res@ == seq!['<', 'k', 'e', 'y', '>', '=', '<', 'v', 'a', 'l', 'u', 'e', '>'],
    {
        proof {
            reveal_strlit("<key>=<value>");
        }
        owned("<key>=<value>")
    }

    fn map(&self) -> (res: &StrMap) {
        &self.0
    }

    fn pair(input: &str) -> (res: Option<(String, String)>) {
        eq_pair(input)
    }

    fn set(&mut self, input: &str) {
        match eq_pair(input) {
            Some((k, v)) => {
                self.0.insert(k, v);
            },
            None => {},
        }
    }
}

impl PairMap for Headers {
    open spec fn spec_pair(input: Seq<char>) -> Option<(Seq<char>, Seq<char>)> {
        spec_colon_pair(input)
    }

    open spec fn spec_map(&self) -> Map<Seq<char>, Seq<char>> {
        self.0.map()
    }

    fn name() -> (res: String)
        ensures
            res@ == seq!['h', 'e', 'a', 'd', 'e', 'r'],
    {
        proof {
            reveal_strlit("header");
        }
        owned("header")
    }

    fn expected() -> (res: String)
        ensures
            res@ == seq!['<', 'k', 'e', 'y', '>', ':', ' ', '[', 'v', 'a', 'l', 'u', 'e', ']'],
    {
        proof {
            reveal_strlit("<key>: [value]");
        }
        owned("<key>: [value]")
    }

    fn map(&self) -> (res: &StrMap) {
        &self.0
    }

    fn pair(input: &str) -> (res: Option<(String, String)>) {
        let r = split_once_at_str(input, ": ");
        proof {
            reveal_strlit(": ");
            assert(": "@ =~= seq![':', ' ']);
        }
        r
    }

    fn set(&mut self, input: &str) {
        match Self::pair(input) {
            Some((k, v)) => {
                self.0.insert(k, v);
            },
            None => {},
        }
    }
}

impl Query {
    /// The parameters as `key=value` lines.
    pub fn to_text(&self) -> (res: String)
        ensures
            res@ == pairs_text(self.0.pairs(), seq!['=']),
    {
        let r = map_text(&self.0, "=");
        proof {
            reveal_strlit("=");
            assert("="@ =~= seq!['=']);
        }
        r
    }
}

impl Headers {
    /// The headers as `key: value` lines.
    pub fn to_text(&self) -> (res: String)
        ensures
            res@ == pairs_text(self.0.pairs(), seq![':', ' ']),
    {
        let r = map_text(&self.0, ": ");
        proof {
            reveal_strlit(": ");
            assert(": "@ =~= seq![':', ' ']);
        }
        r
    }
}

// ---------------------------------------------------------------------------
// Handles
// ---------------------------------------------------------------------------
/// The name of an endpoint: the names of its ancestors and its own.
pub struct EndpointHandle {
    /// List of ordered parent names
    pub path: Vec<String>,
}

/// A handle's directory name for one segment: trimmed, with `/` and `\`
/// replaced by `-`.
pub open spec fn dir_name(name: Seq<char>) -> Seq<char> {
    trim_ws(name).map_values(|c: char| if c == '/' || c == '\\' { '-' } else { c })
}

/// The directory of a handle under the project directory `root`.
pub open spec fn handle_dir(root: Seq<char>, path: Seq<Seq<char>>) -> Seq<char>
    decreases path.len(),
{
    if path.len() == 0 {
        root + seq!['/', 'e', 'n', 'd', 'p', 'o', 'i', 'n', 't', 's']
    } else {
        handle_dir(root, path.drop_last()) + seq!['/'] + dir_name(path.last())
    }
}

/// The handle the state names: the command line's handle when given, else
/// the recorded one.
pub open spec fn state_handle(ctx: &Ctx) -> Option<Seq<char>> {
    match ctx.state.handle {
        Some(h) => Some(h@),
        None => match ctx.project.state_endpoint {
            Some(t) => Some(t@),
            None => None,
        },
    }
}

impl EndpointHandle {
    /// The handle's segments.
    pub open spec fn segments(&self) -> Seq<Seq<char>> {
        views(self.path@)
    }

    /// The handle of a `/`-separated name.
    pub fn from(value: &str) -> (res: EndpointHandle)
        ensures
            res.segments() == split_on(value@, '/'),
    {
        EndpointHandle { path: split_char(value, '/') }
    }

    /// The handle the state names: the command line's handle when given,
    /// else the recorded one; `None` when there is none or it is empty.
    pub fn from_state(ctx: &Ctx) -> (res: Option<EndpointHandle>)
        ensures
            match state_handle(ctx) {
                Some(t) => if t.len() == 0 {
                    res is None
                } else {
                    res matches Some(h) && h.segments() == split_on(t, '/')
                },
                None => res is None,
            },
    {
        match ctx.state.get(&ctx.project, StateField::Endpoint) {
            Some(h) => if crate::text::str_is_empty(h.as_str()) {
                None
            } else {
                Some(EndpointHandle::from(h.as_str()))
            },
            None => None,
        }
    }

    /// The top-level handle, parent of every other.
    pub fn quartz() -> (res: EndpointHandle)
        ensures
            res.segments() == Seq::<Seq<char>>::empty(),
    {
        let r = EndpointHandle { path: Vec::new() };
        assert(r.segments() =~= Seq::<Seq<char>>::empty());
        r
    }

    /// The handle's own (last) segment, or empty for the top-level handle.
    pub fn head(&self) -> (res: String)
        ensures
            res@ == (if self.segments().len() == 0 {
                Seq::<char>::empty()
            } else {
                self.segments().last()
            }),
    {
        if self.path.len() == 0 {
            String::new()
        } else {
            self.path[self.path.len() - 1].clone()
        }
    }

    /// The `/`-separated name of the handle.
    pub fn handle(&self) -> (res: String)
        ensures
            res@ == join_with(self.segments(), seq!['/']),
    {
        let r = join_strings(&self.path, "/");
        proof {
            reveal_strlit("/");
            assert("/"@ =~= seq!['/']);
        }
        r
    }

    /// How many segments the handle has.
    pub fn depth(&self) -> (res: usize)
        ensures
            res == self.segments().len(),
    {
        self.path.len()
    }

    /// The handle's directory under the project directory `root`.
    pub fn dir(&self, root: &str) -> (res: String)
        ensures
            res@ == handle_dir(root@, self.segments()),
    {
        let mut result = owned(root);
        push_str(&mut result, "/endpoints");
        proof {
            reveal_strlit("/endpoints");
        }
        let mut i: usize = 0;
        while i < self.path.len()
            invariant
                i <= self.path.len(),
                result@ == handle_dir(root@, self.segments().take(i as int)),
            decreases self.path.len() - i,
        {
            let name = Endpoint::name_to_dir(self.path[i].as_str());
            push_str(&mut result, "/");
            push_str(&mut result, name.as_str());
            proof {
                reveal_strlit("/");
                assert(self.segments().take(i + 1).drop_last() =~= self.segments().take(i as int));
            }
            i = i + 1;
        }
        assert(self.segments().take(self.path.len() as int) =~= self.segments());
        result
    }

    /// The handle whose name is this one's with every `from` replaced by
    /// `to`.
    pub fn replace(&mut self, from: &str, to: &str)
        ensures
            final(self).segments() == split_on(
                replace_all(join_with(old(self).segments(), seq!['/']), from@, to@),
                '/',
            ),
    {
        let handle = self.handle();
        let handle = replace_str(handle.as_str(), from, to);
        self.path = EndpointHandle::from(handle.as_str()).path;
    }
}

/// A handle built from a name gives that name back.
pub proof fn law_handle_round_trip(name: Seq<char>)
    ensures
        join_with(split_on(name, '/'), seq!['/']) == name,
{
    lemma_join_split(name, '/');
}

/// A handle's name gives back that handle, when no segment holds `/`.
pub proof fn law_handle_name_round_trip(segments: Seq<Seq<char>>)
    requires
        segments.len() >= 1,
        forall|k: int| 0 <= k < segments.len() ==> !(#[trigger] segments[k]).contains('/'),
    ensures
        split_on(join_with(segments, seq!['/']), '/') == segments,
{
    lemma_split_join(segments, '/');
}

// ---------------------------------------------------------------------------
// Endpoints
// ---------------------------------------------------------------------------
/// A request template.
pub struct Endpoint {
    pub url: String,
    /// HTTP Request method
    pub method: String,
    /// Query params.
    pub query: Query,
    /// List of (key, value) pairs.
    pub headers: Headers,
    /// Variable values applied from an environment
    pub variables: Variables,
    /// The endpoint's directory.
    pub path: String,
}

/// The two endpoints hold the same request.
pub open spec fn same_endpoint(a: Endpoint, b: Endpoint) -> bool {
    &&& a.url@ == b.url@
    &&& a.method@ == b.method@
    &&& a.query.0.pairs() == b.query.0.pairs()
    &&& a.headers.0.pairs() == b.headers.0.pairs()
    &&& a.variables.0.pairs() == b.variables.0.pairs()
    &&& a.path@ == b.path@
}

impl Endpoint {
    /// A copy of the endpoint.
    pub fn duplicate(&self) -> (res: Endpoint)
        ensures
            same_endpoint(res, *self),
    {
        Endpoint {
            url: self.url.clone(),
            method: self.method.clone(),
            query: Query(self.query.0.duplicate()),
            headers: Headers(self.headers.0.duplicate()),
            variables: Variables(self.variables.0.duplicate()),
            path: self.path.clone(),
        }
    }

    /// Sets the endpoint's directory to the one of `handle` under the
    /// project directory `root`.
    pub fn set_handle(&mut self, root: &str, handle: &EndpointHandle)
        ensures
            final(self).path@ == handle_dir(root@, handle.segments()),
            final(self).url == old(self).url,
            final(self).method == old(self).method,
            final(self).query == old(self).query,
            final(self).headers == old(self).headers,
            final(self).variables == old(self).variables,
    {
        self.path = handle.dir(root);
    }
}

/// Changes to apply to an endpoint.
pub struct EndpointPatch {
    /// Request URL
    pub url: Option<String>,
    /// HTTP request method
    pub method: Option<String>,
    /// Parameters to add to the URL query, as `key=value`
    pub query: Vec<String>,
    /// Header entries, as `key: value`
    pub headers: Vec<String>,
}

/// The entries after inserting, in order, the `key=value` pairs of `ls`.
pub open spec fn fold_eq_pairs(m: Map<Seq<char>, Seq<char>>, ls: Seq<Seq<char>>) -> Map<
    Seq<char>,
    Seq<char>,
>
    decreases ls.len(),
{
    if ls.len() == 0 {
        m
    } else {
        let p = spec_eq_pair(ls.last())->0;
        fold_eq_pairs(m, ls.drop_last()).insert(p.0, p.1)
    }
}

/// The entries after inserting, in order, the `key: value` pairs of `ls`.
pub open spec fn fold_colon_pairs(m: Map<Seq<char>, Seq<char>>, ls: Seq<Seq<char>>) -> Map<
    Seq<char>,
    Seq<char>,
>
    decreases ls.len(),
{
    if ls.len() == 0 {
        m
    } else {
        let p = spec_colon_pair(ls.last())->0;
        fold_colon_pairs(m, ls.drop_last()).insert(p.0, p.1)
    }
}

/// Every input of `patch` is a well-formed pair.
pub open spec fn patch_well_formed(patch: &EndpointPatch) -> bool {
    &&& forall|i: int| 0 <= i < patch.query@.len() ==> spec_eq_pair(#[trigger] patch.query@[i]@) is Some
    &&& forall|i: int|
        0 <= i < patch.headers@.len() ==> spec_colon_pair(#[trigger] patch.headers@[i]@) is Some
}

impl EndpointPatch {
    /// A patch that changes nothing.
    pub fn new() -> (res: EndpointPatch)
        ensures
            res.url is None,
            res.method is None,
            res.query@.len() == 0,
            res.headers@.len() == 0,
    {
        EndpointPatch { url: None, method: None, query: Vec::new(), headers: Vec::new() }
    }

    /// Whether applying the patch changes anything.
    pub fn has_changes(&self) -> (res: bool)
        ensures
            res == (self.url is Some || self.method is Some || self.query@.len() > 0
                || self.headers@.len() > 0),
    {
        self.url.is_some() || self.method.is_some() || self.query.len() > 0
            || self.headers.len() > 0
    }

    /// The first input of the patch that is not a well-formed pair, with
    /// whether it is a header.
    pub fn first_malformed(&self) -> (res: Option<(String, bool)>)
        ensures
            res is None <==> patch_well_formed(self),
    {
        let mut i: usize = 0;
        while i < self.query.len()
            invariant
                i <= self.query@.len(),
                forall|j: int| 0 <= j < i ==> spec_eq_pair(#[trigger] self.query@[j]@) is Some,
            decreases self.query.len() - i,
        {
            if eq_pair(self.query[i].as_str()).is_none() {
                return Some((self.query[i].clone(), false));
            }
            i = i + 1;
        }
        let mut j: usize = 0;
        while j < self.headers.len()
            invariant
                j <= self.headers@.len(),
                forall|k: int| 0 <= k < self.query@.len() ==> spec_eq_pair(#[trigger] self.query@[k]@) is Some,
                forall|k: int|
                    0 <= k < j ==> spec_colon_pair(#[trigger] self.headers@[k]@) is Some,
            decreases self.headers.len() - j,
        {
            if Headers::pair(self.headers[j].as_str()).is_none() {
                return Some((self.headers[j].clone(), true));
            }
            j = j + 1;
        }
        None
    }
}

/// `{{key}}`, the pattern a variable replaces.
pub open spec fn braces(key: Seq<char>) -> Seq<char> {
    seq!['{', '{'] + key + seq!['}', '}']
}

/// `s` after replacing, variable by variable in order, each `{{key}}` by its
/// value.
pub open spec fn subst_all(s: Seq<char>, vars: Seq<(Seq<char>, Seq<char>)>) -> Seq<char>
    decreases vars.len(),
{
    if vars.len() == 0 {
        s
    } else {
        replace_all(subst_all(s, vars.drop_last()), braces(vars.last().0), vars.last().1)
    }
}

/// Entries after replacing, variable by variable in order, each `{{key}}`
/// in every key and value; entries whose keys become equal merge, the later
/// one winning.
pub open spec fn subst_entries(
    ps: Seq<(Seq<char>, Seq<char>)>,
    vars: Seq<(Seq<char>, Seq<char>)>,
) -> Seq<(Seq<char>, Seq<char>)>
    decreases vars.len(),
{
    if vars.len() == 0 {
        ps
    } else {
        ins_all(
            Seq::empty(),
            subst_pairs(subst_entries(ps, vars.drop_last()), braces(vars.last().0), vars.last().1),
        )
    }
}

/// The colour in which a method is shown.
#[derive(PartialEq, Eq, Structural, Clone, Copy, Debug)]
pub enum MethodColor {
    Blue,
    Green,
    Yellow,
    Red,
    Cyan,
    White,
}

/// The colour of each method.
pub open spec fn spec_method_color(method: Seq<char>) -> MethodColor {
    if method == seq!['G', 'E', 'T'] {
        MethodColor::Blue
    } else if method == seq!['P', 'O', 'S', 'T'] {
        MethodColor::Green
    } else if method == seq!['P', 'U', 'T'] || method == seq!['P', 'A', 'T', 'C', 'H'] {
        MethodColor::Yellow
    } else if method == seq!['D', 'E', 'L', 'E', 'T', 'E'] {
        MethodColor::Red
    } else if method == seq!['O', 'P', 'T', 'I', 'O', 'N', 'S'] || method == seq![
        'H',
        'E',
        'A',
        'D',
    ] {
        MethodColor::Cyan
    } else {
        MethodColor::White
    }
}

/// The colour in which `method` is shown.
pub fn method_color(method: &str) -> (res: MethodColor)
    ensures
        res == spec_method_color(method@),
{
    proof {
        reveal_strlit("GET");
        reveal_strlit("POST");
        reveal_strlit("PUT");
        reveal_strlit("PATCH");
        reveal_strlit("DELETE");
        reveal_strlit("OPTIONS");
        reveal_strlit("HEAD");
        assert("GET"@ =~= seq!['G', 'E', 'T']);
        assert("POST"@ =~= seq!['P', 'O', 'S', 'T']);
        assert("PUT"@ =~= seq!['P', 'U', 'T']);
        assert("PATCH"@ =~= seq!['P', 'A', 'T', 'C', 'H']);
        assert("DELETE"@ =~= seq!['D', 'E', 'L', 'E', 'T', 'E']);
        assert("OPTIONS"@ =~= seq!['O', 'P', 'T', 'I', 'O', 'N', 'S']);
        assert("HEAD"@ =~= seq!['H', 'E', 'A', 'D']);
    }
    if str_eq(method, "GET") {
        MethodColor::Blue
    } else if str_eq(method, "POST") {
        MethodColor::Green
    } else if str_eq(method, "PUT") || str_eq(method, "PATCH") {
        MethodColor::Yellow
    } else if str_eq(method, "DELETE") {
        MethodColor::Red
    } else if str_eq(method, "OPTIONS") || str_eq(method, "HEAD") {
        MethodColor::Cyan
    } else {
        MethodColor::White
    }
}

impl Endpoint {
    /// The colour in which the method of this endpoint is shown.
    pub fn colored_method(&self) -> (res: MethodColor)
        ensures
            res == spec_method_color(self.method@),
    {
        method_color(self.method.as_str())
    }

    /// An endpoint with method `GET` and nothing else, at `path`.
    pub fn new(path: &str) -> (res: Endpoint)
        ensures
            res.method@ == seq!['G', 'E', 'T'],
            res.url@.len() == 0,
            res.query.0.pairs().len() == 0,
            res.headers.0.pairs().len() == 0,
            res.variables.0.pairs().len() == 0,
            res.path@ == path@,
    {
        proof {
            reveal_strlit("GET");
        }
        Endpoint {
            url: String::new(),
            method: owned("GET"),
            query: Query(StrMap::new()),
            headers: Headers(StrMap::new()),
            variables: Variables::new(),
            path: owned(path),
        }
    }

    /// An endpoint with method `GET` and nothing else.
    pub fn default() -> (res: Endpoint)
        ensures
            res.method@ == seq!['G', 'E', 'T'],
            res.url@.len() == 0,
            res.query.0.pairs().len() == 0,
            res.headers.0.pairs().len() == 0,
            res.variables.0.pairs().len() == 0,
            res.path@.len() == 0,
    {
        proof {
            reveal_strlit("");
        }
        Endpoint::new("")
    }

    /// An endpoint with the patch applied.
    pub fn from_patch(patch: &EndpointPatch) -> (res: Endpoint)
        requires
            patch_well_formed(patch),
        ensures
            res.method@ == (match patch.method {
                Some(m) => m@,
                None => seq!['G', 'E', 'T'],
            }),
            res.url@ == (match patch.url {
                Some(u) => u@,
                None => Seq::<char>::empty(),
            }),
            res.query.0.map() == fold_eq_pairs(Map::empty(), views(patch.query@)),
            res.headers.0.map() == fold_colon_pairs(Map::empty(), views(patch.headers@)),
            res.path@.len() == 0,
    {
        let mut e = Endpoint::default();
        proof {
            assert(e.query.0.map() =~= Map::<Seq<char>, Seq<char>>::empty());
            assert(e.headers.0.map() =~= Map::<Seq<char>, Seq<char>>::empty());
        }
        e.update(patch);
        e
    }

    /// A directory name for a handle segment: trimmed, with `/` and `\`
    /// replaced by `-`.
    pub fn name_to_dir(name: &str) -> (res: String)
        ensures
            res@ == dir_name(name@),
    {
        let t = trim(name);
        let v = chars_of(t.as_str());
        let mut out = String::new();
        let mut i: usize = 0;
        while i < v.len()
            invariant
                i <= v.len(),
                v@ == trim_ws(name@),
                out@ == v@.take(i as int).map_values(
                    |c: char|
                        if c == '/' || c == '\\' {
                            '-'
                        } else {
                            c
                        },
                ),
            decreases v.len() - i,
        {
            let c = v[i];
            let d = if c == '/' || c == '\\' {
                '-'
            } else {
                c
            };
            push_char(&mut out, d);
            assert(v@.take(i + 1) =~= v@.take(i as int).push(c));
            i = i + 1;
        }
        assert(v@.take(v.len() as int) =~= v@);
        out
    }

    /// Applies `src`: its method and URL replace the endpoint's, its query
    /// parameters and headers are inserted in order.
    pub fn update(&mut self, src: &EndpointPatch)
        requires
            patch_well_formed(src),
        ensures
            final(self).method@ == (match src.method {
                Some(m) => m@,
                None => old(self).method@,
            }),
            final(self).url@ == (match src.url {
                Some(u) => u@,
                None => old(self).url@,
            }),
            final(self).query.0.map() == fold_eq_pairs(old(self).query.0.map(), views(src.query@)),
            final(self).headers.0.map() == fold_colon_pairs(
                old(self).headers.0.map(),
                views(src.headers@),
            ),
            final(self).variables == old(self).variables,
            final(self).path == old(self).path,
    {
        if let Some(method) = &src.method {
            self.method = method.clone();
        }
        if let Some(url) = &src.url {
            self.url = url.clone();
        }
        let ghost q0 = self.query.0.map();
        let ghost m1 = self.method;
        let ghost u1 = self.url;
        let ghost h1 = self.headers;
        let mut i: usize = 0;
        while i < src.query.len()
            invariant
                i <= src.query@.len(),
                patch_well_formed(src),
                self.method == m1,
                self.url == u1,
                self.headers == h1,
                self.variables == old(self).variables,
                self.path == old(self).path,
                self.query.0.map() == fold_eq_pairs(q0, views(src.query@).take(i as int)),
            decreases src.query.len() - i,
        {
            assert(spec_eq_pair(src.query@[i as int]@) is Some);
            self.query.set(src.query[i].as_str());
            assert(views(src.query@).take(i + 1).drop_last() =~= views(src.query@).take(i as int));
            i = i + 1;
        }
        assert(views(src.query@).take(src.query.len() as int) =~= views(src.query@));
        let ghost h0 = self.headers.0.map();
        let ghost q1 = self.query;
        let mut j: usize = 0;
        while j < src.headers.len()
            invariant
                j <= src.headers@.len(),
                patch_well_formed(src),
                self.method == m1,
                self.url == u1,
                self.query == q1,
                self.variables == old(self).variables,
                self.path == old(self).path,
                self.headers.0.map() == fold_colon_pairs(h0, views(src.headers@).take(j as int)),
            decreases src.headers.len() - j,
        {
            assert(spec_colon_pair(src.headers@[j as int]@) is Some);
            self.headers.set(src.headers[j].as_str());
            assert(views(src.headers@).take(j + 1).drop_last() =~= views(src.headers@).take(
                j as int,
            ));
            j = j + 1;
        }
        assert(views(src.headers@).take(src.headers.len() as int) =~= views(src.headers@));
    }

    /// Replaces every `{{key}}` of each variable of `env`, variable by
    /// variable in order, in the URL, the method, and the keys and values of
    /// the headers and query parameters; then keeps the variables.
    pub fn apply_env(&mut self, env: &Context)
        ensures
            final(self).url@ == subst_all(old(self).url@, env.variables.0.pairs()),
            final(self).method@ == subst_all(old(self).method@, env.variables.0.pairs()),
            final(self).headers.0.pairs() == subst_entries(
                old(self).headers.0.pairs(),
                env.variables.0.pairs(),
            ),
            final(self).query.0.pairs() == subst_entries(
                old(self).query.0.pairs(),
                env.variables.0.pairs(),
            ),
            final(self).variables.0.pairs() == env.variables.0.pairs(),
            final(self).path == old(self).path,
    {
        let vars = &env.variables.0;
        let n = vars.len();
        let ghost url0 = self.url@;
        let ghost method0 = self.method@;
        let ghost headers0 = self.headers.0.pairs();
        let ghost query0 = self.query.0.pairs();
        let mut i: usize = 0;
        while i < n
            invariant
                n == vars.pairs().len(),
                i <= n,
                self.url@ == subst_all(url0, vars.pairs().take(i as int)),
                self.method@ == subst_all(method0, vars.pairs().take(i as int)),
                self.headers.0.pairs() == subst_entries(headers0, vars.pairs().take(i as int)),
                self.query.0.pairs() == subst_entries(query0, vars.pairs().take(i as int)),
                self.path == old(self).path,
            decreases n - i,
        {
            let key = vars.key_at(i);
            let value = vars.value_at(i);
            let mut key_match = owned("{{");
            push_str(&mut key_match, key.as_str());
            push_str(&mut key_match, "}}");
            proof {
                reveal_strlit("{{");
                reveal_strlit("}}");
                assert(key_match@ =~= braces(key@));
                assert(vars.pairs().take(i + 1).drop_last() =~= vars.pairs().take(i as int));
            }
            self.url = replace_str(self.url.as_str(), key_match.as_str(), value.as_str());
            self.method = replace_str(self.method.as_str(), key_match.as_str(), value.as_str());
            self.headers = Headers(
                self.headers.0.map_replace(key_match.as_str(), value.as_str()),
            );
            self.query = Query(self.query.0.map_replace(key_match.as_str(), value.as_str()));
            i = i + 1;
        }
        assert(vars.pairs().take(n as int) =~= vars.pairs());
        self.variables = Variables(vars.duplicate());
    }

    /// The query parameters as a query string: the `key=value` texts in the
    /// order of the parameters, joined with `&`.
    pub fn query_string(&self) -> (res: String)
        ensures
            res@ == query_text(self.query.0.pairs()),
    {
        let m = &self.query.0;
        let n = m.len();
        let mut items: Vec<String> = Vec::new();
        let mut i: usize = 0;
        while i < n
            invariant
                n == m.pairs().len(),
                i <= n,
                views(items@) == query_items(m.pairs()).take(i as int),
            decreases n - i,
        {
            let mut item = m.key_at(i).clone();
            push_str(&mut item, "=");
            push_str(&mut item, m.value_at(i).as_str());
            proof {
                reveal_strlit("=");
            }
            let ghost before = views(items@);
            assert("="@ =~= seq!['=']);
            assert(item@ =~= m.pairs()[i as int].0 + seq!['='] + m.pairs()[i as int].1);
            items.push(item);
            assert(views(items@) =~= before.push(item@));
            assert(query_items(m.pairs()).take(i + 1) =~= query_items(m.pairs()).take(i as int).push(
                item@,
            ));
            i = i + 1;
        }
        assert(query_items(m.pairs()).take(n as int) =~= query_items(m.pairs()));
        let r = join_strings(&items, "&");
        proof {
            reveal_strlit("&");
            assert("&"@ =~= seq!['&']);
        }
        r
    }
}

/// A URL that the URI parser refused.
#[derive(Debug)]
pub struct InvalidUri;

/// The URL with the query string appended, after `?`, or after `&` when the
/// URL already holds a `?`.
pub open spec fn url_with_query(url: Seq<char>, qs: Seq<char>) -> Seq<char> {
    if qs.len() == 0 {
        url
    } else if url.contains('?') {
        url + seq!['&'] + qs
    } else {
        url + seq!['?'] + qs
    }
}

/// `http://` followed by `u`.
pub open spec fn with_http(u: Seq<char>) -> Seq<char> {
    seq!['h', 't', 't', 'p', ':', '/', '/'] + u
}

/// Which URL is used, given whether the parser accepts `u` and whether it
/// accepts `http://` followed by `u`: `u` itself, else, when `u` has no
/// `://`, the one with `http://`.
pub open spec fn spec_resolve_url(u: Seq<char>, u_parses: bool, prefixed_parses: bool) -> Result<
    Seq<char>,
    (),
> {
    if u_parses {
        Ok(u)
    } else if !contains_sub(u, seq![':', '/', '/']) && prefixed_parses {
        Ok(with_http(u))
    } else {
        Err(())
    }
}

/// The URL with the query string appended.
pub fn url_candidate(url: &str, query_string: &str) -> (res: String)
    ensures
        res@ == url_with_query(url@, query_string@),
{
    let mut u = owned(url);
    if !crate::text::str_is_empty(query_string) {
        let delimiter = if contains_char(url, '?') {
            '&'
        } else {
            '?'
        };
        push_char(&mut u, delimiter);
        push_str(&mut u, query_string);
    }
    u
}

/// Which URL is used, given whether the parser accepts `u` and whether it
/// accepts `http://` followed by `u`.
pub fn resolve_url(u: &str, u_parses: bool, prefixed_parses: bool) -> (res: Result<String, InvalidUri>)
    ensures
        match spec_resolve_url(u@, u_parses, prefixed_parses) {
            Ok(s) => res matches Ok(r) && r@ == s,
            Err(_) => res is Err,
        },
{
    proof {
        reveal_strlit("://");
        reveal_strlit("http://");
        assert("://"@ =~= seq![':', '/', '/']);
    }
    if u_parses {
        Ok(owned(u))
    } else if !contains_str(u, "://") && prefixed_parses {
        let mut p = owned("http://");
        push_str(&mut p, u);
        assert("http://"@ =~= seq!['h', 't', 't', 'p', ':', '/', '/']);
        Ok(p)
    } else {
        Err(InvalidUri)
    }
}

impl Endpoint {
    /// The full URL of the request: the URL with the query string appended,
    /// as the URI parser accepts it, or else with `http://` in front when it
    /// has no scheme.
    pub fn full_url(&self) -> (res: Result<String, InvalidUri>)
        ensures
            ({
                let u = url_with_query(
                    self.url@,
                    query_text(self.query.0.pairs()),
                );
                match spec_resolve_url(u, uri_parses(u), uri_parses(with_http(u))) {
                    Ok(s) => res matches Ok(r) && r@ == s,
                    Err(_) => res is Err,
                }
            }),
    {
        let qs = self.query_string();
        let u = url_candidate(self.url.as_str(), qs.as_str());
        let ok = uri_is_valid(u.as_str());
        let mut p = owned("http://");
        push_str(&mut p, u.as_str());
        proof {
            reveal_strlit("http://");
            assert("http://"@ =~= seq!['h', 't', 't', 'p', ':', '/', '/']);
            assert(p@ =~= with_http(u@));
        }
        let prefixed_ok = if ok || contains_str(u.as_str(), "://") {
            false
        } else {
            uri_is_valid(p.as_str())
        };
        proof {
            reveal_strlit("://");
            assert("://"@ =~= seq![':', '/', '/']);
        }
        resolve_url(u.as_str(), ok, prefixed_ok)
    }
}

/// The `key=value` text of each query parameter, in order.
pub open spec fn query_items(ps: Seq<(Seq<char>, Seq<char>)>) -> Seq<Seq<char>> {
    ps.map_values(|e: (Seq<char>, Seq<char>)| e.0 + seq!['='] + e.1)
}

/// The query string of the parameters `ps`: their `key=value` texts, in
/// order, joined with `&`.
pub open spec fn query_text(ps: Seq<(Seq<char>, Seq<char>)>) -> Seq<char> {
    join_with(query_items(ps), seq!['&'])
}

/// Whether `x` comes before `y` in the order of handle names: `/` before
/// every other character, the others in the order of `char`.
pub open spec fn char_before(x: char, y: char) -> bool {
    if x == '/' {
        y != '/'
    } else if y == '/' {
        false
    } else {
        x < y
    }
}

/// The order of handle names: character by character, by rank, a name
/// before those it is a prefix of. As segments hold no `/`, a handle comes
/// before every handle under it, and those before its next sibling.
pub open spec fn name_le(a: Seq<char>, b: Seq<char>) -> bool
    decreases a.len(),
{
    if a.len() == 0 {
        true
    } else if b.len() == 0 {
        false
    } else if a[0] != b[0] {
        char_before(a[0], b[0])
    } else {
        name_le(a.drop_first(), b.drop_first())
    }
}

/// `name_le` is a total order.
pub proof fn lemma_name_total()
    ensures
        vstd::relations::total_ordering(|a: Seq<char>, b: Seq<char>| name_le(a, b)),
{
    let f = |a: Seq<char>, b: Seq<char>| name_le(a, b);
    assert forall|a: Seq<char>| #[trigger] f(a, a) by {
        lemma_name_refl(a);
    }
    assert forall|a: Seq<char>, b: Seq<char>| #[trigger] f(a, b) && #[trigger] f(b, a) implies a == b by {
        lemma_name_antisym(a, b);
    }
    assert forall|a: Seq<char>, b: Seq<char>, c: Seq<char>|
        #[trigger] f(a, b) && #[trigger] f(b, c) implies f(a, c) by {
        lemma_name_trans(a, b, c);
    }
    assert forall|a: Seq<char>, b: Seq<char>| #[trigger] f(a, b) || #[trigger] f(b, a) by {
        lemma_name_connected(a, b);
    }
}

proof fn lemma_name_refl(a: Seq<char>)
    ensures
        name_le(a, a),
    decreases a.len(),
{
    if a.len() > 0 {
        lemma_name_refl(a.drop_first());
    }
}

proof fn lemma_name_antisym(a: Seq<char>, b: Seq<char>)
    requires
        name_le(a, b),
        name_le(b, a),
    ensures
        a == b,
    decreases a.len(),
{
    if a.len() > 0 && b.len() > 0 && a[0] == b[0] {
        lemma_name_antisym(a.drop_first(), b.drop_first());
        assert(a =~= seq![a[0]] + a.drop_first());
        assert(b =~= seq![b[0]] + b.drop_first());
    } else if a.len() == 0 && b.len() == 0 {
        assert(a =~= b);
    }
}

proof fn lemma_name_trans(a: Seq<char>, b: Seq<char>, c: Seq<char>)
    requires
        name_le(a, b),
        name_le(b, c),
    ensures
        name_le(a, c),
    decreases a.len(),
{
    if a.len() > 0 && b.len() > 0 && c.len() > 0 && a[0] == b[0] && b[0] == c[0] {
        lemma_name_trans(a.drop_first(), b.drop_first(), c.drop_first());
    }
}

proof fn lemma_name_connected(a: Seq<char>, b: Seq<char>)
    ensures
        name_le(a, b) || name_le(b, a),
    decreases a.len(),
{
    if a.len() > 0 && b.len() > 0 && a[0] == b[0] {
        lemma_name_connected(a.drop_first(), b.drop_first());
    }
}

/// Whether the name `a` comes no later than `b`.
pub fn name_text_le(a: &str, b: &str) -> (res: bool)
    ensures
        res == name_le(a@, b@),
{
    let x = chars_of(a);
    let y = chars_of(b);
    let mut i: usize = 0;
    assert(x@.skip(0) =~= x@ && y@.skip(0) =~= y@);
    while i < x.len() && i < y.len() && x[i] == y[i]
        invariant
            i <= x.len(),
            i <= y.len(),
            name_le(x@.skip(i as int), y@.skip(i as int)) == name_le(x@, y@),
        decreases x.len() - i,
    {
        assert(x@.skip(i as int).drop_first() =~= x@.skip(i + 1));
        assert(y@.skip(i as int).drop_first() =~= y@.skip(i + 1));
        i = i + 1;
    }
    if i == x.len() {
        true
    } else if i == y.len() {
        false
    } else if x[i] == '/' {
        true
    } else if y[i] == '/' {
        false
    } else {
        x[i] < y[i]
    }
}

/// The names sorted in the order of handle names.
pub fn sort_names(v: Vec<String>) -> (res: Vec<String>)
    ensures
        views(res@) == views(v@).sort_by(|a: Seq<char>, b: Seq<char>| name_le(a, b)),
{
    let ghost leq = |a: Seq<char>, b: Seq<char>| name_le(a, b);
    let mut res: Vec<String> = Vec::new();
    let mut i: usize = 0;
    proof {
        lemma_name_total();
        assert(views(res@) =~= Seq::<Seq<char>>::empty());
        assert(views(v@).take(0) =~= Seq::<Seq<char>>::empty());
    }
    while i < v.len()
        invariant
            i <= v.len(),
            vstd::relations::sorted_by(views(res@), leq),
            views(res@).to_multiset() == views(v@).take(i as int).to_multiset(),
            leq == (|a: Seq<char>, b: Seq<char>| name_le(a, b)),
            vstd::relations::total_ordering(leq),
        decreases v.len() - i,
    {
        let item = v[i].clone();
        // position of the first element greater than `item`
        let mut j: usize = 0;
        while j < res.len() && name_text_le(res[j].as_str(), item.as_str())
            invariant
                j <= res.len(),
                forall|k: int| 0 <= k < j ==> name_le(views(res@)[k], item@),
            decreases res.len() - j,
        {
            j = j + 1;
        }
        let ghost before = views(res@);
        res.insert(j, item);
        proof {
            let after = views(res@);
            assert(after =~= before.insert(j as int, item@));
            if j < before.len() {
                assert(!name_le(before[j as int], item@));
                lemma_name_connected(before[j as int], item@);
            }
            assert forall|a: int, b: int| 0 <= a < b < after.len() implies #[trigger] leq(
                after[a],
                after[b],
            ) by {
                if b < j {
                    assert(after[a] == before[a] && after[b] == before[b]);
                    assert(leq(before[a], before[b]));
                } else if b == j {
                    assert(after[a] == before[a] && after[b] == item@);
                    assert(name_le(before[a], item@));
                } else if a < j {
                    assert(after[a] == before[a] && after[b] == before[b - 1]);
                    assert(leq(before[a], before[b - 1]));
                } else if a == j {
                    assert(after[a] == item@ && after[b] == before[b - 1]);
                    if b - 1 > j {
                        assert(leq(before[j as int], before[b - 1]));
                        lemma_name_trans(item@, before[j as int], before[b - 1]);
                    }
                } else {
                    assert(after[a] == before[a - 1] && after[b] == before[b - 1]);
                    assert(leq(before[a - 1], before[b - 1]));
                }
            }
            vstd::seq_lib::to_multiset_insert(before, j as int, item@);
            assert(views(v@).take(i + 1) =~= views(v@).take(i as int).push(item@));
            vstd::seq_lib::to_multiset_build(views(v@).take(i as int), item@);
        }
        i = i + 1;
    }
    proof {
        assert(views(v@).take(v.len() as int) =~= views(v@));
        views(v@).lemma_sort_by_ensures(leq);
        vstd::seq_lib::lemma_sorted_unique(views(res@), views(v@).sort_by(leq), leq);
    }
    res
}

} // verus!
