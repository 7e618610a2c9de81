//! Cookies: domains, paths, the Netscape cookie file line, and the jar that
//! `Set-Cookie` headers fill.
use vstd::prelude::*;

use crate::text::{
    chars_of, int_text, int_to_string, join_strings, join_with, lower_ascii, non_empty,
    owned, parse_i64, string_of, parse_int, push_char, push_str, split_char, split_on, split_once_at_char,
    split_once_char, starts_with, starts_with_str, str_eq, str_is_empty, to_ascii_lowercase,
    trim, trim_ws, views, lines, lines_of, lemma_split_on_len,
};
use crate::uri::{uri_host, uri_host_of, uri_parses, uri_path, uri_path_of, uri_scheme, uri_scheme_of};

verus! {

/// The columns of a cookie file line.
pub enum Field {
    Domain,
    Subdomains,
    Path,
    Secure,
    ExpiresAt,
    Name,
    Value,
}

impl Field {
    /// The column of the field.
    pub fn index(&self) -> (res: usize)
        ensures
            res == match self {
                Field::Domain => 0usize,
                Field::Subdomains => 1,
                Field::Path => 2,
                Field::Secure => 3,
                Field::ExpiresAt => 4,
                Field::Name => 5,
                Field::Value => 6,
            },
    {
        match self {
            Field::Domain => 0,
            Field::Subdomains => 1,
            Field::Path => 2,
            Field::Secure => 3,
            Field::ExpiresAt => 4,
            Field::Name => 5,
            Field::Value => 6,
        }
    }
}

/// A cookie that could not be built or read.
#[derive(Debug, Clone)]
pub struct CookieError;

// ---------------------------------------------------------------------------
// Domains
// ---------------------------------------------------------------------------
/// `s` with each run of dots reduced to one dot.
pub open spec fn collapse_dots(s: Seq<char>) -> Seq<char>
    decreases s.len(),
{
    if s.len() == 0 {
        s
    } else {
        let r = collapse_dots(s.drop_last());
        if s.last() == '.' && r.len() > 0 && r.last() == '.' {
            r
        } else {
            r.push(s.last())
        }
    }
}

/// The standard form of a domain name: lower-case, trimmed, single dots.
pub open spec fn canonical(v: Seq<char>) -> Seq<char> {
    collapse_dots(trim_ws(lower_ascii(v)))
}

/// The labels of a domain, from the top-level one down.
pub open spec fn domain_segments(d: Seq<char>) -> Seq<Seq<char>> {
    non_empty(split_on(d, '.')).reverse()
}

/// Whether the label lists agree on every label they both have.
pub open spec fn segments_agree(a: Seq<Seq<char>>, b: Seq<Seq<char>>) -> bool {
    forall|i: int| 0 <= i < a.len() && i < b.len() ==> a[i] == b[i]
}

/// Whether the domain `this` can set cookies for the domain written `other`.
pub open spec fn domain_matches(this: Seq<char>, other: Seq<char>) -> bool {
    this == canonical(other) || segments_agree(domain_segments(this), domain_segments(canonical(other)))
}

/// A domain name in standard form.
pub struct Domain(String);

impl View for Domain {
    type V = Seq<char>;

    closed spec fn view(&self) -> Seq<char> {
        self.0@
    }
}

impl Domain {
    /// The domain named `s`, in standard form.
    pub fn new(s: &str) -> (res: Domain)
        ensures
            res@ == canonical(s@),
    {
        Domain(Domain::canonicalize(s))
    }

    /// The domain's text.
    pub fn as_str(&self) -> (res: &str)
        ensures
            res@ == self@,
    {
        self.0.as_str()
    }

    /// The standard form of the domain name `value`: lower-case, trimmed,
    /// with each run of dots reduced to one.
    pub fn canonicalize(value: &str) -> (res: String)
        ensures
            res@ == canonical(value@),
    {
        let lowered = to_ascii_lowercase(value);
        let trimmed = trim(lowered.as_str());
        let v = chars_of(trimmed.as_str());
        let mut out: Vec<char> = Vec::new();
        let mut i: usize = 0;
        while i < v.len()
            invariant
                i <= v.len(),
                out@ == collapse_dots(v@.take(i as int)),
            decreases v.len() - i,
        {
            let ch = v[i];
            assert(v@.take(i + 1).drop_last() =~= v@.take(i as int));
            let skip = ch == '.' && out.len() > 0 && out[out.len() - 1] == '.';
            if !skip {
                out.push(ch);
            }
            i = i + 1;
        }
        assert(v@.take(v.len() as int) =~= v@);
        string_of(&out)
    }

    /// Whether this domain can set cookies for the domain written `other`:
    /// they are equal, or their labels agree from the top-level one down as
    /// far as both go.
    pub fn matches(&self, other: &str) -> (res: bool)
        ensures
            res == domain_matches(self@, other@),
    {
        let od = Domain::new(other);
        if str_eq(self.0.as_str(), od.0.as_str()) {
            return true;
        }
        let this_segments = self.as_segments();
        let other_segments = od.as_segments();
        let mut idx: usize = 0;
        while idx < other_segments.len() && idx < this_segments.len()
            invariant
                idx <= other_segments.len(),
                views(this_segments@) == domain_segments(self@),
                views(other_segments@) == domain_segments(od@),
                od@ == canonical(other@),
                forall|i: int|
                    0 <= i < idx && i < this_segments.len() ==> views(this_segments@)[i] == views(
                        other_segments@,
                    )[i],
            decreases other_segments.len() - idx,
        {
            if !str_eq(other_segments[idx].as_str(), this_segments[idx].as_str()) {
                assert(views(this_segments@)[idx as int] != views(other_segments@)[idx as int]);
                assert(!segments_agree(domain_segments(self@), domain_segments(od@)));
                assert(self@ != od@);
                return false;
            }
            idx = idx + 1;
        }
        true
    }

    /// The labels of the domain, from the top-level one down.
    pub fn as_segments(&self) -> (res: Vec<String>)
        ensures
            views(res@) == domain_segments(self@),
    {
        let parts = split_char(self.0.as_str(), '.');
        let kept = keep_non_empty(&parts);
        let mut res: Vec<String> = Vec::new();
        let mut i: usize = kept.len();
        while i > 0
            invariant
                i <= kept.len(),
                views(res@) == views(kept@).skip(i as int).reverse(),
            decreases i,
        {
            i = i - 1;
            let ghost before = views(res@);
            res.push(kept[i].clone());
            assert(views(res@) =~= views(kept@).skip(i as int).reverse()) by {
                assert(views(res@) =~= before.push(kept@[i as int]@));
            }
        }
        assert(views(kept@).skip(0) =~= views(kept@));
        res
    }
}

/// The non-empty pieces of `parts`, in order.
pub fn keep_non_empty(parts: &Vec<String>) -> (res: Vec<String>)
    ensures
        views(res@) == non_empty(views(parts@)),
{
    let mut res: Vec<String> = Vec::new();
    let mut i: usize = 0;
    while i < parts.len()
        invariant
            i <= parts.len(),
            views(res@) == non_empty(views(parts@).take(i as int)),
        decreases parts.len() - i,
    {
        assert(views(parts@).take(i + 1).drop_last() =~= views(parts@).take(i as int));
        if !str_is_empty(parts[i].as_str()) {
            let ghost before = views(res@);
            res.push(parts[i].clone());
            assert(views(res@) =~= before.push(parts@[i as int]@));
        }
        i = i + 1;
    }
    assert(views(parts@).take(parts.len() as int) =~= views(parts@));
    res
}

// ---------------------------------------------------------------------------
// Paths
// ---------------------------------------------------------------------------
/// The segments of a cookie `Path` attribute written `value`.
pub open spec fn path_attr_of(value: Seq<char>) -> Seq<Seq<char>> {
    if uri_parses(value) {
        non_empty(split_on(uri_path(value), '/'))
    } else if !starts_with(value, seq!['/']) {
        Seq::empty()
    } else {
        non_empty(split_on(value, '/'))
    }
}

/// How a path attribute is written: `/` and its segments joined with `/`.
pub open spec fn path_text(segs: Seq<Seq<char>>) -> Seq<char> {
    seq!['/'] + join_with(segs, seq!['/'])
}

/// Whether the cookie path `this` covers the request path written `other`.
pub open spec fn path_matches(this: Seq<Seq<char>>, other: Seq<char>) -> bool {
    let o = path_attr_of(other);
    this.len() == 0 || (this.len() <= o.len() && forall|i: int| 0 <= i < this.len() ==> this[i] == o[i])
}

/// A cookie `Path` attribute: its non-empty segments.
pub struct PathAttr(pub Vec<String>);

impl View for PathAttr {
    type V = Seq<Seq<char>>;

    open spec fn view(&self) -> Seq<Seq<char>> {
        views(self.0@)
    }
}

impl PathAttr {
    /// The path attribute written `value`: the path of `value` read as a
    /// URI; else nothing when `value` does not start with `/`; else the
    /// non-empty segments of `value`.
    pub fn from(value: &str) -> (res: PathAttr)
        ensures
            res@ == path_attr_of(value@),
    {
        match uri_path_of(value) {
            Some(p) => {
                let parts = split_char(p.as_str(), '/');
                PathAttr(keep_non_empty(&parts))
            },
            None => {
                proof {
                    reveal_strlit("/");
                    assert("/"@ =~= seq!['/']);
                }
                if !starts_with_str(value, "/") {
                    let r = PathAttr(Vec::new());
                    assert(r@ =~= Seq::<Seq<char>>::empty());
                    r
                } else {
                    let parts = split_char(value, '/');
                    PathAttr(keep_non_empty(&parts))
                }
            },
        }
    }

    /// Number of segments.
    pub fn len(&self) -> (res: usize)
        ensures
            res == self@.len(),
    {
        self.0.len()
    }

    /// How the attribute is written: `/` and the segments joined with `/`.
    pub fn to_string(&self) -> (res: String)
        ensures
            res@ == path_text(self@),
    {
        let mut s = owned("/");
        let rest = join_strings(&self.0, "/");
        push_str(&mut s, rest.as_str());
        proof {
            reveal_strlit("/");
            assert("/"@ =~= seq!['/']);
        }
        s
    }

    /// Whether this cookie path covers the request path written `other`:
    /// it is empty, or its segments begin the other's.
    pub fn matches(&self, other: &str) -> (res: bool)
        ensures
            res == path_matches(self@, other@),
    {
        if self.0.len() == 0 {
            return true;
        }
        let o = PathAttr::from(other);
        if self.0.len() > o.0.len() {
            return false;
        }
        let mut idx: usize = 0;
        while idx < self.0.len()
            invariant
                idx <= self.0.len() <= o.0.len(),
                o@ == path_attr_of(other@),
                forall|i: int| 0 <= i < idx ==> self@[i] == o@[i],
            decreases self.0.len() - idx,
        {
            if !str_eq(self.0[idx].as_str(), o.0[idx].as_str()) {
                assert(self@[idx as int] != o@[idx as int]);
                assert(!(forall|i: int| 0 <= i < self@.len() ==> self@[i] == o@[i]));
                return false;
            }
            idx = idx + 1;
        }
        true
    }

    /// A copy of the attribute.
    pub fn duplicate(&self) -> (res: PathAttr)
        ensures
            res@ == self@,
    {
        PathAttr(self.0.clone())
    }
}

// ---------------------------------------------------------------------------
// Cookies
// ---------------------------------------------------------------------------
/// The mathematical content of a cookie.
pub struct CookieView {
    pub domain: Seq<char>,
    pub subdomains: bool,
    pub path: Seq<Seq<char>>,
    pub secure: bool,
    pub expires_at: i64,
    pub name: Seq<char>,
    pub value: Seq<char>,
}

/// A cookie: where it is sent, until when, and what it holds.
pub struct Cookie {
    domain: Domain,
    subdomains: bool,
    path: PathAttr,
    secure: bool,
    expires_at: i64,
    name: String,
    value: String,
}

impl View for Cookie {
    type V = CookieView;

    closed spec fn view(&self) -> CookieView {
        CookieView {
            domain: self.domain@,
            subdomains: self.subdomains,
            path: self.path@,
            secure: self.secure,
            expires_at: self.expires_at,
            name: self.name@,
            value: self.value@,
        }
    }
}

/// A cookie under construction.
pub struct CookieBuilder {
    domain: Option<String>,
    subdomains: bool,
    path: Option<String>,
    secure: bool,
    expires_at: i64,
    name: Option<String>,
    value: Option<String>,
}

/// The mathematical content of a cookie builder.
pub struct CookieBuilderView {
    pub domain: Option<Seq<char>>,
    pub subdomains: bool,
    pub path: Option<Seq<char>>,
    pub secure: bool,
    pub expires_at: i64,
    pub name: Option<Seq<char>>,
    pub value: Option<Seq<char>>,
}

/// The view of an optional text.
pub open spec fn opt_view(o: Option<String>) -> Option<Seq<char>> {
    match o {
        Some(s) => Some(s@),
        None => None,
    }
}

impl View for CookieBuilder {
    type V = CookieBuilderView;

    closed spec fn view(&self) -> CookieBuilderView {
        CookieBuilderView {
            domain: opt_view(self.domain),
            subdomains: self.subdomains,
            path: opt_view(self.path),
            secure: self.secure,
            expires_at: self.expires_at,
            name: opt_view(self.name),
            value: opt_view(self.value),
        }
    }
}

/// The cookie a builder makes, if it has a domain, a name and a value.
pub open spec fn spec_build(b: CookieBuilderView) -> Option<CookieView> {
    if b.domain is None || b.name is None || b.value is None {
        None
    } else {
        Some(
            CookieView {
                domain: canonical(b.domain->0),
                subdomains: b.subdomains,
                path: path_attr_of(
                    match b.path {
                        Some(p) => p,
                        None => Seq::empty(),
                    },
                ),
                secure: b.secure,
                expires_at: b.expires_at,
                name: b.name->0,
                value: b.value->0,
            },
        )
    }
}

impl CookieBuilder {
    /// A builder with nothing set.
    pub fn new() -> (res: CookieBuilder)
        ensures
            res@ == (CookieBuilderView {
                domain: None,
                subdomains: false,
                path: None,
                secure: false,
                expires_at: 0,
                name: None,
                value: None,
            }),
    {
        CookieBuilder {
            domain: None,
            subdomains: false,
            path: None,
            secure: false,
            expires_at: 0,
            name: None,
            value: None,
        }
    }

    /// Sets the domain.
    pub fn domain(&mut self, s: &str)
        ensures
            final(self)@ == (CookieBuilderView { domain: Some(s@), ..old(self)@ }),
    {
        self.domain = Some(owned(s));
    }

    /// Sets whether subdomains receive the cookie.
    pub fn subdomains(&mut self, v: bool)
        ensures
            final(self)@ == (CookieBuilderView { subdomains: v, ..old(self)@ }),
    {
        self.subdomains = v;
    }

    /// Sets the path.
    pub fn path(&mut self, s: &str)
        ensures
            final(self)@ == (CookieBuilderView { path: Some(s@), ..old(self)@ }),
    {
        self.path = Some(owned(s));
    }

    /// Sets whether the cookie is sent over secure connections only.
    pub fn secure(&mut self, v: bool)
        ensures
            final(self)@ == (CookieBuilderView { secure: v, ..old(self)@ }),
    {
        self.secure = v;
    }

    /// Sets the expiry time, in microseconds since the epoch.
    pub fn expires_at(&mut self, v: i64)
        ensures
            final(self)@ == (CookieBuilderView { expires_at: v, ..old(self)@ }),
    {
        self.expires_at = v;
    }

    /// Sets the name.
    pub fn name(&mut self, s: &str)
        ensures
            final(self)@ == (CookieBuilderView { name: Some(s@), ..old(self)@ }),
    {
        self.name = Some(owned(s));
    }

    /// Sets the value.
    pub fn value(&mut self, s: &str)
        ensures
            final(self)@ == (CookieBuilderView { value: Some(s@), ..old(self)@ }),
    {
        self.value = Some(owned(s));
    }

    /// The cookie the builder describes; an error when the domain, the name
    /// or the value is missing.
    pub fn build(self) -> (res: Result<Cookie, CookieError>)
        ensures
            match spec_build(self@) {
                Some(c) => res matches Ok(k) && k@ == c,
                None => res is Err,
            },
    {
        let domain = match self.domain {
            Some(d) => Domain::new(d.as_str()),
            None => return Err(CookieError),
        };
        let name = match self.name {
            Some(n) => n,
            None => return Err(CookieError),
        };
        let value = match self.value {
            Some(v) => v,
            None => return Err(CookieError),
        };
        let path = match self.path {
            Some(p) => PathAttr::from(p.as_str()),
            None => {
                proof {
                    reveal_strlit("");
                    assert(""@ =~= Seq::<char>::empty());
                }
                PathAttr::from("")
            },
        };
        Ok(
            Cookie {
                domain,
                subdomains: self.subdomains,
                path,
                secure: self.secure,
                expires_at: self.expires_at,
                name,
                value,
            },
        )
    }
}

/// `TRUE` or `FALSE`.
pub open spec fn bool_text(b: bool) -> Seq<char> {
    if b {
        seq!['T', 'R', 'U', 'E']
    } else {
        seq!['F', 'A', 'L', 'S', 'E']
    }
}

/// A cookie as a Netscape cookie file line: its fields separated by tabs.
pub open spec fn cookie_line(c: CookieView) -> Seq<char> {
    let t = seq!['\t'];
    c.domain + t + bool_text(c.subdomains) + t + path_text(c.path) + t + bool_text(c.secure) + t
        + int_text(c.expires_at as int) + t + c.name + t + c.value
}

/// At most `n` pieces of `s`: the pieces between the first `n - 1`
/// occurrences of `c`, then the rest (`str::splitn`).
pub open spec fn split_n(s: Seq<char>, c: char, n: nat) -> Seq<Seq<char>>
    decreases n,
{
    if n <= 1 {
        seq![s]
    } else {
        match split_once_char(s, c) {
            Some((a, b)) => seq![a] + split_n(b, c, (n - 1) as nat),
            None => seq![s],
        }
    }
}

/// The cookie a cookie file line describes, if it has seven fields.
pub open spec fn spec_parse_cookie(s: Seq<char>) -> Option<CookieView> {
    let ps = split_n(s, '\t', 7);
    if ps.len() != 7 {
        None
    } else {
        Some(
            CookieView {
                domain: canonical(ps[0]),
                subdomains: ps[1] == seq!['T', 'R', 'U', 'E'],
                path: path_attr_of(ps[2]),
                secure: ps[3] == seq!['T', 'R', 'U', 'E'],
                expires_at: match parse_int(ps[4]) {
                    Some(v) => v,
                    None => 0,
                },
                name: ps[5],
                value: ps[6],
            },
        )
    }
}

/// At most `n` pieces of `s` split at `c` (`str::splitn`).
pub fn splitn_char(s: &str, n: usize, c: char) -> (res: Vec<String>)
    requires
        n >= 1,
    ensures
        views(res@) == split_n(s@, c, n as nat),
    decreases n,
{
    if n <= 1 {
        let mut v = Vec::new();
        v.push(owned(s));
        assert(views(v@) =~= seq![s@]);
        return v;
    }
    match split_once_at_char(s, c) {
        Some((a, b)) => {
            let rest = splitn_char(b.as_str(), n - 1, c);
            let ghost av = a@;
            let mut v = Vec::new();
            v.push(a);
            let mut i: usize = 0;
            assert(views(v@) =~= seq![av] + views(rest@).take(0));
            while i < rest.len()
                invariant
                    i <= rest.len(),
                    views(v@) == seq![av] + views(rest@).take(i as int),
                decreases rest.len() - i,
            {
                let ghost before = views(v@);
                v.push(rest[i].clone());
                assert(views(v@) =~= before.push(rest@[i as int]@));
                assert(views(rest@).take(i + 1) =~= views(rest@).take(i as int).push(rest@[i as int]@));
                i = i + 1;
            }
            assert(views(rest@).take(rest.len() as int) =~= views(rest@));
            v
        },
        None => {
            let mut v = Vec::new();
            v.push(owned(s));
            assert(views(v@) =~= seq![s@]);
            v
        },
    }
}

impl Cookie {
    /// A builder with nothing set.
    pub fn builder() -> (res: CookieBuilder)
        ensures
            res@ == (CookieBuilderView {
                domain: None,
                subdomains: false,
                path: None,
                secure: false,
                expires_at: 0,
                name: None,
                value: None,
            }),
    {
        CookieBuilder::new()
    }

    /// The cookie as a Netscape cookie file line.
    pub fn to_string(&self) -> (res: String)
        ensures
            res@ == cookie_line(self@),
    {
        let mut s = owned(self.domain.as_str());
        push_char(&mut s, '\t');
        push_bool(&mut s, self.subdomains);
        push_char(&mut s, '\t');
        let p = self.path.to_string();
        push_str(&mut s, p.as_str());
        push_char(&mut s, '\t');
        push_bool(&mut s, self.secure);
        push_char(&mut s, '\t');
        let e = int_to_string(self.expires_at);
        push_str(&mut s, e.as_str());
        push_char(&mut s, '\t');
        push_str(&mut s, self.name.as_str());
        push_char(&mut s, '\t');
        push_str(&mut s, self.value.as_str());
        assert(s@ =~= cookie_line(self@));
        s
    }

    /// The cookie a Netscape cookie file line describes; an error unless the
    /// line has seven tab-separated fields.
    pub fn from_str(s: &str) -> (res: Result<Cookie, CookieError>)
        ensures
            match spec_parse_cookie(s@) {
                Some(c) => res matches Ok(k) && k@ == c,
                None => res is Err,
            },
    {
        let line = splitn_char(s, 7, '\t');
        if line.len() != 7 {
            return Err(CookieError);
        }
        let mut cookie = Cookie::builder();
        proof {
            reveal_strlit("TRUE");
            assert("TRUE"@ =~= seq!['T', 'R', 'U', 'E']);
        }
        cookie.domain(line[Field::Domain.index()].as_str());
        cookie.subdomains(str_eq(line[Field::Subdomains.index()].as_str(), "TRUE"));
        cookie.path(line[Field::Path.index()].as_str());
        cookie.secure(str_eq(line[Field::Secure.index()].as_str(), "TRUE"));
        cookie.name(line[Field::Name.index()].as_str());
        cookie.value(line[Field::Value.index()].as_str());
        if let Some(v) = parse_i64(line[4].as_str()) {
            cookie.expires_at(v);
        }
        cookie.build()
    }

    /// Whether the cookie's expiry time is before `now`.
    pub fn expired_at(&self, now: i64) -> (res: bool)
        ensures
            res == (now > self@.expires_at),
    {
        now > self.expires_at
    }

    /// Whether the cookie has expired.
    pub fn expired(&self) -> (res: bool)
        ensures
            res ==> self@.expires_at < max_utc_micros(),
            !res ==> self@.expires_at >= 0,
    {
        let now = now_micros();
        self.expired_at(now)
    }

    /// Whether the cookie is sent with a request to the URL `url`: the host
    /// matches its domain, a secure cookie needs a scheme other than `http`,
    /// and its path covers the request path.
    pub fn matches_url(&self, url: &str) -> (res: bool)
        ensures
            res == (uri_parses(url@) && domain_matches(
                self@.domain,
                match uri_host(url@) {
                    Some(h) => h,
                    None => Seq::empty(),
                },
            ) && (!self@.secure || !(uri_scheme(url@) is None || uri_scheme(url@) == Some(
                seq!['h', 't', 't', 'p'],
            ))) && path_matches(self@.path, uri_path(url@))),
    {
        let host = match uri_host_of(url) {
            Some(Some(h)) => h,
            Some(None) => String::new(),
            None => return false,
        };
        if !self.domain.matches(host.as_str()) {
            return false;
        }
        if self.secure {
            let plain = match uri_scheme_of(url) {
                Some(Some(sc)) => {
                    proof {
                        reveal_strlit("http");
                        assert("http"@ =~= seq!['h', 't', 't', 'p']);
                    }
                    str_eq(sc.as_str(), "http")
                },
                _ => true,
            };
            if plain {
                return false;
            }
        }
        let path = match uri_path_of(url) {
            Some(p) => p,
            None => return false,
        };
        self.path.matches(path.as_str())
    }

    /// The domain.
    pub fn domain(&self) -> (res: &Domain)
        ensures
            res@ == self@.domain,
    {
        &self.domain
    }

    /// Whether subdomains receive the cookie.
    pub fn subdomains(&self) -> (res: bool)
        ensures
            res == self@.subdomains,
    {
        self.subdomains
    }

    /// The path.
    pub fn path(&self) -> (res: &PathAttr)
        ensures
            res@ == self@.path,
    {
        &self.path
    }

    /// Whether the cookie is sent over secure connections only.
    pub fn secure(&self) -> (res: bool)
        ensures
            res == self@.secure,
    {
        self.secure
    }

    /// The expiry time, in microseconds since the epoch.
    pub fn expires_at(&self) -> (res: i64)
        ensures
            res == self@.expires_at,
    {
        self.expires_at
    }

    /// The name.
    pub fn name(&self) -> (res: &str)
        ensures
            res@ == self@.name,
    {
        self.name.as_str()
    }

    /// The value.
    pub fn value(&self) -> (res: &str)
        ensures
            res@ == self@.value,
    {
        self.value.as_str()
    }

    /// A copy of the cookie.
    pub fn duplicate(&self) -> (res: Cookie)
        ensures
            res@ == self@,
    {
        Cookie {
            domain: Domain(self.domain.0.clone()),
            subdomains: self.subdomains,
            path: self.path.duplicate(),
            secure: self.secure,
            expires_at: self.expires_at,
            name: self.name.clone(),
            value: self.value.clone(),
        }
    }
}

/// Appends `TRUE` or `FALSE`.
fn push_bool(s: &mut String, b: bool)
    ensures
        final(s)@ == old(s)@ + bool_text(b),
{
    proof {
        reveal_strlit("TRUE");
        reveal_strlit("FALSE");
    }
    if b {
        push_str(s, "TRUE");
    } else {
        push_str(s, "FALSE");
    }
}

/// The latest time `chrono` represents, December 31 of the year 262142 at
/// 23:59:59.999999, in microseconds since the epoch.
pub open spec fn max_utc_micros() -> int {
    8_210_266_876_799_999_999
}

/// The current time, in microseconds since the epoch.
///
/// Trusted: calls `chrono::Utc::now` and `DateTime::timestamp_micros`. The
/// result depends on the clock; what holds of every outcome is stated:
/// `Utc::now` takes the time elapsed since the epoch (it panics on a clock
/// set before it) and unwraps it as a `DateTime`, which is at most
/// `DateTime::MAX_UTC`.
#[verifier::external_body]
pub(crate) fn now_micros() -> (res: i64)
    ensures
        0 <= res <= max_utc_micros(),
{
    chrono::Utc::now().timestamp_micros()
}

/// The time an RFC 2822 date gives, in microseconds since the epoch.
pub uninterp spec fn rfc2822_micros(s: Seq<char>) -> Option<i64>;

/// Reads an RFC 2822 date, as microseconds since the epoch.
///
/// Trusted: calls `chrono::DateTime::parse_from_rfc2822` and, on success,
/// `DateTime::timestamp_micros`; both depend on the text alone.
#[verifier::external_body]
pub(crate) fn parse_rfc2822_micros(s: &str) -> (res: Option<i64>)
    ensures
        res == rfc2822_micros(s@),
{
    match chrono::DateTime::parse_from_rfc2822(s) {
        Ok(d) => Some(d.timestamp_micros()),
        Err(_) => None,
    }
}

// ---------------------------------------------------------------------------
// Set-Cookie headers
// ---------------------------------------------------------------------------
/// What the attributes of a `Set-Cookie` entry have set so far.
pub struct AttrState {
    pub domain: Seq<char>,
    pub path: Option<Seq<char>>,
    pub secure: bool,
    pub expires: i64,
}

/// An attribute's name and value: split at the first `=` of the trimmed
/// text, or the whole (untrimmed) text with an empty value.
pub open spec fn attr_pair(v: Seq<char>) -> (Seq<char>, Seq<char>) {
    match split_once_char(trim_ws(v), '=') {
        Some(p) => p,
        None => (v, Seq::empty()),
    }
}

/// The state after one attribute; `None` when its value cannot be read.
pub open spec fn apply_attr(st: AttrState, v: Seq<char>, now: i64) -> Option<AttrState> {
    let k = lower_ascii(attr_pair(v).0);
    let val = attr_pair(v).1;
    if k == seq!['d', 'o', 'm', 'a', 'i', 'n'] {
        Some(AttrState { domain: val, ..st })
    } else if k == seq!['p', 'a', 't', 'h'] {
        Some(AttrState { path: Some(val), ..st })
    } else if k == seq!['s', 'e', 'c', 'u', 'r', 'e'] {
        Some(AttrState { secure: true, ..st })
    } else if k == seq!['m', 'a', 'x', '-', 'a', 'g', 'e'] {
        match parse_int(val) {
            Some(x) => if i64::MIN <= x + now <= i64::MAX {
                Some(AttrState { expires: (x + now) as i64, ..st })
            } else {
                None
            },
            None => None,
        }
    } else if k == seq!['e', 'x', 'p', 'i', 'r', 'e', 's'] {
        match rfc2822_micros(val) {
            Some(t) => Some(AttrState { expires: t, ..st }),
            None => None,
        }
    } else {
        Some(st)
    }
}

/// The state after the attributes, in order.
pub open spec fn apply_attrs(st: AttrState, attrs: Seq<Seq<char>>, now: i64) -> Option<AttrState>
    decreases attrs.len(),
{
    if attrs.len() == 0 {
        Some(st)
    } else {
        match apply_attrs(st, attrs.drop_last(), now) {
            Some(s2) => apply_attr(s2, attrs.last(), now),
            None => None,
        }
    }
}

/// The cookie one entry of a `Set-Cookie` header sets, for a response
/// from `domain` at time `now`.
pub open spec fn parse_entry(domain: Seq<char>, piece: Seq<char>, now: i64) -> Option<CookieView> {
    let parts = match split_once_char(piece, ';') {
        Some(p) => p,
        None => (piece, Seq::empty()),
    };
    match split_once_char(trim_ws(parts.0), '=') {
        None => None,
        Some((key, value)) => match apply_attrs(
            AttrState { domain, path: None, secure: false, expires: 0 },
            split_on(parts.1, ';'),
            now,
        ) {
            None => None,
            Some(st) => Some(
                CookieView {
                    domain: canonical(st.domain),
                    subdomains: false,
                    path: path_attr_of(
                        match st.path {
                            Some(p) => p,
                            None => Seq::empty(),
                        },
                    ),
                    secure: st.secure,
                    expires_at: st.expires,
                    name: key,
                    value,
                },
            ),
        },
    }
}

/// The cookies of the entries, in order, if every entry can be read.
pub open spec fn parse_entries(domain: Seq<char>, pieces: Seq<Seq<char>>, now: i64) -> Option<
    Seq<CookieView>,
>
    decreases pieces.len(),
{
    if pieces.len() == 0 {
        Some(Seq::empty())
    } else {
        match (parse_entries(domain, pieces.drop_last(), now), parse_entry(domain, pieces.last(), now)) {
            (Some(a), Some(c)) => Some(a.push(c)),
            _ => None,
        }
    }
}

/// The cookies a `Set-Cookie` header sets: one per `,`-separated entry.
pub open spec fn parse_set_cookie(domain: Seq<char>, input: Seq<char>, now: i64) -> Option<
    Seq<CookieView>,
> {
    parse_entries(domain, split_on(input, ','), now)
}

/// Two cookies are the same cookie: same domain and same name.
pub open spec fn same_key(a: CookieView, b: CookieView) -> bool {
    a.domain == b.domain && a.name == b.name
}

/// No cookie occurs twice.
pub open spec fn distinct_cookies(s: Seq<CookieView>) -> bool {
    forall|i: int, j: int| 0 <= i < s.len() && 0 <= j < s.len() && i != j ==> !same_key(s[i], s[j])
}

/// The cookies other than `c`, in order.
pub open spec fn without_key(s: Seq<CookieView>, c: CookieView) -> Seq<CookieView>
    decreases s.len(),
{
    if s.len() == 0 {
        s
    } else if same_key(s.last(), c) {
        without_key(s.drop_last(), c)
    } else {
        without_key(s.drop_last(), c).push(s.last())
    }
}

/// The cookies with `c` in place of the same cookie, as the last one.
pub open spec fn put(s: Seq<CookieView>, c: CookieView) -> Seq<CookieView> {
    without_key(s, c).push(c)
}

/// The cookies after putting each of `cs`, in order.
pub open spec fn put_all(s: Seq<CookieView>, cs: Seq<CookieView>) -> Seq<CookieView>
    decreases cs.len(),
{
    if cs.len() == 0 {
        s
    } else {
        put(put_all(s, cs.drop_last()), cs.last())
    }
}

/// Whether the same cookie as `c` is among `s`.
pub open spec fn has_key(s: Seq<CookieView>, c: CookieView) -> bool {
    exists|i: int| 0 <= i < s.len() && same_key(s[i], c)
}

/// The cookies with `c` added, unless the same cookie is there already.
pub open spec fn add_new(s: Seq<CookieView>, c: CookieView) -> Seq<CookieView> {
    if has_key(s, c) {
        s
    } else {
        s.push(c)
    }
}

/// The views of a sequence of cookies.
pub open spec fn cookie_views(s: Seq<Cookie>) -> Seq<CookieView> {
    s.map_values(|c: Cookie| c@)
}

/// `without_key` keeps exactly the other cookies, in order.
pub proof fn lemma_without_key(s: Seq<CookieView>, c: CookieView)
    ensures
        forall|i: int| 0 <= i < without_key(s, c).len() ==> !same_key(#[trigger] without_key(s, c)[i], c),
        forall|i: int| 0 <= i < without_key(s, c).len() ==> s.contains(#[trigger] without_key(s, c)[i]),
        forall|i: int| 0 <= i < s.len() && !same_key(s[i], c) ==> without_key(s, c).contains(#[trigger] s[i]),
        distinct_cookies(s) ==> distinct_cookies(without_key(s, c)),
        distinct_cookies(s) && !has_key(s, c) ==> without_key(s, c) == s,
    decreases s.len(),
{
    if s.len() > 0 {
        let t = s.drop_last();
        lemma_without_key(t, c);
        let w = without_key(t, c);
        assert forall|i: int| 0 <= i < without_key(s, c).len() implies s.contains(#[trigger] without_key(s, c)[i]) by {
            if i < w.len() {
                assert(without_key(s, c)[i] == w[i]);
                let k = choose|k: int| 0 <= k < t.len() && t[k] == w[i];
                assert(s[k] == t[k]);
            } else {
                assert(s[s.len() - 1] == s.last());
            }
        }
        assert forall|i: int| 0 <= i < s.len() && !same_key(s[i], c) implies without_key(s, c).contains(#[trigger] s[i]) by {
            if i < t.len() {
                assert(t[i] == s[i]);
                let k = choose|k: int| 0 <= k < w.len() && w[k] == t[i];
                if !same_key(s.last(), c) {
                    assert(without_key(s, c)[k] == w[k]);
                }
            } else {
                assert(s[i] == s.last());
                assert(without_key(s, c).last() == s.last());
            }
        }
        if distinct_cookies(s) {
            assert(distinct_cookies(t)) by {
                assert forall|i: int, j: int| 0 <= i < t.len() && 0 <= j < t.len() && i != j implies !same_key(t[i], t[j]) by {
                    assert(t[i] == s[i] && t[j] == s[j]);
                }
            }
            let r = without_key(s, c);
            assert forall|i: int, j: int| 0 <= i < r.len() && 0 <= j < r.len() && i != j implies !same_key(r[i], r[j]) by {
                if !same_key(s.last(), c) && (i == w.len() || j == w.len()) {
                    let o = if i == w.len() { j } else { i };
                    assert(r[o] == w[o]);
                    let k = choose|k: int| 0 <= k < t.len() && t[k] == w[o];
                    assert(s[k] == t[k]);
                    assert(!same_key(s[k], s[s.len() - 1]));
                } else {
                    assert(r[i] == w[i] && r[j] == w[j]);
                }
            }
            if !has_key(s, c) {
                assert(!has_key(t, c)) by {
                    if has_key(t, c) {
                        let k = choose|k: int| 0 <= k < t.len() && same_key(t[k], c);
                        assert(s[k] == t[k]);
                    }
                }
                assert(!same_key(s[s.len() - 1], c));
                assert(without_key(s, c) =~= s);
            }
        }
    }
}

/// A jar of cookies: no cookie occurs twice.
pub struct CookieJar {
    data: Vec<Cookie>,
    path: String,
}

impl View for CookieJar {
    type V = Seq<CookieView>;

    closed spec fn view(&self) -> Seq<CookieView> {
        cookie_views(self.data@)
    }
}

impl CookieJar {
    #[verifier::type_invariant]
    spec fn inv(self) -> bool {
        distinct_cookies(cookie_views(self.data@))
    }

    /// The file the jar is written to.
    pub closed spec fn spec_path(&self) -> Seq<char> {
        self.path@
    }

    /// An empty jar.
    pub fn new() -> (res: CookieJar)
        ensures
            res@ == Seq::<CookieView>::empty(),
            res.spec_path().len() == 0,
    {
        let r = CookieJar { data: Vec::new(), path: String::new() };
        assert(r@ =~= Seq::<CookieView>::empty());
        r
    }

    /// Number of cookies; no cookie occurs twice.
    pub fn len(&self) -> (res: usize)
        ensures
            res == self@.len(),
            distinct_cookies(self@),
    {
        proof {
            use_type_invariant(self);
        }
        self.data.len()
    }

    /// The cookie at `i`.
    pub fn get(&self, i: usize) -> (res: &Cookie)
        requires
            i < self@.len(),
        ensures
            res@ == self@[i as int],
    {
        &self.data[i]
    }

    /// The file the jar is written to.
    pub fn path(&self) -> (res: &str)
        ensures
            res@ == self.spec_path(),
    {
        self.path.as_str()
    }

    /// Sets the file the jar is written to.
    pub fn set_path(&mut self, path: &str)
        ensures
            final(self)@ == old(self)@,
            final(self).spec_path() == path@,
    {
        proof {
            use_type_invariant(&*self);
        }
        self.path = owned(path);
    }

    /// Position of the same cookie as `c`.
    fn position(&self, c: &Cookie) -> (res: Option<usize>)
        ensures
            match res {
                Some(i) => i < self@.len() && same_key(self@[i as int], c@),
                None => !has_key(self@, c@),
            },
    {
        let mut i: usize = 0;
        while i < self.data.len()
            invariant
                i <= self.data.len(),
                forall|j: int| 0 <= j < i ==> !same_key(self@[j], c@),
            decreases self.data.len() - i,
        {
            if str_eq(self.data[i].domain.as_str(), c.domain.as_str()) && str_eq(
                self.data[i].name.as_str(),
                c.name.as_str(),
            ) {
                return Some(i);
            }
            i = i + 1;
        }
        None
    }

    /// Whether the same cookie as `c` (same domain and name) is in the jar.
    pub fn contains(&self, c: &Cookie) -> (res: bool)
        ensures
            res == has_key(self@, c@),
    {
        self.position(c).is_some()
    }

    /// Adds `c` unless the same cookie is in the jar; tells whether it was
    /// added.
    pub fn insert(&mut self, c: Cookie) -> (res: bool)
        ensures
            final(self)@ == add_new(old(self)@, c@),
            res == !has_key(old(self)@, c@),
            final(self).spec_path() == old(self).spec_path(),
    {
        proof {
            use_type_invariant(&*self);
        }
        if self.contains(&c) {
            return false;
        }
        let mut data: Vec<Cookie> = Vec::new();
        std::mem::swap(&mut data, &mut self.data);
        let ghost before = cookie_views(data@);
        data.push(c);
        proof {
            let after = cookie_views(data@);
            assert(after =~= before.push(c@));
            assert forall|i: int, j: int| 0 <= i < after.len() && 0 <= j < after.len() && i != j implies !same_key(after[i], after[j]) by {
                if i < before.len() && j < before.len() {
                    assert(after[i] == before[i] && after[j] == before[j]);
                } else if i < before.len() {
                    assert(after[i] == before[i]);
                } else if j < before.len() {
                    assert(after[j] == before[j]);
                }
            }
        }
        self.data = data;
        true
    }

    /// Removes the same cookie as `c`; tells whether there was one.
    pub fn remove(&mut self, c: &Cookie) -> (res: bool)
        ensures
            final(self)@ == without_key(old(self)@, c@),
            res == has_key(old(self)@, c@),
            final(self).spec_path() == old(self).spec_path(),
    {
        proof {
            use_type_invariant(&*self);
            lemma_without_key(self@, c@);
        }
        match self.position(c) {
            None => false,
            Some(i) => {
                let mut data: Vec<Cookie> = Vec::new();
                std::mem::swap(&mut data, &mut self.data);
                let ghost before = cookie_views(data@);
                data.remove(i);
                proof {
                    let after = cookie_views(data@);
                    assert(after =~= before.remove(i as int));
                    lemma_without_unique(before, c@, i as int);
                }
                self.data = data;
                true
            },
        }
    }

    /// Puts `c` in the jar, in place of the same cookie, as the last one.
    pub fn put(&mut self, c: Cookie)
        ensures
            final(self)@ == put(old(self)@, c@),
            final(self).spec_path() == old(self).spec_path(),
    {
        proof {
            use_type_invariant(&*self);
            lemma_without_key(self@, c@);
        }
        self.remove(&c);
        proof {
            lemma_without_key(self@, c@);
        }
        let added = self.insert(c);
        proof {
            assert(!has_key(self@, c@) || true);
        }
    }

    /// The cookies named `s`.
    pub fn find_by_name(&self, s: &str) -> (res: Vec<&Cookie>)
        ensures
            res@.map_values(|c: &Cookie| c@) == self@.filter(|c: CookieView| c.name == s@),
    {
        let mut res: Vec<&Cookie> = Vec::new();
        let mut i: usize = 0;
        while i < self.data.len()
            invariant
                i <= self.data.len(),
                res@.map_values(|c: &Cookie| c@) == self@.take(i as int).filter(|c: CookieView| c.name == s@),
            decreases self.data.len() - i,
        {
            let ghost before = res@.map_values(|c: &Cookie| c@);
            proof {
                let f = |c: CookieView| c.name == s@;
                assert(self@.take(i + 1).drop_last() =~= self@.take(i as int));
                reveal(Seq::filter);
            }
            if str_eq(self.data[i].name.as_str(), s) {
                res.push(&self.data[i]);
                assert(res@.map_values(|c: &Cookie| c@) =~= before.push(self@[i as int]));
            } else {
                assert(res@.map_values(|c: &Cookie| c@) =~= before);
            }
            i = i + 1;
        }
        assert(self@.take(self.data.len() as int) =~= self@);
        res
    }

    /// The jar as a Netscape cookie file: one line per cookie.
    pub fn to_string(&self) -> (res: String)
        ensures
            res@ == jar_text(self@),
    {
        let mut out = String::new();
        let mut i: usize = 0;
        while i < self.data.len()
            invariant
                i <= self.data.len(),
                out@ == jar_text(self@.take(i as int)),
            decreases self.data.len() - i,
        {
            let line = self.data[i].to_string();
            push_str(&mut out, line.as_str());
            push_char(&mut out, '\n');
            assert(self@.take(i + 1).drop_last() =~= self@.take(i as int));
            i = i + 1;
        }
        assert(self@.take(self.data.len() as int) =~= self@);
        out
    }

    /// The jar a Netscape cookie file holds: empty lines, comment lines
    /// (starting with `#`) and lines that are not cookies are skipped; of two
    /// lines for the same cookie the first is kept.
    pub fn from_text(content: &str, path: &str) -> (res: CookieJar)
        ensures
            res@ == read_jar(Seq::empty(), lines_of(content@)),
            res.spec_path() == path@,
    {
        let ls = lines(content);
        let mut jar = CookieJar::new();
        let mut i: usize = 0;
        while i < ls.len()
            invariant
                i <= ls.len(),
                jar@ == read_jar(Seq::empty(), views(ls@).take(i as int)),
            decreases ls.len() - i,
        {
            assert(views(ls@).take(i + 1).drop_last() =~= views(ls@).take(i as int));
            let line = ls[i].as_str();
            proof {
                reveal_strlit("#");
                assert("#"@ =~= seq!['#']);
            }
            if !str_is_empty(line) && !starts_with_str(line, "#") {
                if let Ok(cookie) = Cookie::from_str(line) {
                    jar.insert(cookie);
                }
            }
            i = i + 1;
        }
        assert(views(ls@).take(ls.len() as int) =~= views(ls@));
        jar.set_path(path);
        jar
    }

    /// Puts the cookies that the `Set-Cookie` header `input`, received from
    /// `domain` at time `now`, sets; an error, with the jar unchanged, when
    /// an entry has no `name=value` pair or an unreadable `Max-Age` or
    /// `Expires`.
    pub fn set_at(&mut self, domain: &str, input: &str, now: i64) -> (res: Result<(), CookieError>)
        ensures
            match parse_set_cookie(domain@, input@, now) {
                Some(cs) => res is Ok && final(self)@ == put_all(old(self)@, cs),
                None => res is Err && final(self)@ == old(self)@,
            },
            final(self).spec_path() == old(self).spec_path(),
    {
        let cookies = match parse_set_cookie_exec(domain, input, now) {
            Some(cs) => cs,
            None => return Err(CookieError),
        };
        let ghost cs = cookie_views(cookies@);
        let ghost start = self@;
        let mut k: usize = 0;
        while k < cookies.len()
            invariant
                k <= cookies.len(),
                cs == cookie_views(cookies@),
                self@ == put_all(start, cs.take(k as int)),
                self.spec_path() == old(self).spec_path(),
            decreases cookies.len() - k,
        {
            self.put(cookies[k].duplicate());
            assert(cs.take(k + 1).drop_last() =~= cs.take(k as int));
            k = k + 1;
        }
        assert(cs.take(cookies.len() as int) =~= cs);
        Ok(())
    }

    /// Puts the cookies that the `Set-Cookie` header `input`, received from
    /// `domain` now, sets; an error, with the jar unchanged, when an entry
    /// cannot be read.
    pub fn set(&mut self, domain: &str, input: &str) -> (res: Result<(), CookieError>)
        ensures
            exists|now: i64|
                #![trigger parse_set_cookie(domain@, input@, now)]
                0 <= now <= max_utc_micros() && match parse_set_cookie(domain@, input@, now) {
                    Some(cs) => res is Ok && final(self)@ == put_all(old(self)@, cs),
                    None => res is Err && final(self)@ == old(self)@,
                },
            final(self).spec_path() == old(self).spec_path(),
    {
        let now = now_micros();
        self.set_at(domain, input, now)
    }
}

/// Removing one cookie from a jar where it is unique is `without_key`.
proof fn lemma_without_unique(s: Seq<CookieView>, c: CookieView, i: int)
    requires
        distinct_cookies(s),
        0 <= i < s.len(),
        same_key(s[i], c),
    ensures
        without_key(s, c) == s.remove(i),
    decreases s.len(),
{
    let t = s.drop_last();
    if i == s.len() - 1 {
        lemma_without_key(t, c);
        assert(!has_key(t, c)) by {
            if has_key(t, c) {
                let k = choose|k: int| 0 <= k < t.len() && same_key(t[k], c);
                assert(s[k] == t[k]);
                assert(!same_key(s[k], s[i]));
            }
        }
        assert(distinct_cookies(t)) by {
            assert forall|a: int, b: int| 0 <= a < t.len() && 0 <= b < t.len() && a != b implies !same_key(t[a], t[b]) by {
                assert(t[a] == s[a] && t[b] == s[b]);
            }
        }
        assert(s.remove(i) =~= t);
    } else {
        assert(distinct_cookies(t)) by {
            assert forall|a: int, b: int| 0 <= a < t.len() && 0 <= b < t.len() && a != b implies !same_key(t[a], t[b]) by {
                assert(t[a] == s[a] && t[b] == s[b]);
            }
        }
        assert(t[i] == s[i]);
        lemma_without_unique(t, c, i);
        assert(!same_key(s.last(), c)) by {
            assert(s[s.len() - 1] == s.last());
            assert(!same_key(s[i], s[s.len() - 1]));
        }
        assert(s.remove(i) =~= t.remove(i).push(s.last()));
    }
}

/// The cookie file lines of the cookies, each ended by a line feed.
pub open spec fn jar_text(s: Seq<CookieView>) -> Seq<char>
    decreases s.len(),
{
    if s.len() == 0 {
        Seq::empty()
    } else {
        jar_text(s.drop_last()) + cookie_line(s.last()) + seq!['\n']
    }
}

/// The jar after reading the lines of a cookie file, in order.
pub open spec fn read_jar(s: Seq<CookieView>, ls: Seq<Seq<char>>) -> Seq<CookieView>
    decreases ls.len(),
{
    if ls.len() == 0 {
        s
    } else {
        let prev = read_jar(s, ls.drop_last());
        let l = ls.last();
        if l.len() == 0 || starts_with(l, seq!['#']) {
            prev
        } else {
            match spec_parse_cookie(l) {
                Some(c) => add_new(prev, c),
                None => prev,
            }
        }
    }
}

/// The cookies a `Set-Cookie` header sets, if every entry can be read.
pub fn parse_set_cookie_exec(domain: &str, input: &str, now: i64) -> (res: Option<Vec<Cookie>>)
    ensures
        match parse_set_cookie(domain@, input@, now) {
            Some(cs) => res matches Some(v) && cookie_views(v@) == cs,
            None => res is None,
        },
{
    let pieces = split_char(input, ',');
    let mut out: Vec<Cookie> = Vec::new();
    let mut i: usize = 0;
    while i < pieces.len()
        invariant
            i <= pieces.len(),
            views(pieces@) == split_on(input@, ','),
            parse_entries(domain@, views(pieces@).take(i as int), now) == Some(cookie_views(out@)),
        decreases pieces.len() - i,
    {
        assert(views(pieces@).take(i + 1).drop_last() =~= views(pieces@).take(i as int));
        match parse_entry_exec(domain, pieces[i].as_str(), now) {
            Some(c) => {
                let ghost before = cookie_views(out@);
                out.push(c);
                assert(cookie_views(out@) =~= before.push(c@));
            },
            None => {
                proof {
                    assert(views(pieces@)[i as int] == pieces@[i as int]@);
                    lemma_parse_entries_none(domain@, views(pieces@), now, i as int);
                    assert(views(pieces@).take(pieces@.len() as int) =~= views(pieces@));
                }
                return None;
            },
        }
        i = i + 1;
    }
    assert(views(pieces@).take(pieces.len() as int) =~= views(pieces@));
    Some(out)
}

/// One unreadable entry makes the whole header unreadable.
proof fn lemma_parse_entries_none(domain: Seq<char>, ps: Seq<Seq<char>>, now: i64, i: int)
    requires
        0 <= i < ps.len(),
        parse_entry(domain, ps[i], now) is None,
    ensures
        parse_entries(domain, ps, now) is None,
    decreases ps.len(),
{
    if i < ps.len() - 1 {
        assert(ps.drop_last()[i] == ps[i]);
        lemma_parse_entries_none(domain, ps.drop_last(), now, i);
    }
}

/// The cookie one `Set-Cookie` entry sets, if it can be read.
pub fn parse_entry_exec(domain: &str, piece: &str, now: i64) -> (res: Option<Cookie>)
    ensures
        match parse_entry(domain@, piece@, now) {
            Some(c) => res matches Some(k) && k@ == c,
            None => res is None,
        },
{
    let (pair, settings) = match split_once_at_char(piece, ';') {
        Some((a, b)) => (a, b),
        None => (owned(piece), String::new()),
    };
    let tp = trim(pair.as_str());
    let (key, value) = match split_once_at_char(tp.as_str(), '=') {
        Some(kv) => kv,
        None => return None,
    };
    let mut cookie = Cookie::builder();
    cookie.domain(domain);
    cookie.name(key.as_str());
    cookie.value(value.as_str());
    let attrs = split_char(settings.as_str(), ';');
    let ghost st0 = AttrState { domain: domain@, path: None, secure: false, expires: 0 };
    let mut j: usize = 0;
    while j < attrs.len()
        invariant
            j <= attrs.len(),
            views(attrs@) == split_on(settings@, ';'),
            (match split_once_char(piece@, ';') {
                Some(p) => p,
                None => (piece@, Seq::empty()),
            }) == (pair@, settings@),
            split_once_char(trim_ws(pair@), '=') == Some((key@, value@)),
            st0 == (AttrState { domain: domain@, path: None, secure: false, expires: 0 }),
            apply_attrs(st0, views(attrs@).take(j as int), now) matches Some(st) && cookie@ == (
            CookieBuilderView {
                domain: Some(st.domain),
                subdomains: false,
                path: st.path,
                secure: st.secure,
                expires_at: st.expires,
                name: Some(key@),
                value: Some(value@),
            }),
        decreases attrs.len() - j,
    {
        assert(views(attrs@).take(j + 1).drop_last() =~= views(attrs@).take(j as int));
        let ok = apply_attr_exec(&mut cookie, attrs[j].as_str(), now);
        if !ok {
            proof {
                let s2 = apply_attrs(st0, views(attrs@).take(j as int), now)->0;
                assert(views(attrs@)[j as int] == attrs@[j as int]@);
                assert(apply_attr(s2, views(attrs@)[j as int], now) is None);
                lemma_apply_attrs_none(st0, views(attrs@), now, j as int);
                assert(apply_attrs(st0, split_on(settings@, ';'), now) is None);
            }
            return None;
        }
        j = j + 1;
    }
    assert(views(attrs@).take(attrs.len() as int) =~= views(attrs@));
    match cookie.build() {
        Ok(c) => Some(c),
        Err(_) => None,
    }
}

/// Once an attribute cannot be read, the attributes cannot be read.
proof fn lemma_apply_attrs_none(st: AttrState, attrs: Seq<Seq<char>>, now: i64, j: int)
    requires
        0 <= j < attrs.len(),
        apply_attrs(st, attrs.take(j), now) matches Some(s2) && apply_attr(s2, attrs[j], now) is None,
    ensures
        apply_attrs(st, attrs, now) is None,
    decreases attrs.len(),
{
    if j == attrs.len() - 1 {
        assert(attrs.take(j) =~= attrs.drop_last());
    } else {
        assert(attrs.drop_last().take(j) =~= attrs.take(j));
        assert(attrs.drop_last()[j] == attrs[j]);
        lemma_apply_attrs_none(st, attrs.drop_last(), now, j);
    }
}

/// Applies one attribute to the builder; false when its value cannot be
/// read.
fn apply_attr_exec(cookie: &mut CookieBuilder, v: &str, now: i64) -> (ok: bool)
    requires
        old(cookie)@.domain is Some,
    ensures
        ({
            let st = AttrState {
                domain: old(cookie)@.domain->0,
                path: old(cookie)@.path,
                secure: old(cookie)@.secure,
                expires: old(cookie)@.expires_at,
            };
            match apply_attr(st, v@, now) {
                Some(s2) => ok && final(cookie)@ == (CookieBuilderView {
                    domain: Some(s2.domain),
                    path: s2.path,
                    secure: s2.secure,
                    expires_at: s2.expires,
                    ..old(cookie)@
                }),
                None => !ok,
            }
        }),
{
    let tv = trim(v);
    let (key, value) = match split_once_at_char(tv.as_str(), '=') {
        Some(kv) => kv,
        None => (owned(v), String::new()),
    };
    let k = to_ascii_lowercase(key.as_str());
    proof {
        reveal_strlit("domain");
        reveal_strlit("path");
        reveal_strlit("secure");
        reveal_strlit("max-age");
        reveal_strlit("expires");
        assert("domain"@ =~= seq!['d', 'o', 'm', 'a', 'i', 'n']);
        assert("path"@ =~= seq!['p', 'a', 't', 'h']);
        assert("secure"@ =~= seq!['s', 'e', 'c', 'u', 'r', 'e']);
        assert("max-age"@ =~= seq!['m', 'a', 'x', '-', 'a', 'g', 'e']);
        assert("expires"@ =~= seq!['e', 'x', 'p', 'i', 'r', 'e', 's']);
        assert(value@.len() == 0 ==> value@ =~= Seq::<char>::empty());
    }
    if str_eq(k.as_str(), "domain") {
        cookie.domain(value.as_str());
        true
    } else if str_eq(k.as_str(), "path") {
        cookie.path(value.as_str());
        true
    } else if str_eq(k.as_str(), "secure") {
        cookie.secure(true);
        true
    } else if str_eq(k.as_str(), "max-age") {
        match parse_i64(value.as_str()) {
            Some(x) => match x.checked_add(now) {
                Some(t) => {
                    cookie.expires_at(t);
                    true
                },
                None => false,
            },
            None => false,
        }
    } else if str_eq(k.as_str(), "expires") {
        match parse_rfc2822_micros(value.as_str()) {
            Some(t) => {
                cookie.expires_at(t);
                true
            },
            None => false,
        }
    } else {
        true
    }
}

} // verus!
