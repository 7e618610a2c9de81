//! The contents of a quartz project: its handles with their endpoints and
//! bodies, its environments, and its state.
use vstd::prelude::*;

use crate::context::Context;
use crate::endpoint::{Endpoint, EndpointHandle};
use crate::history::Entry;
use crate::text::{str_eq, views};

verus! {

/// One handle directory: its segments, its endpoint file and its body file.
pub struct HandleEntry {
    pub path: Vec<String>,
    pub endpoint: Option<Endpoint>,
    pub body: Option<String>,
}

/// The segments of an entry.
pub open spec fn entry_path(e: HandleEntry) -> Seq<Seq<char>> {
    views(e.path@)
}

/// Index of the first entry with segments `p`, or -1.
pub open spec fn handle_index(hs: Seq<HandleEntry>, p: Seq<Seq<char>>) -> int
    decreases hs.len(),
{
    if hs.len() == 0 {
        -1
    } else if entry_path(hs[0]) == p {
        0
    } else {
        let r = handle_index(hs.drop_first(), p);
        if r < 0 {
            -1
        } else {
            r + 1
        }
    }
}

/// The entry with segments `p`, if any.
pub open spec fn lookup_handle(hs: Seq<HandleEntry>, p: Seq<Seq<char>>) -> Option<HandleEntry> {
    let i = handle_index(hs, p);
    if 0 <= i < hs.len() {
        Some(hs[i])
    } else {
        None
    }
}

/// No two entries have the same segments.
pub open spec fn distinct_handles(hs: Seq<HandleEntry>) -> bool {
    forall|i: int, j: int|
        0 <= i < hs.len() && 0 <= j < hs.len() && i != j ==> entry_path(hs[i]) != entry_path(hs[j])
}

/// `p` begins `q`.
pub open spec fn is_prefix(p: Seq<Seq<char>>, q: Seq<Seq<char>>) -> bool {
    p.len() <= q.len() && q.take(p.len() as int) == p
}

/// Index of the first environment named `name`, or -1.
pub open spec fn env_index(es: Seq<Context>, name: Seq<char>) -> int
    decreases es.len(),
{
    if es.len() == 0 {
        -1
    } else if es[0].name@ == name {
        0
    } else {
        let r = env_index(es.drop_first(), name);
        if r < 0 {
            -1
        } else {
            r + 1
        }
    }
}

/// No two environments have the same name.
pub open spec fn distinct_envs(es: Seq<Context>) -> bool {
    forall|i: int, j: int| 0 <= i < es.len() && 0 <= j < es.len() && i != j ==> es[i].name@ != es[j].name@
}

/// `env_index` finds the environment, if there is one.
pub proof fn lemma_env_index(es: Seq<Context>, name: Seq<char>)
    ensures
        -1 <= env_index(es, name) < es.len(),
        env_index(es, name) >= 0 ==> es[env_index(es, name)].name@ == name,
        env_index(es, name) < 0 <==> (forall|i: int| 0 <= i < es.len() ==> es[i].name@ != name),
    decreases es.len(),
{
    if es.len() > 0 {
        let t = es.drop_first();
        lemma_env_index(t, name);
        assert forall|i: int| 0 <= i < es.len() && env_index(es, name) < 0 implies es[i].name@ != name by {
            if i > 0 {
                assert(t[i - 1] == es[i]);
            }
        }
        if env_index(es, name) > 0 {
            assert(t[env_index(es, name) - 1] == es[env_index(es, name)]);
        }
    }
}

/// The first environment named `name` is at `i` when none comes before it.
pub proof fn lemma_first_env(es: Seq<Context>, name: Seq<char>, i: int)
    requires
        0 <= i < es.len(),
        es[i].name@ == name,
        forall|k: int| 0 <= k < i ==> es[k].name@ != name,
    ensures
        env_index(es, name) == i,
    decreases i,
{
    if i > 0 {
        let t = es.drop_first();
        assert forall|k: int| 0 <= k < i - 1 implies t[k].name@ != name by {
            assert(t[k] == es[k + 1]);
        }
        assert(t[i - 1] == es[i]);
        lemma_first_env(t, name, i - 1);
    }
}

/// `handle_index` finds the entry, if there is one.
pub proof fn lemma_handle_index(hs: Seq<HandleEntry>, p: Seq<Seq<char>>)
    ensures
        -1 <= handle_index(hs, p) < hs.len(),
        handle_index(hs, p) >= 0 ==> entry_path(hs[handle_index(hs, p)]) == p,
        forall|k: int| 0 <= k < handle_index(hs, p) ==> entry_path(hs[k]) != p,
        handle_index(hs, p) < 0 <==> (forall|i: int| 0 <= i < hs.len() ==> entry_path(hs[i]) != p),
        distinct_handles(hs) ==> forall|i: int|
            0 <= i < hs.len() && entry_path(hs[i]) == p ==> handle_index(hs, p) == i,
    decreases hs.len(),
{
    if hs.len() > 0 {
        let t = hs.drop_first();
        lemma_handle_index(t, p);
        assert(distinct_handles(hs) ==> distinct_handles(t)) by {
            if distinct_handles(hs) {
                assert forall|i: int, j: int|
                    0 <= i < t.len() && 0 <= j < t.len() && i != j implies entry_path(t[i])
                    != entry_path(t[j]) by {
                    assert(t[i] == hs[i + 1] && t[j] == hs[j + 1]);
                }
            }
        }
        assert forall|i: int| 0 <= i < hs.len() && handle_index(hs, p) < 0 implies entry_path(hs[i]) != p by {
            if i > 0 {
                assert(t[i - 1] == hs[i]);
            }
        }
        if handle_index(hs, p) > 0 {
            assert(t[handle_index(hs, p) - 1] == hs[handle_index(hs, p)]);
            assert forall|k: int| 0 <= k < handle_index(hs, p) implies entry_path(hs[k]) != p by {
                if k > 0 {
                    assert(t[k - 1] == hs[k]);
                }
            }
        }
        if distinct_handles(hs) {
            assert forall|i: int| 0 <= i < hs.len() && entry_path(hs[i]) == p implies handle_index(
                hs,
                p,
            ) == i by {
                if i > 0 {
                    assert(t[i - 1] == hs[i]);
                    assert(entry_path(hs[0]) != entry_path(hs[i]));
                }
            }
        }
    }
}

/// Looking up after adding one entry.
pub proof fn lemma_lookup_push(hs: Seq<HandleEntry>, e: HandleEntry, q: Seq<Seq<char>>)
    ensures
        lookup_handle(hs.push(e), q) == (if lookup_handle(hs, q) is Some {
            lookup_handle(hs, q)
        } else if entry_path(e) == q {
            Some(e)
        } else {
            None
        }),
{
    let hp = hs.push(e);
    lemma_handle_index(hs, q);
    lemma_handle_index(hp, q);
    let i = handle_index(hs, q);
    let j = handle_index(hp, q);
    if i >= 0 {
        assert(hp[i] == hs[i]);
        // the first match in hp is at i
        lemma_first_index(hp, q, i);
    } else if entry_path(e) == q {
        assert(hp[hs.len() as int] == e);
        assert forall|k: int| 0 <= k < hs.len() implies entry_path(hp[k]) != q by {
            assert(hp[k] == hs[k]);
        }
        lemma_first_index(hp, q, hs.len() as int);
    } else {
        assert forall|k: int| 0 <= k < hp.len() implies entry_path(hp[k]) != q by {
            if k < hs.len() {
                assert(hp[k] == hs[k]);
            }
        }
    }
}

/// The first entry with segments `q` is at `i` when none comes before it.
pub proof fn lemma_first_index(hs: Seq<HandleEntry>, q: Seq<Seq<char>>, i: int)
    requires
        0 <= i < hs.len(),
        entry_path(hs[i]) == q,
        forall|k: int| 0 <= k < i ==> entry_path(hs[k]) != q,
    ensures
        handle_index(hs, q) == i,
    decreases i,
{
    if i > 0 {
        let t = hs.drop_first();
        assert forall|k: int| 0 <= k < i - 1 implies entry_path(t[k]) != q by {
            assert(t[k] == hs[k + 1]);
        }
        assert(t[i - 1] == hs[i]);
        lemma_first_index(t, q, i - 1);
    }
}

/// Distinctness survives adding an entry with new segments.
pub proof fn lemma_distinct_push(hs: Seq<HandleEntry>, e: HandleEntry)
    requires
        distinct_handles(hs),
        lookup_handle(hs, entry_path(e)) is None,
    ensures
        distinct_handles(hs.push(e)),
{
    lemma_handle_index(hs, entry_path(e));
    let hp = hs.push(e);
    assert forall|i: int, j: int|
        0 <= i < hp.len() && 0 <= j < hp.len() && i != j implies entry_path(hp[i]) != entry_path(
        hp[j],
    ) by {
        if i < hs.len() && j < hs.len() {
            assert(hp[i] == hs[i] && hp[j] == hs[j]);
        } else if i < hs.len() {
            assert(hp[i] == hs[i]);
        } else {
            assert(hp[j] == hs[j]);
        }
    }
}

/// The mathematical content of an endpoint.
pub struct EndpointView {
    pub url: Seq<char>,
    pub method: Seq<char>,
    pub query: Seq<(Seq<char>, Seq<char>)>,
    pub headers: Seq<(Seq<char>, Seq<char>)>,
    pub variables: Seq<(Seq<char>, Seq<char>)>,
    pub path: Seq<char>,
}

/// The content of an endpoint.
pub open spec fn endpoint_view(e: Endpoint) -> EndpointView {
    EndpointView {
        url: e.url@,
        method: e.method@,
        query: e.query.0.pairs(),
        headers: e.headers.0.pairs(),
        variables: e.variables.0.pairs(),
        path: e.path@,
    }
}

/// The content of a handle directory: its endpoint and its body.
pub struct EntryView {
    pub endpoint: Option<EndpointView>,
    pub body: Option<Seq<char>>,
}

/// The content of an entry.
pub open spec fn entry_view(e: HandleEntry) -> EntryView {
    EntryView {
        endpoint: match e.endpoint {
            Some(ep) => Some(endpoint_view(ep)),
            None => None,
        },
        body: match e.body {
            Some(b) => Some(b@),
            None => None,
        },
    }
}

/// The store after creating `t` and each of its missing non-empty
/// prefixes, empty.
pub open spec fn put_tree(
    s: spec_fn(Seq<Seq<char>>) -> Option<EntryView>,
    t: Seq<Seq<char>>,
) -> spec_fn(Seq<Seq<char>>) -> Option<EntryView> {
    |q: Seq<Seq<char>>|
        if s(q) is Some {
            s(q)
        } else if q.len() >= 1 && is_prefix(q, t) {
            Some(EntryView { endpoint: None, body: None })
        } else {
            None
        }
}

/// The store after giving `t` the endpoint `ev` and the body `body`.
pub open spec fn put_entry(
    s: spec_fn(Seq<Seq<char>>) -> Option<EntryView>,
    t: Seq<Seq<char>>,
    ev: Option<EndpointView>,
    body: Option<Seq<char>>,
) -> spec_fn(Seq<Seq<char>>) -> Option<EntryView> {
    |q: Seq<Seq<char>>|
        if q == t {
            Some(EntryView { endpoint: ev, body })
        } else {
            s(q)
        }
}

/// The store after removing `p` and every handle under it.
pub open spec fn cut_tree(
    s: spec_fn(Seq<Seq<char>>) -> Option<EntryView>,
    p: Seq<Seq<char>>,
) -> spec_fn(Seq<Seq<char>>) -> Option<EntryView> {
    |q: Seq<Seq<char>>|
        if is_prefix(p, q) {
            None
        } else {
            s(q)
        }
}

/// The entries of `hs` after removing `p` and every handle under it, in
/// order.
pub open spec fn without_tree(hs: Seq<HandleEntry>, p: Seq<Seq<char>>) -> Seq<HandleEntry>
    decreases hs.len(),
{
    if hs.len() == 0 {
        hs
    } else {
        let r = without_tree(hs.drop_last(), p);
        if is_prefix(p, entry_path(hs.last())) {
            r
        } else {
            r.push(hs.last())
        }
    }
}

/// The relational description of `ensure` gives its store.
pub proof fn lemma_store_put_tree(before: Project, after: Project, t: Seq<Seq<char>>)
    requires
        forall|q: Seq<Seq<char>>| before.has(q) ==> #[trigger] after.lookup(q) == before.lookup(q),
        forall|q: Seq<Seq<char>>|
            !before.has(q) ==> (#[trigger] after.has(q) <==> (q.len() >= 1 && is_prefix(q, t))),
        forall|q: Seq<Seq<char>>|
            !before.has(q) && #[trigger] after.has(q) ==> after.lookup(q)->0.endpoint is None
                && after.lookup(q)->0.body is None,
    ensures
        after.store() == put_tree(before.store(), t),
{
    assert forall|q: Seq<Seq<char>>| #[trigger] after.store()(q) == put_tree(before.store(), t)(q) by {
        if before.has(q) {
            assert(after.lookup(q) == before.lookup(q));
        } else if after.has(q) {
            assert(after.lookup(q)->0.endpoint is None);
        }
    }
    assert(after.store() =~= put_tree(before.store(), t));
}

/// The contents of a project.
pub struct Project {
    /// Every handle directory.
    pub handles: Vec<HandleEntry>,
    /// Every environment.
    pub envs: Vec<Context>,
    /// The handle in use.
    pub state_endpoint: Option<String>,
    /// The handle used before.
    pub state_previous: Option<String>,
    /// The environment in use.
    pub state_env: Option<String>,
    /// The recorded requests.
    pub history: Vec<Entry>,
}

impl Project {
    /// No two handles and no two environments share a name.
    pub open spec fn wf(&self) -> bool {
        distinct_handles(self.handles@) && distinct_envs(self.envs@)
    }

    /// The entry with segments `p`, if any.
    pub open spec fn lookup(&self, p: Seq<Seq<char>>) -> Option<HandleEntry> {
        lookup_handle(self.handles@, p)
    }

    /// The content of every handle, by segments.
    pub open spec fn store(&self) -> spec_fn(Seq<Seq<char>>) -> Option<EntryView> {
        |q: Seq<Seq<char>>|
            match self.lookup(q) {
                Some(e) => Some(entry_view(e)),
                None => None,
            }
    }

    /// Whether the handle with segments `p` exists.
    pub open spec fn has(&self, p: Seq<Seq<char>>) -> bool {
        self.lookup(p) is Some
    }

    /// The environment named `name`, if any.
    pub open spec fn env(&self, name: Seq<char>) -> Option<Context> {
        let i = env_index(self.envs@, name);
        if 0 <= i < self.envs@.len() {
            Some(self.envs@[i])
        } else {
            None
        }
    }

    /// A project with nothing in it.
    pub fn new() -> (res: Project)
        ensures
            res.wf(),
            res.handles@.len() == 0,
            res.envs@.len() == 0,
            res.state_endpoint is None,
            res.state_previous is None,
            res.state_env is None,
            res.history@.len() == 0,
    {
        Project {
            handles: Vec::new(),
            envs: Vec::new(),
            state_endpoint: None,
            state_previous: None,
            state_env: None,
            history: Vec::new(),
        }
    }

    /// Position of the environment named `name`.
    pub fn find_env(&self, name: &str) -> (res: Option<usize>)
        ensures
            match res {
                Some(i) => i == env_index(self.envs@, name@) && i < self.envs@.len(),
                None => env_index(self.envs@, name@) < 0,
            },
    {
        proof {
            lemma_env_index(self.envs@, name@);
        }
        let mut i: usize = 0;
        while i < self.envs.len()
            invariant
                i <= self.envs.len(),
                forall|k: int| 0 <= k < i ==> self.envs@[k].name@ != name@,
            decreases self.envs.len() - i,
        {
            if str_eq(self.envs[i].name.as_str(), name) {
                proof {
                    lemma_first_env(self.envs@, name@, i as int);
                }
                return Some(i);
            }
            i = i + 1;
        }
        None
    }

    /// Adds the environment `c`, whose name is new.
    pub fn add_env(&mut self, c: Context)
        requires
            old(self).wf(),
            old(self).env(c.name@) is None,
        ensures
            final(self).wf(),
            final(self).handles == old(self).handles,
            final(self).state_endpoint == old(self).state_endpoint,
            final(self).state_previous == old(self).state_previous,
            final(self).state_env == old(self).state_env,
            final(self).history == old(self).history,
            final(self).envs@ == old(self).envs@.push(c),
    {
        proof {
            lemma_env_index(self.envs@, c.name@);
        }
        let ghost before = self.envs@;
        self.envs.push(c);
        proof {
            let after = self.envs@;
            assert forall|i: int, j: int| 0 <= i < after.len() && 0 <= j < after.len() && i != j implies after[i].name@ != after[j].name@ by {
                if i < before.len() && j < before.len() {
                    assert(after[i] == before[i] && after[j] == before[j]);
                } else if i < before.len() {
                    assert(after[i] == before[i]);
                } else {
                    assert(after[j] == before[j]);
                }
            }
        }
    }

    /// Replaces the environment at `i` with `c`, of the same name.
    pub fn set_env(&mut self, i: usize, c: Context)
        requires
            old(self).wf(),
            i < old(self).envs@.len(),
            c.name@ == old(self).envs@[i as int].name@,
        ensures
            final(self).wf(),
            final(self).handles == old(self).handles,
            final(self).state_endpoint == old(self).state_endpoint,
            final(self).state_previous == old(self).state_previous,
            final(self).state_env == old(self).state_env,
            final(self).history == old(self).history,
            final(self).envs@ == old(self).envs@.update(i as int, c),
    {
        let ghost before = self.envs@;
        self.envs.set(i, c);
        proof {
            let after = self.envs@;
            assert forall|a: int, b: int| 0 <= a < after.len() && 0 <= b < after.len() && a != b implies after[a].name@ != after[b].name@ by {
                assert(after[a].name@ == before[a].name@ && after[b].name@ == before[b].name@);
            }
        }
    }

    /// Removes the environment at `i`.
    pub fn remove_env(&mut self, i: usize)
        requires
            old(self).wf(),
            i < old(self).envs@.len(),
        ensures
            final(self).wf(),
            final(self).handles == old(self).handles,
            final(self).state_endpoint == old(self).state_endpoint,
            final(self).state_previous == old(self).state_previous,
            final(self).state_env == old(self).state_env,
            final(self).history == old(self).history,
            final(self).envs@ == old(self).envs@.remove(i as int),
    {
        let ghost before = self.envs@;
        self.envs.remove(i);
        proof {
            let after = self.envs@;
            assert forall|a: int, b: int| 0 <= a < after.len() && 0 <= b < after.len() && a != b implies after[a].name@ != after[b].name@ by {
                let a2 = if a < i { a } else { a + 1 };
                let b2 = if b < i { b } else { b + 1 };
                assert(after[a] == before[a2] && after[b] == before[b2]);
            }
        }
    }

    /// Stores the environment `c`: in place of the one of its name, else as
    /// a new last one.
    pub fn put_env(&mut self, c: Context)
        requires
            old(self).wf(),
        ensures
            final(self).wf(),
            final(self).handles == old(self).handles,
            final(self).state_endpoint == old(self).state_endpoint,
            final(self).state_previous == old(self).state_previous,
            final(self).state_env == old(self).state_env,
            final(self).history == old(self).history,
            final(self).env(c.name@) == Some(c),
            forall|n: Seq<char>| n != c.name@ ==> #[trigger] final(self).env(n) == old(self).env(n),
            old(self).env(c.name@) is Some ==> final(self).envs@.len() == old(self).envs@.len(),
            old(self).env(c.name@) is None ==> final(self).envs@ == old(self).envs@.push(c),
    {
        let ghost before = self.envs@;
        let ghost name = c.name@;
        proof {
            lemma_env_index(before, name);
        }
        match self.find_env(c.name.as_str()) {
            Some(i) => {
                self.set_env(i, c);
                proof {
                    let after = self.envs@;
                    assert forall|k: int| 0 <= k < i implies after[k].name@ != name by {
                        assert(after[k] == before[k]);
                    }
                    lemma_first_env(after, name, i as int);
                    assert forall|n: Seq<char>| n != name implies #[trigger] self.env(n) == old(self).env(n) by {
                        lemma_env_index(before, n);
                        lemma_env_index(after, n);
                        let j = env_index(before, n);
                        if j >= 0 {
                            assert forall|k: int| 0 <= k < j implies after[k].name@ != n by {
                                assert(after[k].name@ == before[k].name@);
                            }
                            assert(after[j] == before[j]);
                            lemma_first_env(after, n, j);
                        } else {
                            assert forall|k: int| 0 <= k < after.len() implies after[k].name@ != n by {
                                assert(after[k].name@ == before[k].name@);
                            }
                        }
                    }
                }
            },
            None => {
                self.add_env(c);
                proof {
                    let after = self.envs@;
                    assert forall|k: int| 0 <= k < before.len() implies after[k].name@ != name by {
                        assert(after[k] == before[k]);
                    }
                    lemma_first_env(after, name, before.len() as int);
                    assert forall|n: Seq<char>| n != name implies #[trigger] self.env(n) == old(self).env(n) by {
                        lemma_env_index(before, n);
                        lemma_env_index(after, n);
                        let j = env_index(before, n);
                        if j >= 0 {
                            assert forall|k: int| 0 <= k < j implies after[k].name@ != n by {
                                assert(after[k] == before[k]);
                            }
                            assert(after[j] == before[j]);
                            lemma_first_env(after, n, j);
                        } else {
                            assert forall|k: int| 0 <= k < after.len() implies after[k].name@ != n by {
                                if k < before.len() {
                                    assert(after[k] == before[k]);
                                }
                            }
                        }
                    }
                }
            },
        }
    }

    /// Position of the entry with segments `p`.
    pub fn find(&self, p: &Vec<String>) -> (res: Option<usize>)
        ensures
            match res {
                Some(i) => i == handle_index(self.handles@, views(p@)) && i < self.handles@.len(),
                None => handle_index(self.handles@, views(p@)) < 0,
            },
    {
        proof {
            lemma_handle_index(self.handles@, views(p@));
        }
        let mut i: usize = 0;
        while i < self.handles.len()
            invariant
                i <= self.handles.len(),
                forall|k: int| 0 <= k < i ==> entry_path(self.handles@[k]) != views(p@),
            decreases self.handles.len() - i,
        {
            if path_eq(&self.handles[i].path, p) {
                proof {
                    lemma_first_index(self.handles@, views(p@), i as int);
                }
                return Some(i);
            }
            i = i + 1;
        }
        None
    }

    /// Whether `h` exists.
    pub fn contains_handle(&self, h: &EndpointHandle) -> (res: bool)
        ensures
            res == self.has(h.segments()),
    {
        self.find(&h.path).is_some()
    }

    /// Creates the handle with segments `p` and each of its non-empty
    /// prefixes that is missing, without endpoint or body.
    pub fn ensure(&mut self, p: &Vec<String>)
        requires
            old(self).wf(),
        ensures
            final(self).wf(),
            final(self).envs == old(self).envs,
            final(self).state_endpoint == old(self).state_endpoint,
            final(self).state_previous == old(self).state_previous,
            final(self).state_env == old(self).state_env,
            final(self).history == old(self).history,
            forall|q: Seq<Seq<char>>|
                old(self).has(q) ==> #[trigger] final(self).lookup(q) == old(self).lookup(q),
            forall|q: Seq<Seq<char>>|
                !old(self).has(q) ==> (#[trigger] final(self).has(q) <==> (q.len() >= 1
                    && is_prefix(q, views(p@)))),
            forall|q: Seq<Seq<char>>|
                !old(self).has(q) && #[trigger] final(self).has(q) ==> final(self).lookup(
                    q,
                )->0.endpoint is None && final(self).lookup(q)->0.body is None,
            final(self).store() == put_tree(old(self).store(), views(p@)),
    {
        let ghost start = self.handles@;
        let mut k: usize = 0;
        while k < p.len()
            invariant
                0 <= k <= p.len(),
                distinct_handles(self.handles@),
                distinct_envs(self.envs@),
                self.envs == old(self).envs,
                self.state_endpoint == old(self).state_endpoint,
                self.state_previous == old(self).state_previous,
                self.state_env == old(self).state_env,
                self.history == old(self).history,
                start == old(self).handles@,
                forall|q: Seq<Seq<char>>|
                    lookup_handle(start, q) is Some ==> #[trigger] lookup_handle(self.handles@, q)
                        == lookup_handle(start, q),
                forall|q: Seq<Seq<char>>|
                    lookup_handle(start, q) is None ==> (#[trigger] lookup_handle(
                        self.handles@,
                        q,
                    ) is Some <==> (1 <= q.len() <= k && is_prefix(q, views(p@)))),
                forall|q: Seq<Seq<char>>|
                    lookup_handle(start, q) is None && #[trigger] lookup_handle(
                        self.handles@,
                        q,
                    ) is Some ==> lookup_handle(self.handles@, q)->0.endpoint is None
                        && lookup_handle(self.handles@, q)->0.body is None,
            decreases p.len() - k,
        {
            let prefix = take_segments(p, k + 1);
            let ghost pv = views(prefix@);
            assert(pv =~= views(p@).take(k + 1));
            if self.find(&prefix).is_none() {
                let ghost before = self.handles@;
                let e = HandleEntry { path: prefix, endpoint: None, body: None };
                proof {
                    lemma_handle_index(before, pv);
                    lemma_distinct_push(before, e);
                }
                self.handles.push(e);
                proof {
                    assert forall|q: Seq<Seq<char>>| true implies #[trigger] lookup_handle(self.handles@, q)
                        == (if lookup_handle(before, q) is Some {
                        lookup_handle(before, q)
                    } else if pv == q {
                        Some(e)
                    } else {
                        None
                    }) by {
                        lemma_lookup_push(before, e, q);
                    }
                    assert forall|q: Seq<Seq<char>>|
                        lookup_handle(start, q) is None implies (#[trigger] lookup_handle(
                            self.handles@,
                            q,
                        ) is Some <==> (1 <= q.len() <= k + 1 && is_prefix(q, views(p@)))) by {
                        if q.len() == k + 1 && is_prefix(q, views(p@)) {
                            assert(q =~= pv);
                        }
                        if q == pv {
                            assert(is_prefix(q, views(p@)));
                        }
                    }
                }
            } else {
                proof {
                    lemma_handle_index(self.handles@, pv);
                    assert forall|q: Seq<Seq<char>>|
                        lookup_handle(start, q) is None implies (#[trigger] lookup_handle(
                            self.handles@,
                            q,
                        ) is Some <==> (1 <= q.len() <= k + 1 && is_prefix(q, views(p@)))) by {
                        if q.len() == k + 1 && is_prefix(q, views(p@)) {
                            assert(q =~= pv);
                        }
                    }
                }
            }
            k = k + 1;
        }
        proof {
            lemma_store_put_tree(*old(self), *self, views(p@));
        }
    }

    /// Sets the endpoint and body of the existing handle with segments `p`.
    pub fn set_entry(&mut self, p: &Vec<String>, endpoint: Option<Endpoint>, body: Option<String>)
        requires
            old(self).wf(),
            old(self).has(views(p@)),
        ensures
            final(self).wf(),
            final(self).envs == old(self).envs,
            final(self).state_endpoint == old(self).state_endpoint,
            final(self).state_previous == old(self).state_previous,
            final(self).state_env == old(self).state_env,
            final(self).history == old(self).history,
            final(self).lookup(views(p@)) matches Some(e) && e.endpoint == endpoint && e.body == body,
            forall|q: Seq<Seq<char>>|
                q != views(p@) ==> #[trigger] final(self).lookup(q) == old(self).lookup(q),
            forall|q: Seq<Seq<char>>| #[trigger] final(self).has(q) == old(self).has(q),
            final(self).store() == put_entry(
                old(self).store(),
                views(p@),
                match endpoint {
                    Some(e) => Some(endpoint_view(e)),
                    None => None,
                },
                match body {
                    Some(b) => Some(b@),
                    None => None,
                },
            ),
    {
        let i = self.find(p).unwrap();
        proof {
            lemma_handle_index(self.handles@, views(p@));
        }
        let ghost before = self.handles@;
        let mut handles: Vec<HandleEntry> = Vec::new();
        std::mem::swap(&mut handles, &mut self.handles);
        let old_entry = handles.remove(i);
        let e = HandleEntry { path: old_entry.path, endpoint, body };
        handles.insert(i, e);
        self.handles = handles;
        proof {
            let after = self.handles@;
            assert(after =~= before.update(i as int, e));
            assert(entry_path(e) == entry_path(before[i as int]));
            assert(distinct_handles(after)) by {
                assert forall|a: int, b: int|
                    0 <= a < after.len() && 0 <= b < after.len() && a != b implies entry_path(
                    after[a],
                ) != entry_path(after[b]) by {
                    assert(entry_path(after[a]) == entry_path(before[a]));
                    assert(entry_path(after[b]) == entry_path(before[b]));
                }
            }
            lemma_handle_index(after, views(p@));
            assert(after[i as int] == e);
            assert(handle_index(after, views(p@)) == i);
            assert forall|q: Seq<Seq<char>>| true implies #[trigger] lookup_handle(after, q) == (if q
                == views(p@) {
                Some(e)
            } else {
                lookup_handle(before, q)
            }) by {
                lemma_handle_index(after, q);
                lemma_handle_index(before, q);
                let j = handle_index(before, q);
                if q != views(p@) {
                    if j >= 0 {
                        assert(after[j] == before[j]);
                    } else {
                        assert forall|k: int| 0 <= k < after.len() implies entry_path(after[k]) != q by {
                            assert(entry_path(after[k]) == entry_path(before[k]));
                        }
                    }
                }
            }
            assert(self.store() =~= put_entry(
                old(self).store(),
                views(p@),
                match endpoint {
                    Some(e) => Some(endpoint_view(e)),
                    None => None,
                },
                match body {
                    Some(b) => Some(b@),
                    None => None,
                },
            ));
        }
    }

    /// Removes the handle with segments `p` and every handle under it.
    pub fn remove_tree(&mut self, p: &Vec<String>)
        requires
            old(self).wf(),
        ensures
            final(self).wf(),
            final(self).envs == old(self).envs,
            final(self).state_endpoint == old(self).state_endpoint,
            final(self).state_previous == old(self).state_previous,
            final(self).state_env == old(self).state_env,
            final(self).history == old(self).history,
            forall|q: Seq<Seq<char>>| #[trigger]
                final(self).lookup(q) == (if is_prefix(views(p@), q) {
                    None
                } else {
                    old(self).lookup(q)
                }),
            final(self).store() == cut_tree(old(self).store(), views(p@)),
            final(self).handles@ == without_tree(old(self).handles@, views(p@)),
    {
        let mut handles: Vec<HandleEntry> = Vec::new();
        std::mem::swap(&mut handles, &mut self.handles);
        let ghost all = handles@;
        let ghost pv = views(p@);
        let mut kept: Vec<HandleEntry> = Vec::new();
        let ghost mut c: int = 0;
        while handles.len() > 0
            invariant
                0 <= c <= all.len(),
                handles@ == all.skip(c),
                distinct_handles(all),
                distinct_handles(kept@),
                pv == views(p@),
                kept@ == without_tree(all.take(c), pv),
                forall|q: Seq<Seq<char>>| #[trigger]
                    lookup_handle(kept@, q) == (if is_prefix(pv, q) {
                        None
                    } else {
                        lookup_handle(all.take(c), q)
                    }),
            decreases handles.len(),
        {
            let ghost before = kept@;
            assert(all.skip(c)[0] == all[c]);
            let e = handles.remove(0);
            assert(handles@ =~= all.skip(c + 1));
            proof {
                assert(all.take(c + 1) =~= all.take(c).push(e));
                assert(all.take(c + 1).drop_last() =~= all.take(c));
                lemma_handle_index(all.take(c), entry_path(e));
                assert(lookup_handle(all.take(c), entry_path(e)) is None) by {
                    assert forall|k: int| 0 <= k < all.take(c).len() implies entry_path(all.take(c)[k])
                        != entry_path(e) by {
                        assert(all.take(c)[k] == all[k]);
                    }
                }
            }
            if !has_prefix(&e.path, p) {
                proof {
                    lemma_distinct_push(before, e);
                }
                kept.push(e);
                proof {
                    assert forall|q: Seq<Seq<char>>| true implies #[trigger] lookup_handle(kept@, q) == (
                    if is_prefix(pv, q) {
                        None
                    } else {
                        lookup_handle(all.take(c + 1), q)
                    }) by {
                        lemma_lookup_push(before, e, q);
                        lemma_lookup_push(all.take(c), e, q);
                    }
                }
            } else {
                proof {
                    assert forall|q: Seq<Seq<char>>| true implies #[trigger] lookup_handle(kept@, q) == (
                    if is_prefix(pv, q) {
                        None
                    } else {
                        lookup_handle(all.take(c + 1), q)
                    }) by {
                        lemma_lookup_push(all.take(c), e, q);
                    }
                }
            }
            proof {
                c = c + 1;
            }
        }
        proof {
            assert(all.take(c) =~= all);
        }
        self.handles = kept;
        proof {
            assert(self.store() =~= cut_tree(old(self).store(), views(p@)));
        }
    }
}

/// The first `k` segments of `p`.
pub fn take_segments(p: &Vec<String>, k: usize) -> (res: Vec<String>)
    requires
        k <= p.len(),
    ensures
        views(res@) == views(p@).take(k as int),
{
    let mut res: Vec<String> = Vec::new();
    let mut i: usize = 0;
    while i < k
        invariant
            i <= k <= p.len(),
            views(res@) == views(p@).take(i as int),
        decreases k - i,
    {
        let ghost before = views(res@);
        res.push(p[i].clone());
        assert(views(res@) =~= before.push(p@[i as int]@));
        assert(views(p@).take(i + 1) =~= views(p@).take(i as int).push(p@[i as int]@));
        i = i + 1;
    }
    res
}

/// Whether two segment lists are equal.
pub fn path_eq(a: &Vec<String>, b: &Vec<String>) -> (res: bool)
    ensures
        res == (views(a@) == views(b@)),
{
    if a.len() != b.len() {
        assert(views(a@).len() != views(b@).len());
        return false;
    }
    let mut i: usize = 0;
    while i < a.len()
        invariant
            i <= a.len() == b.len(),
            forall|k: int| 0 <= k < i ==> views(a@)[k] == views(b@)[k],
        decreases a.len() - i,
    {
        if !str_eq(a[i].as_str(), b[i].as_str()) {
            assert(views(a@)[i as int] != views(b@)[i as int]);
            return false;
        }
        i = i + 1;
    }
    assert(views(a@) =~= views(b@));
    true
}

/// Whether `p` begins `a`.
pub fn has_prefix(a: &Vec<String>, p: &Vec<String>) -> (res: bool)
    ensures
        res == is_prefix(views(p@), views(a@)),
{
    if p.len() > a.len() {
        return false;
    }
    let mut i: usize = 0;
    while i < p.len()
        invariant
            i <= p.len() <= a.len(),
            forall|k: int| 0 <= k < i ==> views(a@)[k] == views(p@)[k],
        decreases p.len() - i,
    {
        if !str_eq(a[i].as_str(), p[i].as_str()) {
            assert(views(a@).take(p.len() as int)[i as int] != views(p@)[i as int]);
            return false;
        }
        i = i + 1;
    }
    assert(views(a@).take(p.len() as int) =~= views(p@));
    true
}

} // verus!
