//! Properties that hold across the operations of the library.
use vstd::prelude::*;

use crate::action::copy::{copy_step, cut_all, moved};
use crate::action::handle::rm_run;
use crate::action::pairs::{all_pairs, fold_pairs};
use crate::action::{
    config, env, env_variables, handle, header, in_use, new_endpoint, query, same_but_headers, same_but_query, stored_endpoint, var,
};
use crate::context::{fold_lines, pairs_text, variable_lines, well_formed_variables, Context, Variables};
use crate::strmap::{as_map, distinct_keys, lookup};
use crate::history::newer_first;
use crate::snippet::{curl_headers, curl_text, option_text, CurlOption};
use crate::cookie::{
    domain_segments, apply_attr, apply_attrs, attr_pair, parse_entries, parse_entry, parse_set_cookie, AttrState, bool_text, canonical, collapse_dots, cookie_line, domain_matches, jar_text, read_jar, distinct_cookies, has_key, lemma_without_key, path_text, put, same_key,
    spec_parse_cookie, split_n, without_key, CookieView,
};
use crate::endpoint::{handle_dir, patch_well_formed, same_endpoint, Endpoint, Headers, Query};
use crate::project::{
    entry_path, env_index, is_prefix, lemma_env_index, lemma_first_env, lookup_handle, without_tree, EndpointView,
    EntryView, HandleEntry,
};
use crate::text::{non_empty, trim_char, join_with, lines_of, starts_with, strip_cr, views, is_ws, lower_ascii, lower_char, trim_end_by, trim_start_by, trim_ws, idx_of, int_text, lemma_idx_of, lemma_parse_int_text, parse_int, split_on, split_once_char};
use crate::cli::Cmd;
use crate::{spec_eq_pair, Ctx, PairMap, QuartzResult};

verus! {

/// Putting a cookie in a jar keeps one cookie per domain and name: the new
/// one, last, replaces the cookie of its domain and name, and every other
/// cookie stays.
pub proof fn law_put_overwrites(s: Seq<CookieView>, c: CookieView)
    requires
        distinct_cookies(s),
    ensures
        distinct_cookies(put(s, c)),
        put(s, c).last() == c,
        forall|i: int| 0 <= i < put(s, c).len() - 1 ==> !same_key(#[trigger] put(s, c)[i], c),
        forall|i: int| 0 <= i < s.len() && !same_key(s[i], c) ==> put(s, c).contains(#[trigger] s[i]),
{
    lemma_without_key(s, c);
    let w = without_key(s, c);
    assert forall|i: int| 0 <= i < put(s, c).len() - 1 implies !same_key(#[trigger] put(s, c)[i], c) by {
        assert(put(s, c)[i] == w[i]);
    }
    assert forall|i: int| 0 <= i < s.len() && !same_key(s[i], c) implies put(s, c).contains(#[trigger] s[i]) by {
        let k = choose|k: int| 0 <= k < w.len() && w[k] == s[i];
        assert(put(s, c)[k] == s[i]);
    }
    assert forall|i: int, j: int|
        0 <= i < put(s, c).len() && 0 <= j < put(s, c).len() && i != j implies !same_key(
        put(s, c)[i],
        put(s, c)[j],
    ) by {
        if i < w.len() && j < w.len() {
            assert(put(s, c)[i] == w[i] && put(s, c)[j] == w[j]);
        } else if i < w.len() {
            assert(put(s, c)[i] == w[i]);
            assert(!same_key(w[i], c));
        } else {
            assert(put(s, c)[j] == w[j]);
            assert(!same_key(w[j], c));
        }
    }
}

/// Splitting at the first `c` of `a`, `c`, `b` gives `a` and `b` when `a`
/// has no `c`.
proof fn lemma_split_once_at(a: Seq<char>, b: Seq<char>, c: char)
    requires
        !a.contains(c),
    ensures
        split_once_char(a + seq![c] + b, c) == Some((a, b)),
{
    let s = a + seq![c] + b;
    assert forall|j: int| 0 <= j < a.len() implies s[j] != c by {
        assert(s[j] == a[j]);
    }
    lemma_idx_of(s, c, a.len() as int);
    assert(s.take(a.len() as int) =~= a);
    assert(s.skip(a.len() as int + 1) =~= b);
}

/// One step of `split_n` over a first piece without the separator.
proof fn lemma_split_n_step(a: Seq<char>, b: Seq<char>, n: nat)
    requires
        !a.contains('\t'),
        n >= 2,
    ensures
        split_n(a + seq!['\t'] + b, '\t', n) == seq![a] + split_n(b, '\t', (n - 1) as nat),
{
    lemma_split_once_at(a, b, '\t');
}

/// The text of an integer has no tab.
proof fn lemma_int_text_no_tab(n: int)
    ensures
        !int_text(n).contains('\t'),
{
    lemma_int_chars(n);
}

/// The text of an integer is made of digits and `-`.
proof fn lemma_int_chars(n: int)
    ensures
        forall|i: int| 0 <= i < int_text(n).len() ==> (#[trigger] int_text(n)[i] == '-' || ('0' <= int_text(n)[i] <= '9')),
{
    lemma_dec_chars(if n < 0 {
        (-n) as nat
    } else {
        n as nat
    });
    if n < 0 {
        let d = crate::text::dec((-n) as nat);
        assert forall|i: int| 0 <= i < int_text(n).len() implies (#[trigger] int_text(n)[i] == '-' || ('0'
            <= int_text(n)[i] <= '9')) by {
            if i > 0 {
                assert(int_text(n)[i] == d[i - 1]);
            }
        }
    }
}

/// The decimal text of a number is made of digits.
proof fn lemma_dec_chars(n: nat)
    ensures
        forall|i: int| 0 <= i < crate::text::dec(n).len() ==> '0' <= #[trigger] crate::text::dec(n)[i] <= '9',
    decreases n,
{
    if n >= 10 {
        lemma_dec_chars(n / 10);
        let d = crate::text::dec(n);
        let r = crate::text::dec(n / 10);
        assert forall|i: int| 0 <= i < d.len() implies '0' <= #[trigger] d[i] <= '9' by {
            if i < r.len() {
                assert(d[i] == r[i]);
            }
        }
    }
}

/// A cookie written as a cookie file line reads back as itself, when its
/// domain is in standard form, neither its domain, name nor path holds a
/// tab, and its path reads back as itself.
#[verifier::rlimit(60)]
pub proof fn law_cookie_line_round_trip(c: CookieView)
    requires
        canonical(c.domain) == c.domain,
        !c.domain.contains('\t'),
        !c.name.contains('\t'),
        !path_text(c.path).contains('\t'),
        crate::cookie::path_attr_of(path_text(c.path)) == c.path,
    ensures
        spec_parse_cookie(cookie_line(c)) == Some(c),
{
    let t = seq!['\t'];
    let e = int_text(c.expires_at as int);
    lemma_int_text_no_tab(c.expires_at as int);
    lemma_parse_int_text(c.expires_at);
    let s1 = bool_text(c.subdomains);
    let s2 = bool_text(c.secure);
    assert(!s1.contains('\t'));
    assert(!s2.contains('\t'));
    let p = path_text(c.path);
    let r6 = c.name + t + c.value;
    let r5 = e + t + r6;
    let r4 = s2 + t + r5;
    let r3 = p + t + r4;
    let r2 = s1 + t + r3;
    let line = c.domain + t + r2;
    assert(cookie_line(c) =~= line);
    lemma_split_n_step(c.domain, r2, 7);
    lemma_split_n_step(s1, r3, 6);
    lemma_split_n_step(p, r4, 5);
    lemma_split_n_step(s2, r5, 4);
    lemma_split_n_step(e, r6, 3);
    lemma_split_n_step(c.name, c.value, 2);
    assert(split_n(c.value, '\t', 1) == seq![c.value]);
    assert(split_n(r6, '\t', 2) =~= seq![c.name, c.value]);
    assert(split_n(r5, '\t', 3) =~= seq![e, c.name, c.value]);
    assert(split_n(r4, '\t', 4) =~= seq![s2, e, c.name, c.value]);
    assert(split_n(r3, '\t', 5) =~= seq![p, s2, e, c.name, c.value]);
    assert(split_n(r2, '\t', 6) =~= seq![s1, p, s2, e, c.name, c.value]);
    let ps = split_n(line, '\t', 7);
    assert(ps =~= seq![c.domain, s1, p, s2, e, c.name, c.value]);
    assert(c.subdomains == (s1 == seq!['T', 'R', 'U', 'E']));
    assert(c.secure == (s2 == seq!['T', 'R', 'U', 'E']));
}

/// Setting a `key=value` variable and reading the key gives the value.
pub proof fn law_set_then_get(m: Map<Seq<char>, Seq<char>>, input: Seq<char>)
    requires
        spec_eq_pair(input) is Some,
    ensures
        fold_pairs::<Variables>(m, seq![input]).contains_key((spec_eq_pair(input)->0).0),
        fold_pairs::<Variables>(m, seq![input])[(spec_eq_pair(input)->0).0] == (spec_eq_pair(input)->0).1,
{
    assert(seq![input].drop_last() =~= Seq::<Seq<char>>::empty());
}

/// The entries left after removing `p` lie outside `p`.
proof fn lemma_without_tree(hs: Seq<HandleEntry>, p: Seq<Seq<char>>)
    ensures
        forall|i: int| 0 <= i < without_tree(hs, p).len() ==> !is_prefix(p, entry_path(#[trigger] without_tree(hs, p)[i])),
    decreases hs.len(),
{
    if hs.len() > 0 {
        lemma_without_tree(hs.drop_last(), p);
        let r = without_tree(hs.drop_last(), p);
        if !is_prefix(p, entry_path(hs.last())) {
            assert forall|i: int| 0 <= i < r.push(hs.last()).len() implies !is_prefix(
                p,
                entry_path(#[trigger] r.push(hs.last())[i]),
            ) by {
                if i < r.len() {
                    assert(r.push(hs.last())[i] == r[i]);
                }
            }
        }
    }
}

/// A recursive `rm` of an existing handle deletes it and every handle under
/// it.
pub proof fn law_rm_removes_subtree(hs: Seq<HandleEntry>, name: Seq<char>)
    requires
        lookup_handle(hs, split_on(name, '/')) is Some,
    ensures
        forall|i: int|
            0 <= i < rm_run(hs, seq![name], true).0.len() ==> !is_prefix(
                split_on(name, '/'),
                entry_path(#[trigger] rm_run(hs, seq![name], true).0[i]),
            ),
{
    assert(seq![name].drop_last() =~= Seq::<Seq<char>>::empty());
    assert(seq![name].last() == name);
    let st = rm_run(hs, Seq::<Seq<char>>::empty(), true);
    assert(st.0 == hs);
    assert(rm_run(hs, seq![name], true) == crate::action::handle::rm_one(st, name, true));
    assert(rm_run(hs, seq![name], true).0 == without_tree(hs, split_on(name, '/')));
    lemma_without_tree(hs, split_on(name, '/'));
}

/// Copying an endpoint to a handle overwrites the handle's endpoint with it,
/// moved to the handle's directory, and keeps the handle's body.
pub proof fn law_copy_overwrites(
    s: spec_fn(Seq<Seq<char>>) -> Option<EntryView>,
    root: Seq<char>,
    t: Seq<Seq<char>>,
    v: EndpointView,
)
    requires
        t.len() >= 1,
    ensures
        copy_step(s, root, t, Some(v))(t) == Some(
            EntryView {
                endpoint: Some(moved(v, handle_dir(root, t))),
                body: match s(t) {
                    Some(e) => e.body,
                    None => None,
                },
            },
        ),
{
    assert(is_prefix(t, t)) by {
        assert(t.take(t.len() as int) =~= t);
    }
}

/// After a move, no handle is left under a source.
pub proof fn law_moved_sources_gone(
    s: spec_fn(Seq<Seq<char>>) -> Option<EntryView>,
    srcs: Seq<Seq<char>>,
    k: int,
    q: Seq<Seq<char>>,
)
    requires
        0 <= k < srcs.len(),
        is_prefix(split_on(srcs[k], '/'), q),
    ensures
        cut_all(s, srcs)(q) is None,
    decreases srcs.len(),
{
    if k < srcs.len() - 1 {
        assert(srcs.drop_last()[k] == srcs[k]);
        law_moved_sources_gone(s, srcs.drop_last(), k, q);
    }
}

/// An environment created under a new name is found under that name.
pub proof fn law_env_create_found(es: Seq<Context>, c: Context)
    requires
        env_index(es, c.name@) < 0,
    ensures
        env_index(es.push(c), c.name@) == es.len(),
{
    lemma_env_index(es, c.name@);
    let after = es.push(c);
    assert forall|k: int| 0 <= k < es.len() implies after[k].name@ != c.name@ by {
        assert(after[k] == es[k]);
    }
    lemma_first_env(after, c.name@, es.len() as int);
}

/// Trimming the start keeps a suffix that starts with a character that is
/// not trimmed.
proof fn lemma_trimmed_start(s: Seq<char>, f: spec_fn(char) -> bool) -> (k: int)
    ensures
        0 <= k <= s.len(),
        trim_start_by(s, f) == s.subrange(k, s.len() as int),
        k < s.len() ==> !f(s[k]),
    decreases s.len(),
{
    if s.len() > 0 && f(s[0]) {
        let k = lemma_trimmed_start(s.drop_first(), f);
        assert(s.drop_first().subrange(k, s.len() - 1) =~= s.subrange(k + 1, s.len() as int));
        k + 1
    } else {
        assert(s.subrange(0, s.len() as int) =~= s);
        0
    }
}

/// Trimming the end keeps a prefix that ends with a character that is not
/// trimmed.
proof fn lemma_trimmed_end(s: Seq<char>, f: spec_fn(char) -> bool) -> (k: int)
    ensures
        0 <= k <= s.len(),
        trim_end_by(s, f) == s.subrange(0, k),
        k > 0 ==> !f(s[k - 1]),
    decreases s.len(),
{
    if s.len() > 0 && f(s.last()) {
        let k = lemma_trimmed_end(s.drop_last(), f);
        assert(s.drop_last().subrange(0, k) =~= s.subrange(0, k));
        k
    } else {
        assert(s.subrange(0, s.len() as int) =~= s);
        s.len() as int
    }
}

/// No two dots follow each other.
spec fn single_dots(s: Seq<char>) -> bool {
    forall|i: int| 0 <= i < s.len() - 1 ==> !(#[trigger] s[i] == '.' && s[i + 1] == '.')
}

/// Collapsing dots keeps characters of the text, its first and last
/// character, and leaves no two dots together.
proof fn lemma_collapse(s: Seq<char>)
    ensures
        collapse_dots(s).len() <= s.len(),
        forall|i: int| 0 <= i < collapse_dots(s).len() ==> s.contains(#[trigger] collapse_dots(s)[i]),
        s.len() > 0 ==> collapse_dots(s).len() > 0 && collapse_dots(s)[0] == s[0] && collapse_dots(s).last()
            == s.last(),
        single_dots(collapse_dots(s)),
    decreases s.len(),
{
    if s.len() > 0 {
        let d = s.drop_last();
        lemma_collapse(d);
        let r = collapse_dots(d);
        let c = collapse_dots(s);
        assert forall|i: int| 0 <= i < c.len() implies s.contains(#[trigger] c[i]) by {
            if i < r.len() {
                assert(r[i] == c[i]);
                assert(d.contains(r[i]));
                let j = choose|j: int| 0 <= j < d.len() && d[j] == r[i];
                assert(s[j] == d[j]);
            } else {
                assert(c[i] == s[s.len() - 1]);
            }
        }
        if d.len() == 0 {
            assert(r.len() == 0);
        }
    }
}

/// A text with no two dots together is its own collapse.
proof fn lemma_collapse_fixed(s: Seq<char>)
    requires
        single_dots(s),
    ensures
        collapse_dots(s) == s,
    decreases s.len(),
{
    if s.len() > 0 {
        let d = s.drop_last();
        assert(single_dots(d)) by {
            assert forall|i: int| 0 <= i < d.len() - 1 implies !(#[trigger] d[i] == '.' && d[i + 1] == '.') by {
                assert(s[i] == d[i] && s[i + 1] == d[i + 1]);
            }
        }
        lemma_collapse_fixed(d);
        if d.len() > 0 {
            assert(s[d.len() - 1] == d.last());
        }
        assert(d.push(s.last()) =~= s);
    }
}

/// Lower-casing a lower-cased character changes nothing.
proof fn lemma_lower_char_twice(c: char)
    ensures
        lower_char(lower_char(c)) == lower_char(c),
{
}

/// Putting a domain name in standard form twice gives the same as once: a
/// domain is its own standard form.
pub proof fn law_canonical_idempotent(v: Seq<char>)
    ensures
        canonical(canonical(v)) == canonical(v),
{
    let f = |c: char| is_ws(c);
    let l = lower_ascii(v);
    let a = lemma_trimmed_start(l, f);
    let st = l.subrange(a, l.len() as int);
    let b = lemma_trimmed_end(st, f);
    let t = st.subrange(0, b);
    assert(t == trim_ws(l));
    assert(t =~= l.subrange(a, a + b));
    let c = collapse_dots(t);
    lemma_collapse(t);
    assert forall|i: int| 0 <= i < c.len() implies lower_char(c[i]) == c[i] by {
        assert(t.contains(c[i]));
        let j = choose|j: int| 0 <= j < t.len() && t[j] == c[i];
        assert(t[j] == l[a + j]);
        lemma_lower_char_twice(v[a + j]);
    }
    assert(lower_ascii(c) =~= c);
    if c.len() > 0 {
        assert(t.len() > 0);
        assert(!f(t[0])) by {
            assert(t[0] == st[0]);
        }
        assert(!f(t.last())) by {
            assert(t.last() == st[b - 1]);
        }
        assert(!f(c[0]) && !f(c.last()));
        lemma_trimmed_start(c, f);
        lemma_trimmed_end(c, f);
        assert(trim_start_by(c, f) == c) by {
            assert(c.subrange(0, c.len() as int) =~= c);
        }
        assert(trim_end_by(c, f) == c) by {
            assert(c.subrange(0, c.len() as int) =~= c);
        }
    }
    assert(trim_ws(c) == c);
    lemma_collapse_fixed(c);
}

/// Whether one domain can set cookies for another does not depend on which
/// of the two is named first.
pub proof fn law_domain_match_symmetric(a: Seq<char>, b: Seq<char>)
    ensures
        domain_matches(canonical(a), b) == domain_matches(canonical(b), a),
{
}

/// A refused command leaves the context as it was: the project, the
/// settings, the output and the exit status.
pub proof fn law_refused_leaves_context(before: &Ctx, after: &Ctx, command: Cmd, res: QuartzResult<Option<Cmd>>)
    requires
        crate::action::ran(before, after, command, res),
        res is Err,
    ensures
        *after == *before,
{
}

/// Setting a variable and then reading it prints the value set.
pub proof fn law_var_set_then_get(
    c0: &Ctx,
    c1: &Ctx,
    c2: &Ctx,
    set: var::SetArgs,
    r1: QuartzResult,
    get: var::GetArgs,
    r2: QuartzResult,
)
    requires
        var::was_set(c0, c1, set, r1),
        set.variables@.len() == 1,
        spec_eq_pair(set.variables@[0]@) is Some,
        get.key@ == (spec_eq_pair(set.variables@[0]@)->0).0,
        var::got(c1, c2, get, r2),
    ensures
        r1 is Ok,
        r2 is Ok,
        c2.stdout@ == c1.stdout@ + (spec_eq_pair(set.variables@[0]@)->0).1 + seq!['\n'],
{
    let input = set.variables@[0]@;
    assert(views(set.variables@) =~= seq![input]);
    assert(all_pairs::<Variables>(seq![input])) by {
        assert forall|i: int| 0 <= i < seq![input].len() implies #[trigger] Variables::spec_pair(seq![input][i]) is Some by {
            assert(seq![input][i] == input);
        }
    }
    law_set_then_get(env_variables(c0), input);
}

/// An environment just created can be switched to, and is then the one in
/// use.
pub proof fn law_env_create_then_use(
    c0: &Ctx,
    c1: &Ctx,
    c2: &Ctx,
    create: env::CreateArgs,
    r1: QuartzResult,
    switch: env::SwitchArgs,
    r2: QuartzResult,
)
    requires
        env::created(c0, c1, create, r1),
        r1 is Ok,
        switch.env@ == create.name@,
        env::switched(c1, c2, switch, r2),
    ensures
        r2 is Ok,
        c2.project.state_env matches Some(s) && s@ == create.name@,
{
    let es = c0.project.envs@;
    let name = create.name@;
    lemma_env_index(es, name);
    assert(c1.project.envs@ =~= es.push(c1.project.envs@.last()));
    law_env_create_found(es, c1.project.envs@.last());
}

/// A handle just created can be switched to, and is then the one in use.
pub proof fn law_handle_create_then_use(
    c0: &Ctx,
    c1: &Ctx,
    c2: &Ctx,
    create: handle::CreateArgs,
    r1: QuartzResult,
    switch: handle::SwitchArgs,
    r2: QuartzResult,
)
    requires
        handle::created(c0, c1, create, r1),
        r1 is Ok,
        switch.handle matches Some(h) && h@ == create.handle@,
        patch_well_formed(&switch.config),
        handle::switched(c1, c2, switch, r2),
    ensures
        r2 is Ok,
        c2.project.state_endpoint matches Some(s) && s@ == create.handle@,
{
}

/// A cookie that a cookie file keeps: its line reads back as itself (see
/// `law_cookie_line_round_trip`), holds no line feed, does not start with
/// `#` and does not end with a carriage return.
pub open spec fn kept_in_file(c: CookieView) -> bool {
    &&& canonical(c.domain) == c.domain
    &&& !c.domain.contains('\t')
    &&& !c.name.contains('\t')
    &&& !path_text(c.path).contains('\t')
    &&& crate::cookie::path_attr_of(path_text(c.path)) == c.path
    &&& !cookie_line(c).contains('\n')
    &&& !starts_with(cookie_line(c), seq!['#'])
    &&& cookie_line(c).last() != '\r'
}

/// The lines of a cookie file for `s`.
spec fn jar_lines(s: Seq<CookieView>) -> Seq<Seq<char>> {
    s.map_values(|c: CookieView| cookie_line(c))
}

/// A cookie file is its lines, each followed by a line feed.
proof fn lemma_jar_text_join(s: Seq<CookieView>)
    ensures
        jar_text(s) == join_with(jar_lines(s).push(Seq::empty()), seq!['\n']),
    decreases s.len(),
{
    let e = Seq::<char>::empty();
    if s.len() > 0 {
        let d = s.drop_last();
        lemma_jar_text_join(d);
        assert(jar_lines(s) =~= jar_lines(d).push(cookie_line(s.last())));
        assert(jar_lines(s).push(e).drop_last() =~= jar_lines(s));
        assert(jar_lines(d).push(e).drop_last() =~= jar_lines(d));
        let l = cookie_line(s.last());
        let nl = seq!['\n'];
        assert(join_with(jar_lines(s).push(e), nl) == join_with(jar_lines(s), nl) + nl + e);
        if d.len() > 0 {
            assert(jar_lines(s).drop_last() =~= jar_lines(d));
            assert(jar_lines(s).last() == l);
            assert(join_with(jar_lines(s), nl) == join_with(jar_lines(d), nl) + nl + l);
            assert(join_with(jar_lines(d).push(e), nl) == join_with(jar_lines(d), nl) + nl + e);
            assert(jar_text(d) =~= join_with(jar_lines(d), nl) + nl);
        } else {
            assert(jar_text(d) =~= e);
            assert(jar_lines(s) =~= seq![l]);
            assert(join_with(jar_lines(s), nl) == l);
        }
        assert(jar_text(s) == jar_text(d) + l + nl);
        assert(jar_text(s) =~= join_with(jar_lines(s).push(e), nl));
    } else {
        assert(jar_lines(s).push(e) =~= seq![e]);
    }
}

/// Reading the lines of a cookie file for distinct kept cookies gives them
/// back.
proof fn lemma_read_jar_lines(s: Seq<CookieView>)
    requires
        distinct_cookies(s),
        forall|i: int| 0 <= i < s.len() ==> kept_in_file(#[trigger] s[i]),
    ensures
        read_jar(Seq::empty(), jar_lines(s)) == s,
    decreases s.len(),
{
    if s.len() > 0 {
        let d = s.drop_last();
        let c = s.last();
        assert(distinct_cookies(d)) by {
            assert forall|i: int, j: int| 0 <= i < d.len() && 0 <= j < d.len() && i != j implies !same_key(
                d[i],
                d[j],
            ) by {
                assert(d[i] == s[i] && d[j] == s[j]);
            }
        }
        assert forall|i: int| 0 <= i < d.len() implies kept_in_file(#[trigger] d[i]) by {
            assert(d[i] == s[i]);
        }
        lemma_read_jar_lines(d);
        assert(jar_lines(s).drop_last() =~= jar_lines(d));
        assert(kept_in_file(s[s.len() - 1]));
        law_cookie_line_round_trip(c);
        assert(cookie_line(c).len() > 0);
        assert(!has_key(d, c)) by {
            if has_key(d, c) {
                let i = choose|i: int| 0 <= i < d.len() && same_key(d[i], c);
                assert(d[i] == s[i]);
                assert(!same_key(s[i], s[s.len() - 1]));
            }
        }
        assert(d.push(c) =~= s);
    } else {
        assert(jar_lines(s) =~= Seq::<Seq<char>>::empty());
    }
}

/// A cookie jar written to its file reads back as the same jar, when no two
/// of its cookies share a domain and a name and the file keeps each cookie.
pub proof fn law_jar_file_round_trip(s: Seq<CookieView>)
    requires
        distinct_cookies(s),
        forall|i: int| 0 <= i < s.len() ==> kept_in_file(#[trigger] s[i]),
    ensures
        read_jar(Seq::empty(), lines_of(jar_text(s))) == s,
{
    let nl = seq!['\n'];
    let e = Seq::<char>::empty();
    let ps = jar_lines(s).push(e);
    lemma_jar_text_join(s);
    assert forall|k: int| 0 <= k < ps.len() implies !(#[trigger] ps[k]).contains('\n') by {
        if k < s.len() {
            assert(ps[k] == cookie_line(s[k]));
            assert(kept_in_file(s[k]));
        } else {
            assert(ps[k] =~= e);
        }
    }
    crate::text::lemma_split_join(ps, '\n');
    assert(split_on(jar_text(s), '\n') == ps);
    if s.len() == 0 {
        assert(jar_text(s) =~= e);
        assert(lines_of(jar_text(s)) =~= Seq::<Seq<char>>::empty());
    } else {
        assert(jar_text(s).len() > 0) by {
            assert(jar_text(s) =~= jar_text(s.drop_last()) + cookie_line(s.last()) + nl);
        }
        assert(ps.drop_last() =~= jar_lines(s));
        assert forall|k: int| 0 <= k < jar_lines(s).len() implies strip_cr(#[trigger] jar_lines(s)[k])
            == jar_lines(s)[k] by {
            assert(kept_in_file(s[k]));
        }
        assert(lines_of(jar_text(s)) =~= jar_lines(s));
    }
    lemma_read_jar_lines(s);
}

/// Setting a query parameter of the endpoint in use and then reading it
/// prints the value set, when the environment is not applied early (its
/// variables could otherwise change the value read).
pub proof fn law_query_set_then_get(
    c0: &Ctx,
    c1: &Ctx,
    c2: &Ctx,
    queries: Vec<String>,
    r1: QuartzResult,
    key: String,
    r2: QuartzResult,
)
    requires
        query::was_set(c0, c1, queries, r1),
        r1 is Ok,
        queries@.len() == 1,
        spec_eq_pair(queries@[0]@) is Some,
        key@ == (spec_eq_pair(queries@[0]@)->0).0,
        !c0.args.early_apply_environment,
        query::got(c1, c2, key, r2),
    ensures
        r2 is Ok,
        c2.stdout@ == c1.stdout@ + (spec_eq_pair(queries@[0]@)->0).1 + seq!['\n'],
{
    let input = queries@[0]@;
    let (k, v) = spec_eq_pair(input)->0;
    assert(views(queries@) =~= seq![input]);
    let r = choose|r: Endpoint|
        in_use(c0, r) && same_but_query(new_endpoint(c0, c1), r) && new_endpoint(c0, c1).query.0.map()
            == fold_pairs::<Query>(r.query.0.map(), views(queries@));
    assert(seq![input].drop_last() =~= Seq::<Seq<char>>::empty());
    let stored = new_endpoint(c0, c1);
    assert(stored.query.0.map().contains_key(k) && stored.query.0.map()[k] == v);
    assert(stored_endpoint(c1) == Some(stored));
    assert forall|r2e: Endpoint| in_use(c1, r2e) implies r2e.query.0.map() == stored.query.0.map() by {
        assert(same_endpoint(r2e, stored));
    }
}

/// Setting a header of the endpoint in use and then reading it prints the
/// value set, when the environment is not applied early (its variables
/// could otherwise change the value read).
pub proof fn law_header_set_then_get(
    c0: &Ctx,
    c1: &Ctx,
    c2: &Ctx,
    headers: Vec<String>,
    r1: QuartzResult,
    key: String,
    r2: QuartzResult,
)
    requires
        header::was_set(c0, c1, headers, r1),
        r1 is Ok,
        headers@.len() == 1,
        Headers::spec_pair(headers@[0]@) is Some,
        key@ == (Headers::spec_pair(headers@[0]@)->0).0,
        !c0.args.early_apply_environment,
        header::got(c1, c2, key, r2),
    ensures
        r2 is Ok,
        c2.stdout@ == c1.stdout@ + (Headers::spec_pair(headers@[0]@)->0).1 + seq!['\n'],
{
    let input = headers@[0]@;
    let (k, v) = Headers::spec_pair(input)->0;
    assert(views(headers@) =~= seq![input]);
    let r = choose|r: Endpoint|
        in_use(c0, r) && same_but_headers(new_endpoint(c0, c1), r) && new_endpoint(c0, c1).headers.0.map()
            == fold_pairs::<Headers>(r.headers.0.map(), views(headers@));
    assert(seq![input].drop_last() =~= Seq::<Seq<char>>::empty());
    let stored = new_endpoint(c0, c1);
    assert(stored.headers.0.map().contains_key(k) && stored.headers.0.map()[k] == v);
    assert(stored_endpoint(c1) == Some(stored));
    assert forall|r2e: Endpoint| in_use(c1, r2e) implies r2e.headers.0.map() == stored.headers.0.map() by {
        assert(same_endpoint(r2e, stored));
    }
}

/// Setting the editor or the pager and then reading the same key prints
/// the value set; setting `ui.colors` to `true` or `false` and reading it
/// prints that value, unless `$NO_COLOR` turns colours off.
pub proof fn law_config_set_then_get(
    c0: &Ctx,
    c1: &Ctx,
    c2: &Ctx,
    set: config::SetArgs,
    r1: QuartzResult,
    get: config::GetArgs,
    r2: QuartzResult,
)
    requires
        config::was_set(c0, c1, set, r1),
        config::is_config_key(set.key@),
        get.key@ == set.key@,
        set.key@ == config::colors_key() ==> (set.value@ == seq!['t', 'r', 'u', 'e'] || set.value@ == seq![
            'f',
            'a',
            'l',
            's',
            'e',
        ]) && !c0.system.no_color,
        config::got(c1, c2, get, r2),
    ensures
        r1 is Ok,
        r2 is Ok,
        c2.stdout@ == c1.stdout@ + set.value@ + seq!['\n'],
{
    assert(config::editor_key() != config::pager_key());
    assert(config::editor_key() != config::colors_key());
    assert(config::pager_key() != config::colors_key());
}

/// An entry that a variables file keeps: its key holds no `=` and no line
/// feed, its value no line feed, and the value does not start or end with a
/// quote, which reading would take off.
pub open spec fn kept_variable(p: (Seq<char>, Seq<char>)) -> bool {
    &&& !p.0.contains('=')
    &&& !p.0.contains('\n')
    &&& !p.1.contains('\n')
    &&& trim_char(trim_char(p.1, '\''), '"') == p.1
}

/// The lines of a variables file for the entries `ps`.
spec fn variable_file_lines(ps: Seq<(Seq<char>, Seq<char>)>) -> Seq<Seq<char>> {
    ps.map_values(|p: (Seq<char>, Seq<char>)| p.0 + seq!['='] + p.1)
}

/// A variables file is its lines, each followed by a line feed.
proof fn lemma_variables_text_join(ps: Seq<(Seq<char>, Seq<char>)>)
    ensures
        pairs_text(ps, seq!['=']) == join_with(variable_file_lines(ps).push(Seq::empty()), seq!['\n']),
    decreases ps.len(),
{
    let e = Seq::<char>::empty();
    let nl = seq!['\n'];
    let eq = seq!['='];
    if ps.len() > 0 {
        let d = ps.drop_last();
        lemma_variables_text_join(d);
        let l = ps.last().0 + eq + ps.last().1;
        assert(variable_file_lines(ps) =~= variable_file_lines(d).push(l));
        assert(variable_file_lines(ps).push(e).drop_last() =~= variable_file_lines(ps));
        assert(variable_file_lines(d).push(e).drop_last() =~= variable_file_lines(d));
        assert(join_with(variable_file_lines(ps).push(e), nl) == join_with(variable_file_lines(ps), nl) + nl + e);
        if d.len() > 0 {
            assert(variable_file_lines(ps).drop_last() =~= variable_file_lines(d));
            assert(variable_file_lines(ps).last() == l);
            assert(join_with(variable_file_lines(ps), nl) == join_with(variable_file_lines(d), nl) + nl + l);
            assert(join_with(variable_file_lines(d).push(e), nl) == join_with(variable_file_lines(d), nl) + nl + e);
            assert(pairs_text(d, eq) =~= join_with(variable_file_lines(d), nl) + nl);
        } else {
            assert(pairs_text(d, eq) =~= e);
            assert(variable_file_lines(ps) =~= seq![l]);
            assert(join_with(variable_file_lines(ps), nl) == l);
        }
        assert(pairs_text(ps, eq) =~= pairs_text(d, eq) + l + nl);
        assert(pairs_text(ps, eq) =~= join_with(variable_file_lines(ps).push(e), nl));
    } else {
        assert(variable_file_lines(ps).push(e) =~= seq![e]);
    }
}

/// Lines that are none of them empty are their own non-empty lines.
proof fn lemma_non_empty_all(ls: Seq<Seq<char>>)
    requires
        forall|i: int| 0 <= i < ls.len() ==> (#[trigger] ls[i]).len() > 0,
    ensures
        non_empty(ls) == ls,
    decreases ls.len(),
{
    if ls.len() > 0 {
        let d = ls.drop_last();
        assert forall|i: int| 0 <= i < d.len() implies (#[trigger] d[i]).len() > 0 by {
            assert(d[i] == ls[i]);
        }
        lemma_non_empty_all(d);
        assert(ls[ls.len() - 1] == ls.last());
        assert(d.push(ls.last()) =~= ls);
    }
}

/// A kept entry's line reads back as the entry.
proof fn lemma_variable_line(p: (Seq<char>, Seq<char>))
    requires
        kept_variable(p),
    ensures
        spec_eq_pair(p.0 + seq!['='] + p.1) == Some(p),
{
    let l = p.0 + seq!['='] + p.1;
    assert forall|j: int| 0 <= j < p.0.len() implies l[j] != '=' by {
        assert(l[j] == p.0[j]);
    }
    crate::text::lemma_idx_of(l, '=', p.0.len() as int);
    assert(l.take(p.0.len() as int) =~= p.0);
    assert(l.skip(p.0.len() as int + 1) =~= p.1);
}

/// Reading the lines of kept, distinct entries gives their map.
proof fn lemma_fold_variable_lines(ps: Seq<(Seq<char>, Seq<char>)>)
    requires
        distinct_keys(ps),
        forall|i: int| 0 <= i < ps.len() ==> kept_variable(#[trigger] ps[i]),
    ensures
        fold_lines(Map::empty(), variable_file_lines(ps)) == as_map(ps),
    decreases ps.len(),
{
    if ps.len() > 0 {
        let d = ps.drop_last();
        let x = ps.last();
        assert(distinct_keys(d)) by {
            assert forall|i: int, j: int| 0 <= i < d.len() && 0 <= j < d.len() && i != j implies d[i].0 != d[j].0 by {
                assert(d[i] == ps[i] && d[j] == ps[j]);
            }
        }
        assert forall|i: int| 0 <= i < d.len() implies kept_variable(#[trigger] d[i]) by {
            assert(d[i] == ps[i]);
        }
        lemma_fold_variable_lines(d);
        assert(variable_file_lines(ps).drop_last() =~= variable_file_lines(d));
        assert(kept_variable(ps[ps.len() - 1]));
        lemma_variable_line(x);
        crate::strmap::lemma_lookup(ps, x.0);
        crate::strmap::lemma_lookup(d, x.0);
        assert forall|k: Seq<char>| #![trigger as_map(ps).contains_key(k)] k != x.0 implies lookup(ps, k) == lookup(d, k) by {
            crate::strmap::lemma_lookup(ps, k);
            crate::strmap::lemma_lookup(d, k);
            if lookup(d, k) is Some {
                let i = choose|i: int| 0 <= i < d.len() && d[i].0 == k;
                assert(ps[i] == d[i]);
            }
            if lookup(ps, k) is Some {
                let i = choose|i: int| 0 <= i < ps.len() && ps[i].0 == k;
                if i < d.len() {
                    assert(ps[i] == d[i]);
                }
            }
        }
        assert forall|i: int| 0 <= i < d.len() implies d[i].0 != x.0 by {
            assert(d[i] == ps[i]);
            assert(ps[ps.len() - 1] == x);
        }
        assert(lookup(ps, x.0) == Some(x.1)) by {
            assert(ps[ps.len() - 1] == x);
        }
        assert(as_map(ps) =~= as_map(d).insert(x.0, x.1));
    } else {
        assert(as_map(ps) =~= Map::<Seq<char>, Seq<char>>::empty());
    }
}

/// Variables written to a variables file read back as the same variables,
/// when the keys are distinct and the file keeps each entry.
pub proof fn law_variables_file_round_trip(ps: Seq<(Seq<char>, Seq<char>)>)
    requires
        distinct_keys(ps),
        forall|i: int| 0 <= i < ps.len() ==> kept_variable(#[trigger] ps[i]),
    ensures
        well_formed_variables(pairs_text(ps, seq!['='])),
        fold_lines(Map::empty(), variable_lines(pairs_text(ps, seq!['=']))) == as_map(ps),
{
    let e = Seq::<char>::empty();
    let ls = variable_file_lines(ps);
    let qs = ls.push(e);
    lemma_variables_text_join(ps);
    assert forall|k: int| 0 <= k < qs.len() implies !(#[trigger] qs[k]).contains('\n') by {
        if k < ps.len() {
            assert(kept_variable(ps[k]));
            let l = qs[k];
            assert(l == ps[k].0 + seq!['='] + ps[k].1);
            if l.contains('\n') {
                let j = choose|j: int| 0 <= j < l.len() && l[j] == '\n';
                if j < ps[k].0.len() {
                    assert(ps[k].0[j] == '\n');
                } else if j > ps[k].0.len() {
                    assert(ps[k].1[j - ps[k].0.len() - 1] == '\n');
                }
            }
        } else {
            assert(qs[k] =~= e);
        }
    }
    crate::text::lemma_split_join(qs, '\n');
    assert(non_empty(qs) == non_empty(ls)) by {
        assert(qs.drop_last() =~= ls);
    }
    assert forall|i: int| 0 <= i < ls.len() implies (#[trigger] ls[i]).len() > 0 by {
        assert(ls[i] == ps[i].0 + seq!['='] + ps[i].1);
    }
    lemma_non_empty_all(ls);
    assert(variable_lines(pairs_text(ps, seq!['='])) == ls);
    assert forall|i: int| 0 <= i < ls.len() implies spec_eq_pair(#[trigger] ls[i]) is Some by {
        assert(kept_variable(ps[i]));
        lemma_variable_line(ps[i]);
    }
    lemma_fold_variable_lines(ps);
}


// ---------------------------------------------------------------------------
// Max-Age counts from the time a header is received
// ---------------------------------------------------------------------------
/// `Max-Age=`.
pub open spec fn max_age_prefix() -> Seq<char> {
    seq!['M', 'a', 'x', '-', 'A', 'g', 'e', '=']
}

/// Splitting a text that ends in a piece free of `c` extends the last piece
/// of the front part by that piece.
proof fn lemma_split_on_append(s: Seq<char>, t: Seq<char>, c: char)
    requires
        !t.contains(c),
    ensures
        split_on(s + t, c) == split_on(s, c).update(
            split_on(s, c).len() - 1,
            split_on(s, c).last() + t,
        ),
    decreases t.len(),
{
    crate::text::lemma_split_on_len(s, c);
    if t.len() == 0 {
        assert(s + t =~= s);
        assert(split_on(s, c).last() + t =~= split_on(s, c).last());
        assert(split_on(s, c).update(split_on(s, c).len() - 1, split_on(s, c).last()) =~= split_on(s, c));
    } else {
        let u = t.drop_last();
        assert(!u.contains(c)) by {
            if u.contains(c) {
                let j = choose|j: int| 0 <= j < u.len() && u[j] == c;
                assert(t[j] == c);
            }
        }
        lemma_split_on_append(s, u, c);
        assert((s + t).drop_last() =~= s + u);
        assert((s + t).last() == t.last());
        assert(t.last() != c) by {
            assert(t[t.len() - 1] == t.last());
        }
        let p = split_on(s, c);
        let q = split_on(s + u, c);
        assert(split_on(s + t, c) == q.update(q.len() - 1, q.last().push(t.last())));
        assert(q.last() == p.last() + u);
        assert((p.last() + u).push(t.last()) =~= p.last() + t);
        assert(q.update(q.len() - 1, q.last().push(t.last())) =~= p.update(p.len() - 1, p.last() + t));
    }
}

/// The last piece of a text split at `c` is what follows its last `c`.
proof fn lemma_split_on_last(s: Seq<char>, t: Seq<char>, c: char)
    requires
        !t.contains(c),
    ensures
        split_on(s + seq![c] + t, c).last() == t,
        split_on(t, c).last() == t,
{
    lemma_split_on_append(s + seq![c], t, c);
    let f = s + seq![c];
    assert(f.drop_last() =~= s);
    assert(split_on(f, c) == split_on(s, c).push(Seq::<char>::empty()));
    assert(Seq::<char>::empty() + t =~= t);
    lemma_split_on_append(Seq::<char>::empty(), t, c);
    assert(Seq::<char>::empty() + t =~= t);
}

/// The cookies a header sets are those its entries set, one per entry.
proof fn lemma_parse_entries_each(d: Seq<char>, ps: Seq<Seq<char>>, now: i64)
    requires
        parse_entries(d, ps, now) is Some,
    ensures
        parse_entries(d, ps, now)->0.len() == ps.len(),
        forall|i: int| 0 <= i < ps.len() ==> parse_entry(d, ps[i], now) == Some(
            #[trigger] parse_entries(d, ps, now)->0[i],
        ),
    decreases ps.len(),
{
    if ps.len() > 0 {
        lemma_parse_entries_each(d, ps.drop_last(), now);
        let a = parse_entries(d, ps.drop_last(), now)->0;
        let cs = parse_entries(d, ps, now)->0;
        assert(cs == a.push(parse_entry(d, ps.last(), now)->0));
        assert forall|i: int| 0 <= i < ps.len() implies parse_entry(d, ps[i], now) == Some(
            #[trigger] cs[i],
        ) by {
            if i < ps.len() - 1 {
                assert(ps[i] == ps.drop_last()[i]);
                assert(cs[i] == a[i]);
            }
        }
    }
}

/// The attribute `Max-Age=x` sets the expiry to `x` after `now`.
proof fn lemma_max_age_attr(st: AttrState, v: Seq<char>, x: i64, now: i64)
    requires
        trim_ws(v) == max_age_prefix() + int_text(x as int),
        apply_attr(st, v, now) is Some,
    ensures
        apply_attr(st, v, now)->0.expires == x + now,
{
    let t = trim_ws(v);
    let n = int_text(x as int);
    assert(t[7] == '=');
    assert forall|j: int| 0 <= j < 7 implies t[j] != '=' by {
        assert(t[j] == max_age_prefix()[j]);
    }
    lemma_idx_of(t, '=', 7);
    assert(t.take(7) =~= seq!['M', 'a', 'x', '-', 'A', 'g', 'e']);
    assert(t.skip(8) =~= n);
    assert(attr_pair(v) == (t.take(7), t.skip(8)));
    assert(lower_char('M') == 'm');
    assert(lower_char('A') == 'a');
    assert(lower_ascii(t.take(7)) =~= seq!['m', 'a', 'x', '-', 'a', 'g', 'e']);
    lemma_parse_int_text(x);
}

/// A `Set-Cookie` entry `name=value; Max-Age=x` received at `now` sets a
/// cookie that expires `x` microseconds after `now`: the expiry counts from
/// the time the header is received, later than it when `x` is positive.
pub proof fn law_max_age_counts_from_now(
    domain: Seq<char>,
    input: Seq<char>,
    now: i64,
    i: int,
    front: Seq<char>,
    attr: Seq<char>,
    x: i64,
)
    requires
        parse_set_cookie(domain, input, now) is Some,
        0 <= i < split_on(input, ',').len(),
        split_on(input, ',')[i] == front + seq![';'] + attr,
        !attr.contains(';'),
        trim_ws(attr) == max_age_prefix() + int_text(x as int),
    ensures
        parse_set_cookie(domain, input, now)->0.len() == split_on(input, ',').len(),
        parse_set_cookie(domain, input, now)->0[i].expires_at == x + now,
        x > 0 ==> parse_set_cookie(domain, input, now)->0[i].expires_at > now,
{
    let ps = split_on(input, ',');
    lemma_parse_entries_each(domain, ps, now);
    let piece = ps[i];
    let cv = parse_set_cookie(domain, input, now)->0[i];
    assert(parse_entry(domain, piece, now) == Some(cv));
    // the first `;` of the entry
    let j = idx_of(piece, ';');
    crate::text::lemma_idx_of_props(piece, ';');
    assert(piece[front.len() as int] == ';');
    assert(0 <= j <= front.len());
    let rest = piece.skip(j + 1);
    assert(split_once_char(piece, ';') == Some((piece.take(j), rest)));
    assert(split_on(rest, ';').last() == attr) by {
        if j == front.len() {
            assert(rest =~= attr);
            lemma_split_on_last(Seq::<char>::empty(), attr, ';');
        } else {
            assert(rest =~= front.skip(j + 1) + seq![';'] + attr);
            lemma_split_on_last(front.skip(j + 1), attr, ';');
        }
    }
    let attrs = split_on(rest, ';');
    crate::text::lemma_split_on_len(rest, ';');
    let st0 = AttrState { domain, path: None, secure: false, expires: 0 };
    let st = apply_attrs(st0, attrs, now)->0;
    assert(apply_attrs(st0, attrs, now) is Some);
    assert(cv.expires_at == st.expires);
    let s2 = apply_attrs(st0, attrs.drop_last(), now)->0;
    assert(apply_attr(s2, attrs.last(), now) == Some(st));
    lemma_max_age_attr(s2, attr, x, now);
}


// ---------------------------------------------------------------------------
// Domains match label by label from the top-level one down
// ---------------------------------------------------------------------------
/// A domain matches another (written `b`) exactly when they are the same
/// domain, or when their labels, read from the top-level one down, agree at
/// every position both have. In particular two different domains whose
/// top-level labels differ never match.
pub proof fn law_domain_labels_from_top(a: Seq<char>, b: Seq<char>)
    ensures
        domain_matches(a, b) <==> (a == canonical(b) || forall|i: int|
            0 <= i < domain_segments(a).len() && i < domain_segments(canonical(b)).len()
                ==> #[trigger] domain_segments(a)[i] == domain_segments(canonical(b))[i]),
        a != canonical(b) && domain_segments(a).len() > 0 && domain_segments(canonical(b)).len() > 0
            && domain_segments(a)[0] != domain_segments(canonical(b))[0] ==> !domain_matches(a, b),
{
}

// ---------------------------------------------------------------------------
// History: newest first
// ---------------------------------------------------------------------------
/// The history lists its timestamps from the newest to the oldest: each is
/// at least the ones after it, they are those recorded, and the first, which
/// `last` gives, is the greatest recorded timestamp.
pub proof fn law_history_newest_first(v: Seq<i64>)
    ensures
        ({
            let t = v.sort_by(|a: i64, b: i64| newer_first(a, b));
            &&& t.to_multiset() == v.to_multiset()
            &&& t.len() == v.len()
            &&& forall|i: int, j: int| 0 <= i <= j < t.len() ==> #[trigger] t[i] >= #[trigger] t[j]
            &&& v.len() > 0 ==> forall|k: int| 0 <= k < v.len() ==> t[0] >= #[trigger] v[k]
        }),
{
    let leq = |a: i64, b: i64| newer_first(a, b);
    assert(vstd::relations::total_ordering(leq));
    v.lemma_sort_by_ensures(leq);
    let t = v.sort_by(leq);
    assert(t.len() == v.len()) by {
        vstd::seq_lib::to_multiset_len(t);
        vstd::seq_lib::to_multiset_len(v);
    }
    assert forall|i: int, j: int| 0 <= i <= j < t.len() implies #[trigger] t[i] >= #[trigger] t[j] by {
        if i < j {
            assert(leq(t[i], t[j]));
        }
    }
    assert forall|k: int| 0 <= k < v.len() implies t[0] >= #[trigger] v[k] by {
        assert(v.to_multiset().count(v[k]) > 0) by {
            v.to_multiset_ensures();
        }
        t.to_multiset_ensures();
        assert(t.contains(v[k]));
        let m = choose|m: int| 0 <= m < t.len() && t[m] == v[k];
        if m > 0 {
            assert(leq(t[0], t[m]));
        }
    }
}

// ---------------------------------------------------------------------------
// curl: one header option per header, in order
// ---------------------------------------------------------------------------
/// The header option for `h` after `sep`: `sep`, the option, and
/// `'name: value'`.
pub open spec fn header_option(h: (Seq<char>, Seq<char>), sep: Seq<char>, opt: Seq<char>) -> Seq<char> {
    sep + opt + seq![' ', '\''] + h.0 + seq![':', ' '] + h.1 + seq!['\'']
}

/// The total length of the header options of the first `n` headers.
pub open spec fn options_len(hs: Seq<(Seq<char>, Seq<char>)>, n: int, sep: Seq<char>, opt: Seq<char>) -> int
    decreases n,
{
    if n <= 0 {
        0
    } else {
        options_len(hs, n - 1, sep, opt) + header_option(hs[n - 1], sep, opt).len()
    }
}

/// The header options follow one another: their total length.
proof fn lemma_curl_headers_len(hs: Seq<(Seq<char>, Seq<char>)>, sep: Seq<char>, opt: Seq<char>)
    ensures
        curl_headers(hs, sep, opt).len() == options_len(hs, hs.len() as int, sep, opt),
    decreases hs.len(),
{
    if hs.len() > 0 {
        let f = hs.drop_last();
        lemma_curl_headers_len(f, sep, opt);
        lemma_options_len_prefix(hs, f, sep, opt, f.len() as int);
        assert(curl_headers(hs, sep, opt) =~= curl_headers(f, sep, opt) + header_option(hs.last(), sep, opt));
    }
}

/// The header options follow one another: where the `i`-th one lies.
proof fn lemma_curl_headers_at(hs: Seq<(Seq<char>, Seq<char>)>, sep: Seq<char>, opt: Seq<char>, i: int)
    requires
        0 <= i < hs.len(),
    ensures
        curl_headers(hs, sep, opt).subrange(options_len(hs, i, sep, opt), options_len(hs, i + 1, sep, opt))
            == header_option(hs[i], sep, opt),
    decreases hs.len(),
{
    let f = hs.drop_last();
    let a = curl_headers(f, sep, opt);
    let last = header_option(hs.last(), sep, opt);
    assert(curl_headers(hs, sep, opt) =~= a + last);
    lemma_curl_headers_len(f, sep, opt);
    lemma_options_len_prefix(hs, f, sep, opt, i);
    if i == hs.len() - 1 {
        assert((a + last).subrange(a.len() as int, (a.len() + last.len()) as int) =~= last);
    } else {
        lemma_curl_headers_at(f, sep, opt, i);
        lemma_options_len_prefix(hs, f, sep, opt, i + 1);
        lemma_options_len_mono(f, sep, opt, i + 1, f.len() as int);
        lemma_options_len_mono(f, sep, opt, i, i + 1);
        lemma_options_len_mono(f, sep, opt, 0, i);
        let lo = options_len(f, i, sep, opt);
        let hi = options_len(f, i + 1, sep, opt);
        assert((a + last).subrange(lo, hi) =~= a.subrange(lo, hi));
    }
}

/// The lengths of a prefix of the headers do not depend on what follows.
proof fn lemma_options_len_prefix(
    hs: Seq<(Seq<char>, Seq<char>)>,
    f: Seq<(Seq<char>, Seq<char>)>,
    sep: Seq<char>,
    opt: Seq<char>,
    n: int,
)
    requires
        0 <= n <= f.len() <= hs.len(),
        forall|k: int| 0 <= k < f.len() ==> f[k] == hs[k],
    ensures
        options_len(f, n, sep, opt) == options_len(hs, n, sep, opt),
    decreases n,
{
    if n > 0 {
        lemma_options_len_prefix(hs, f, sep, opt, n - 1);
    }
}

/// A piece of the middle of a text, placed in the whole text.
proof fn lemma_placed(h: Seq<char>, m: Seq<char>, t: Seq<char>, lo: int, hi: int)
    requires
        0 <= lo <= hi <= m.len(),
    ensures
        crate::text::matches_at(h + m + t, m.subrange(lo, hi), h.len() + lo),
{
    assert((h + m + t).subrange(h.len() + lo, h.len() + lo + (hi - lo)) =~= m.subrange(lo, hi));
}

/// The lengths grow with the number of headers.
proof fn lemma_options_len_mono(hs: Seq<(Seq<char>, Seq<char>)>, sep: Seq<char>, opt: Seq<char>, m: int, n: int)
    requires
        0 <= m <= n,
    ensures
        options_len(hs, m, sep, opt) <= options_len(hs, n, sep, opt),
    decreases n - m,
{
    if m < n {
        lemma_options_len_mono(hs, sep, opt, m, n - 1);
    }
}

/// The `curl` command line holds, after the method, one header option
/// `-H 'name: value'` (or `--header`) per header of the endpoint, in the
/// order of the headers, one right after the other: the `i`-th starts where
/// the options of the headers before it end.
pub proof fn law_curl_one_option_per_header(
    long: bool,
    multiline: bool,
    url: Seq<char>,
    method: Seq<char>,
    headers: Seq<(Seq<char>, Seq<char>)>,
    body: Option<Seq<char>>,
)
    ensures
        ({
            let sep = if multiline {
                seq![' ', '\\', '\n', '\t']
            } else {
                seq![' ']
            };
            let opt = option_text(long, CurlOption::Header);
            let text = curl_text(long, multiline, url, method, headers, body);
            let start = (seq!['c', 'u', 'r', 'l', ' '] + option_text(long, CurlOption::Location) + seq![' ', '\'']
                + url + seq!['\'', ' '] + option_text(long, CurlOption::Request) + seq![' '] + method).len();
            forall|i: int|
                0 <= i < headers.len() ==> crate::text::matches_at(
                    text,
                    #[trigger] header_option(headers[i], sep, opt),
                    start + options_len(headers, i, sep, opt),
                )
        }),
{
    let sep = if multiline {
        seq![' ', '\\', '\n', '\t']
    } else {
        seq![' ']
    };
    let opt = option_text(long, CurlOption::Header);
    let head = seq!['c', 'u', 'r', 'l', ' '] + option_text(long, CurlOption::Location) + seq![' ', '\''] + url
        + seq!['\'', ' '] + option_text(long, CurlOption::Request) + seq![' '] + method;
    let hs = curl_headers(headers, sep, opt);
    let tail = match body {
        Some(b) => sep + option_text(long, CurlOption::Data) + seq![' ', '\''] + crate::snippet::strip_newline(b)
            + seq!['\'', '\n'],
        None => Seq::empty(),
    };
    let text = curl_text(long, multiline, url, method, headers, body);
    assert(text =~= head + hs + tail);
    lemma_curl_headers_len(headers, sep, opt);
    assert forall|i: int| 0 <= i < headers.len() implies crate::text::matches_at(
        text,
        #[trigger] header_option(headers[i], sep, opt),
        head.len() + options_len(headers, i, sep, opt),
    ) by {
        lemma_curl_headers_at(headers, sep, opt, i);
        lemma_options_len_mono(headers, sep, opt, 0, i);
        lemma_options_len_mono(headers, sep, opt, i, i + 1);
        lemma_options_len_mono(headers, sep, opt, i + 1, headers.len() as int);
        lemma_placed(head, hs, tail, options_len(headers, i, sep, opt), options_len(headers, i + 1, sep, opt));
    }
}

} // verus!
