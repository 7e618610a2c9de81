//! Environments: named sets of variables (and headers) applied to endpoints.
use vstd::prelude::*;

use crate::endpoint::Headers;
use crate::strmap::{pair_views, StrMap};
use crate::text::{
    non_empty, push_str, split_char, split_on, str_is_empty, views,
};
use crate::{eq_pair, spec_eq_pair, PairMap};

verus! {

/// The pairs written one per line, as `key<sep>value`.
pub open spec fn pairs_text(ps: Seq<(Seq<char>, Seq<char>)>, sep: Seq<char>) -> Seq<char>
    decreases ps.len(),
{
    if ps.len() == 0 {
        Seq::empty()
    } else {
        pairs_text(ps.drop_last(), sep) + ps.last().0 + sep + ps.last().1 + seq!['\n']
    }
}

/// Writes the entries of `m` one per line, as `key<sep>value`.
pub fn map_text(m: &StrMap, sep: &str) -> (res: String)
    ensures
        res@ == pairs_text(m.pairs(), sep@),
{
    let mut out = String::new();
    let mut i: usize = 0;
    let n = m.len();
    while i < n
        invariant
            n == m.pairs().len(),
            i <= n,
            out@ == pairs_text(m.pairs().take(i as int), sep@),
        decreases n - i,
    {
        push_str(&mut out, m.key_at(i).as_str());
        push_str(&mut out, sep);
        push_str(&mut out, m.value_at(i).as_str());
        push_str(&mut out, "\n");
        proof {
            reveal_strlit("\n");
            assert(m.pairs().take(i + 1).drop_last() =~= m.pairs().take(i as int));
        }
        i = i + 1;
    }
    assert(m.pairs().take(n as int) =~= m.pairs());
    out
}

/// The entries after inserting, in order, the pairs of every line.
pub open spec fn fold_lines(m: Map<Seq<char>, Seq<char>>, ls: Seq<Seq<char>>) -> Map<
    Seq<char>,
    Seq<char>,
>
    decreases ls.len(),
{
    if ls.len() == 0 {
        m
    } else {
        let p = spec_eq_pair(ls.last())->0;
        fold_lines(m, ls.drop_last()).insert(p.0, p.1)
    }
}

/// The non-empty lines of a variables file.
pub open spec fn variable_lines(content: Seq<char>) -> Seq<Seq<char>> {
    non_empty(split_on(content, '\n'))
}

/// Every non-empty line of `content` is a `key=value` pair.
pub open spec fn well_formed_variables(content: Seq<char>) -> bool {
    forall|i: int|
        0 <= i < variable_lines(content).len() ==> spec_eq_pair(
            #[trigger] variable_lines(content)[i],
        ) is Some
}

/// Variables: names and the values that replace `{{name}}`.
pub struct Variables(pub StrMap);

impl PairMap for Variables {
    open spec fn spec_pair(input: Seq<char>) -> Option<(Seq<char>, Seq<char>)> {
        spec_eq_pair(input)
    }

    open spec fn spec_map(&self) -> Map<Seq<char>, Seq<char>> {
        self.0.map()
    }

    fn name() -> (res: String)
        ensures
            res@ == seq!['v', 'a', 'r', 'i', 'a', 'b', 'l', 'e'],
    {
        proof {
            reveal_strlit("variable");
        }
        crate::text::owned("variable")
    }

    fn expected() -> (res: String)
        ensures
            res@ == seq!['<', 'k', 'e', 'y', '>', '=', '<', 'v', 'a', 'l', 'u', 'e', '>'],
    {
        proof {
            reveal_strlit("<key>=<value>");
        }
        crate::text::owned("<key>=<value>")
    }

    fn map(&self) -> (res: &StrMap) {
        &self.0
    }

    fn pair(input: &str) -> (res: Option<(String, String)>) {
        eq_pair(input)
    }

    fn set(&mut self, input: &str) {
        match eq_pair(input) {
            Some((k, v)) => {
                self.0.insert(k, v);
            },
            None => {},
        }
    }
}

impl Variables {
    /// No variables.
    pub fn new() -> (res: Variables)
        ensures
            res.0.map() == Map::<Seq<char>, Seq<char>>::empty(),
            res.0.pairs().len() == 0,
    {
        Variables(StrMap::new())
    }

    /// The variables of a variables file: one `key=value` per non-empty line,
    /// later lines overriding earlier ones.
    pub fn parse(file_content: &str) -> (res: Variables)
        requires
            well_formed_variables(file_content@),
        ensures
            res.0.map() == fold_lines(Map::empty(), variable_lines(file_content@)),
    {
        let lines = split_char(file_content, '\n');
        let mut vars = Variables::new();
        let ghost ls = views(lines@);
        let mut i: usize = 0;
        while i < lines.len()
            invariant
                i <= lines.len(),
                ls == views(lines@),
                ls == split_on(file_content@, '\n'),
                well_formed_variables(file_content@),
                vars.0.map() == fold_lines(Map::empty(), non_empty(ls.take(i as int))),
            decreases lines.len() - i,
        {
            assert(ls.take(i + 1).drop_last() =~= ls.take(i as int));
            let line = lines[i].as_str();
            if !str_is_empty(line) {
                proof {
                    lemma_non_empty_member(ls, i as int);
                    let nl = non_empty(ls.take(i as int));
                    assert(nl.push(ls[i as int]).drop_last() =~= nl);
                }
                vars.set(line);
            } else {
                assert(ls.take(i + 1).last().len() == 0);
            }
            i = i + 1;
        }
        assert(ls.take(lines.len() as int) =~= ls);
        vars
    }

    /// The variables as `key=value` lines.
    pub fn to_text(&self) -> (res: String)
        ensures
            res@ == pairs_text(self.0.pairs(), seq!['=']),
    {
        let r = map_text(&self.0, "=");
        proof {
            reveal_strlit("=");
            assert("="@ =~= seq!['=']);
        }
        r
    }
}

/// A non-empty piece is kept by `non_empty`, as an element of it.
pub proof fn lemma_non_empty_member(ps: Seq<Seq<char>>, i: int)
    requires
        0 <= i < ps.len(),
        ps[i].len() > 0,
    ensures
        non_empty(ps.take(i + 1)) == non_empty(ps.take(i)).push(ps[i]),
        non_empty(ps).contains(ps[i]),
    decreases ps.len(),
{
    assert(ps.take(i + 1).drop_last() =~= ps.take(i));
    lemma_non_empty_contains(ps, i);
}

/// Every non-empty piece of `ps` is in `non_empty(ps)`.
pub proof fn lemma_non_empty_contains(ps: Seq<Seq<char>>, i: int)
    requires
        0 <= i < ps.len(),
        ps[i].len() > 0,
    ensures
        non_empty(ps).contains(ps[i]),
    decreases ps.len(),
{
    if i == ps.len() - 1 {
        assert(non_empty(ps).last() == ps[i]);
    } else {
        lemma_non_empty_contains(ps.drop_last(), i);
        let k = choose|k: int| 0 <= k < non_empty(ps.drop_last()).len() && non_empty(ps.drop_last())[k] == ps[i];
        if ps.last().len() > 0 {
            assert(non_empty(ps)[k] == ps[i]);
        }
    }
}

/// An environment: a name, its variables and its headers.
pub struct Context {
    pub name: String,
    pub variables: Variables,
    pub headers: Headers,
}

impl Context {
    /// An empty environment named `name`.
    pub fn new(name: &str) -> (res: Context)
        ensures
            res.name@ == name@,
            res.variables.0.map() == Map::<Seq<char>, Seq<char>>::empty(),
            res.headers.0.map() == Map::<Seq<char>, Seq<char>>::empty(),
            res.variables.0.pairs().len() == 0,
            res.headers.0.pairs().len() == 0,
    {
        Context {
            name: crate::text::owned(name),
            variables: Variables::new(),
            headers: Headers(StrMap::new()),
        }
    }

    /// The environment every project starts with.
    pub fn default() -> (res: Context)
        ensures
            res.name@ == seq!['d', 'e', 'f', 'a', 'u', 'l', 't'],
            res.variables.0.map() == Map::<Seq<char>, Seq<char>>::empty(),
            res.headers.0.map() == Map::<Seq<char>, Seq<char>>::empty(),
    {
        let r = Context::new("default");
        proof {
            reveal_strlit("default");
        }
        r
    }

    /// A copy of the environment.
    pub fn duplicate(&self) -> (res: Context)
        ensures
            res.name@ == self.name@,
            res.variables.0.pairs() == self.variables.0.pairs(),
            res.headers.0.pairs() == self.headers.0.pairs(),
    {
        Context {
            name: self.name.clone(),
            variables: Variables(self.variables.0.duplicate()),
            headers: Headers(self.headers.0.duplicate()),
        }
    }

    /// The directory of the environment under the project directory `root`.
    pub fn dir(&self, root: &str) -> (res: String)
        ensures
            res@ == root@ + seq!['/', 'e', 'n', 'v', '/'] + self.name@,
    {
        let mut p = crate::text::owned(root);
        push_str(&mut p, "/env/");
        push_str(&mut p, self.name.as_str());
        proof {
            reveal_strlit("/env/");
        }
        p
    }
}

} // verus!
