//! `multipart/form-data` bodies: reading one back and writing one.
use vstd::prelude::*;

use crate::cookie::keep_non_empty;
use crate::text::{
    chars_of, concat3, contains_str, contains_sub, find_str, find_sub, join_strings, join_with, lines,
    lines_of, non_empty, owned, push_char, push_str, starts_with, starts_with_str, string_of_range,
    trim_char, trim_matches_char, trim_prefix_all, trim_start_matches_str, views,
};
use crate::{eq_pair, refuse, spec_eq_pair, QuartzResult};

verus! {

/// A form field.
pub struct Field {
    pub name: String,
    pub value: String,
}

/// A field under construction.
pub struct FieldBuilder {
    name: Option<String>,
    value: Option<String>,
}

impl FieldBuilder {
    /// A builder with nothing set.
    pub fn new() -> (res: FieldBuilder)
        ensures
            res.spec_name() is None,
            res.spec_value() is None,
    {
        FieldBuilder { name: None, value: None }
    }

    /// The name set, if any.
    pub closed spec fn spec_name(&self) -> Option<Seq<char>> {
        match self.name {
            Some(n) => Some(n@),
            None => None,
        }
    }

    /// The value set, if any.
    pub closed spec fn spec_value(&self) -> Option<Seq<char>> {
        match self.value {
            Some(v) => Some(v@),
            None => None,
        }
    }

    /// Sets the name.
    pub fn name(&mut self, name: &str)
        ensures
            final(self).spec_name() == Some(name@),
            final(self).spec_value() == old(self).spec_value(),
    {
        self.name = Some(owned(name));
    }

    /// Sets the value.
    pub fn value(&mut self, value: &str)
        ensures
            final(self).spec_value() == Some(value@),
            final(self).spec_name() == old(self).spec_name(),
    {
        self.value = Some(owned(value));
    }

    /// The field, once its name and value are set.
    pub fn build(self) -> (res: Field)
        requires
            self.spec_name() is Some,
            self.spec_value() is Some,
        ensures
            Some(res.name@) == self.spec_name(),
            Some(res.value@) == self.spec_value(),
    {
        match (self.name, self.value) {
            (Some(name), Some(value)) => Field { name, value },
            _ => Field { name: String::new(), value: String::new() },
        }
    }
}

/// A form: the boundary between its fields, and its fields in order.
pub struct Form {
    pub boundary: String,
    pub fields: Vec<Field>,
}

/// The names and values of the fields.
pub open spec fn field_views(fs: Seq<Field>) -> Seq<(Seq<char>, Seq<char>)> {
    fs.map_values(|f: Field| (f.name@, f.value@))
}

/// The characters a generated boundary is made of.
pub open spec fn boundary_alphabet() -> Seq<char> {
    seq![
        'a', 'b', 'c', 'd', 'e', 'f', 'g', 'h', 'i', 'j', 'k', 'l', 'm', 'n', 'o', 'p', 'q', 'r', 's',
        't', 'u', 'v', 'w', 'x', 'y', 'z', 'A', 'B', 'C', 'D', 'E', 'F', 'G', 'H', 'I', 'J', 'K', 'L',
        'M', 'N', 'O', 'P', 'Q', 'R', 'S', 'T', 'U', 'V', 'W', 'X', 'Y', 'Z', '0', '1', '2', '3', '4',
        '5', '6', '7', '8', '9',
    ]
}

/// `quartz`.
pub open spec fn quartz_text() -> Seq<char> {
    seq!['q', 'u', 'a', 'r', 't', 'z']
}

/// The boundary made of the positions `idxs` in the alphabet: `quartz`,
/// then the character at each position.
pub open spec fn boundary_of(idxs: Seq<usize>) -> Seq<char> {
    quartz_text() + idxs.map_values(|x: usize| boundary_alphabet()[x as int])
}

/// Sixteen positions in the alphabet, as a boundary is drawn from.
pub open spec fn valid_draws(idxs: Seq<usize>) -> bool {
    &&& idxs.len() == 16
    &&& forall|i: int| 0 <= i < 16 ==> #[trigger] idxs[i] <= 61
}

/// A generated boundary: the boundary of some sixteen positions drawn in
/// the alphabet.
pub open spec fn is_generated_boundary(b: Seq<char>) -> bool {
    exists|idxs: Seq<usize>| valid_draws(idxs) && b == boundary_of(idxs)
}

/// A random position in the boundary alphabet.
///
/// Trusted: calls `rand::Rng::gen_range(0..=61)` on `rand::thread_rng()`,
/// which returns a number of that range.
#[verifier::external_body]
fn random_index() -> (res: usize)
    ensures
        res <= 61,
{
    rand::Rng::gen_range(&mut rand::thread_rng(), 0..=61)
}

/// The number of lines of `ls` before the first one that holds `b`.
pub open spec fn value_len(ls: Seq<Seq<char>>, b: Seq<char>) -> nat
    decreases ls.len(),
{
    if ls.len() == 0 {
        0
    } else if contains_sub(ls[0], b) {
        0
    } else {
        1 + value_len(ls.drop_first(), b)
    }
}

/// `value_len` counts lines of `ls`.
pub proof fn lemma_value_len(ls: Seq<Seq<char>>, b: Seq<char>)
    ensures
        value_len(ls, b) <= ls.len(),
        value_len(ls, b) < ls.len() ==> contains_sub(ls[value_len(ls, b) as int], b),
        forall|i: int| 0 <= i < value_len(ls, b) ==> !contains_sub(#[trigger] ls[i], b),
    decreases ls.len(),
{
    if ls.len() > 0 && !contains_sub(ls[0], b) {
        lemma_value_len(ls.drop_first(), b);
        assert forall|i: int| 0 <= i < value_len(ls, b) implies !contains_sub(#[trigger] ls[i], b) by {
            if i > 0 {
                assert(ls[i] == ls.drop_first()[i - 1]);
            }
        }
    }
}

/// `--`.
pub open spec fn dashes() -> Seq<char> {
    seq!['-', '-']
}

/// `Content-Disposition`.
pub open spec fn disposition() -> Seq<char> {
    seq![
        'C', 'o', 'n', 't', 'e', 'n', 't', '-', 'D', 'i', 's', 'p', 'o', 's', 'i', 't', 'i', 'o', 'n',
    ]
}

/// `name=`.
pub open spec fn name_marker() -> Seq<char> {
    seq!['n', 'a', 'm', 'e', '=']
}

/// The fields that the lines `ls` of a form with boundary `b` hold: lines
/// starting with `--` and lines that open no field are skipped; a
/// `Content-Disposition` line opens a field named by what follows `name=`
/// (without surrounding `"`), whose value is the following lines up to one
/// that holds the boundary, joined by line feeds. `None` when a
/// `Content-Disposition` line has no `name=`.
pub open spec fn parse_fields(ls: Seq<Seq<char>>, b: Seq<char>) -> Option<Seq<(Seq<char>, Seq<char>)>>
    decreases ls.len(),
{
    if ls.len() == 0 {
        Some(Seq::empty())
    } else {
        let l = ls[0];
        let rest = ls.drop_first();
        if starts_with(l, dashes()) {
            parse_fields(rest, b)
        } else if starts_with(l, disposition()) {
            let i = find_sub(l, name_marker());
            if i < 0 {
                None
            } else {
                let name = trim_char(l.subrange(i + 5, l.len() as int), '"');
                proof {
                    lemma_value_len(rest, b);
                }
                let k = value_len(rest, b);
                let value = join_with(rest.take(k as int), seq!['\n']);
                let after = if k < rest.len() {
                    rest.skip(k as int + 1)
                } else {
                    rest.skip(k as int)
                };
                match parse_fields(after, b) {
                    Some(fs) => Some(seq![(name, value)] + fs),
                    None => None,
                }
            }
        } else {
            parse_fields(rest, b)
        }
    }
}

/// The lines of a form text that count: its non-empty lines.
pub open spec fn form_lines(input: Seq<char>) -> Seq<Seq<char>> {
    non_empty(lines_of(input))
}

/// The boundary a form text declares: its first line without leading
/// `--`s.
pub open spec fn declared_boundary(input: Seq<char>) -> Seq<char> {
    trim_prefix_all(form_lines(input)[0], dashes())
}

/// The warning given for a boundary that does not start with `quartz`.
pub open spec fn bad_boundary_text(b: Seq<char>) -> Seq<char> {
    seq![
        'i', 'n', 'v', 'a', 'l', 'i', 'd', ' ', 'f', 'o', 'r', 'm', '.', ' ', 'E', 'x', 'p', 'e', 'c',
        't', 'e', 'd', ' ', 'b', 'o', 'u', 'n', 'd', 'a', 'r', 'y', ' ', 't', 'o', ' ', 's', 't', 'a',
        'r', 't', ' ', 'w', 'i', 't', 'h', ' ', '\'', 'q', 'u', 'a', 'r', 't', 'z', '\'', ' ', 'b', 'u',
        't', ' ', 'g', 'o', 't', ' ', '\'',
    ] + b + seq!['\'', '\n']
}

/// `multipart/form-data; boundary=`.
pub open spec fn content_type_prefix() -> Seq<char> {
    seq![
        'm', 'u', 'l', 't', 'i', 'p', 'a', 'r', 't', '/', 'f', 'o', 'r', 'm', '-', 'd', 'a', 't', 'a',
        ';', ' ', 'b', 'o', 'u', 'n', 'd', 'a', 'r', 'y', '=',
    ]
}

/// The body of fields `fs` with boundary `b`: each field after a delimiter
/// line, then the closing delimiter.
pub open spec fn body_text(fs: Seq<(Seq<char>, Seq<char>)>, b: Seq<char>) -> Seq<char>
    decreases fs.len(),
{
    if fs.len() == 0 {
        seq!['\r', '\n', '-', '-'] + b + seq!['-', '-']
    } else {
        field_text(fs[0], b) + body_text(fs.drop_first(), b)
    }
}

/// One field of a body: the delimiter line, its disposition, an empty line
/// and its value.
pub open spec fn field_text(f: (Seq<char>, Seq<char>), b: Seq<char>) -> Seq<char> {
    seq!['\r', '\n', '-', '-'] + b + seq!['\r', '\n'] + seq![
        'C', 'o', 'n', 't', 'e', 'n', 't', '-', 'D', 'i', 's', 'p', 'o', 's', 'i', 't', 'i', 'o', 'n',
        ':', ' ', 'f', 'o', 'r', 'm', '-', 'd', 'a', 't', 'a', ';', ' ', 'n', 'a', 'm', 'e', '=', '"',
    ] + f.0 + seq!['"', '\r', '\n', '\r', '\n'] + f.1
}

impl Form {
    /// An empty form with a generated boundary.
    pub fn new() -> (res: Form)
        ensures
            is_generated_boundary(res.boundary@),
            res.fields@.len() == 0,
    {
        Form { boundary: Self::gen_boundary(), fields: Vec::new() }
    }

    /// The boundary made of the positions `idxs` in the alphabet: `quartz`,
    /// then the character of the alphabet at each position.
    pub fn boundary_from(idxs: &Vec<usize>) -> (res: String)
        requires
            valid_draws(idxs@),
        ensures
            res@ == boundary_of(idxs@),
    {
        proof {
            reveal_strlit("quartz");
            reveal_strlit("abcdefghijklmnopqrstuvwxyzABCDEFGHIJKLMNOPQRSTUVWXYZ0123456789");
        }
        let alphabet = chars_of("abcdefghijklmnopqrstuvwxyzABCDEFGHIJKLMNOPQRSTUVWXYZ0123456789");
        assert(alphabet@ =~= boundary_alphabet());
        let mut boundary = owned("quartz");
        let mut k: usize = 0;
        while k < 16
            invariant
                k <= 16,
                valid_draws(idxs@),
                alphabet@ == boundary_alphabet(),
                boundary@ == quartz_text() + idxs@.take(k as int).map_values(
                    |x: usize| boundary_alphabet()[x as int],
                ),
            decreases 16 - k,
        {
            let idx = idxs[k];
            assert(idxs@[k as int] <= 61);
            let c = alphabet[idx];
            let ghost before = boundary@;
            push_char(&mut boundary, c);
            assert(idxs@.take(k + 1) =~= idxs@.take(k as int).push(idx));
            assert(boundary@ =~= quartz_text() + idxs@.take(k + 1).map_values(
                |x: usize| boundary_alphabet()[x as int],
            ));
            k = k + 1;
        }
        assert(idxs@.take(16) =~= idxs@);
        boundary
    }

    /// A boundary: `quartz` and the characters at sixteen positions drawn at
    /// random in the alphabet.
    pub fn gen_boundary() -> (res: String)
        ensures
            is_generated_boundary(res@),
    {
        let mut idxs: Vec<usize> = Vec::new();
        while idxs.len() < 16
            invariant
                idxs@.len() <= 16,
                forall|i: int| 0 <= i < idxs@.len() ==> #[trigger] idxs@[i] <= 61,
            decreases 16 - idxs@.len(),
        {
            idxs.push(random_index());
        }
        let res = Self::boundary_from(&idxs);
        assert(valid_draws(idxs@) && res@ == boundary_of(idxs@));
        res
    }

    /// Adds the field of the `key=value` pair `input`; when its name or
    /// value holds the boundary, a new boundary is generated.
    pub fn insert(&mut self, input: &str)
        requires
            spec_eq_pair(input@) is Some,
        ensures
            field_views(final(self).fields@) == field_views(old(self).fields@).push(spec_eq_pair(input@)->0),
            ({
                let (n, v) = spec_eq_pair(input@)->0;
                if contains_sub(n, old(self).boundary@) || contains_sub(v, old(self).boundary@) {
                    is_generated_boundary(final(self).boundary@)
                } else {
                    final(self).boundary == old(self).boundary
                }
            }),
    {
        let (name, value) = match eq_pair(input) {
            Some(p) => p,
            None => (String::new(), String::new()),
        };
        if contains_str(name.as_str(), self.boundary.as_str()) || contains_str(value.as_str(), self.boundary.as_str()) {
            self.boundary = Self::gen_boundary();
        }
        let ghost before = self.fields@;
        self.fields.push(Field { name, value });
        assert(field_views(self.fields@) =~= field_views(before).push(spec_eq_pair(input@)->0));
    }

    /// The boundary.
    pub fn boundary(&self) -> (res: &str)
        ensures
            res@ == self.boundary@,
    {
        self.boundary.as_str()
    }

    /// The `Content-Type` of the form's body.
    pub fn content_type(&self) -> (res: String)
        ensures
            res@ == content_type_prefix() + self.boundary@,
    {
        proof {
            reveal_strlit("multipart/form-data; boundary=");
        }
        let mut r = owned("multipart/form-data; boundary=");
        push_str(&mut r, self.boundary.as_str());
        assert(r@ =~= content_type_prefix() + self.boundary@);
        r
    }

    /// The body of the form.
    pub fn into_body(self) -> (res: String)
        ensures
            res@ == body_text(field_views(self.fields@), self.boundary@),
    {
        let ghost fs = field_views(self.fields@);
        let ghost b = self.boundary@;
        let mut result = String::new();
        let mut i: usize = 0;
        assert(fs.skip(0) =~= fs);
        assert(result@ + body_text(fs.skip(0), b) =~= body_text(fs, b));
        while i < self.fields.len()
            invariant
                i <= self.fields@.len(),
                fs == field_views(self.fields@),
                b == self.boundary@,
                result@ + body_text(fs.skip(i as int), b) == body_text(fs, b),
            decreases self.fields.len() - i,
        {
            let ghost before = result@;
            push_str(&mut result, "\r\n");
            push_str(&mut result, "--");
            push_str(&mut result, self.boundary.as_str());
            push_str(&mut result, "\r\n");
            push_str(&mut result, "Content-Disposition: form-data; name=\"");
            push_str(&mut result, self.fields[i].name.as_str());
            push_str(&mut result, "\"");
            push_str(&mut result, "\r\n\r\n");
            push_str(&mut result, self.fields[i].value.as_str());
            proof {
                reveal_strlit("\r\n");
                reveal_strlit("--");
                reveal_strlit("Content-Disposition: form-data; name=\"");
                reveal_strlit("\"");
                reveal_strlit("\r\n\r\n");
                assert(fs.skip(i as int)[0] == fs[i as int]);
                assert(fs.skip(i as int).drop_first() =~= fs.skip(i + 1));
                assert(result@ =~= before + field_text(fs[i as int], b));
            }
            i = i + 1;
        }
        let ghost before = result@;
        push_str(&mut result, "\r\n");
        push_str(&mut result, "--");
        push_str(&mut result, self.boundary.as_str());
        push_str(&mut result, "--");
        proof {
            reveal_strlit("\r\n");
            reveal_strlit("--");
            assert(fs.skip(self.fields@.len() as int) =~= Seq::<(Seq<char>, Seq<char>)>::empty());
            assert(result@ =~= before + body_text(Seq::empty(), b));
        }
        result
    }

    /// Reads a form back from its text: the boundary from its first
    /// non-empty line (without leading `--`), then its fields. When that
    /// boundary does not start with `quartz`, the form is empty, with a
    /// generated boundary, and a warning to report comes with it.
    ///
    /// Refused when the text has no non-empty line, or a field has no name.
    pub fn from(input: &str) -> (res: QuartzResult<(Form, Option<String>)>)
        ensures
            form_lines(input@).len() == 0 ==> res is Err,
            form_lines(input@).len() > 0 ==> ({
                let b = declared_boundary(input@);
                if !starts_with(b, quartz_text()) {
                    res matches Ok((f, w)) && is_generated_boundary(f.boundary@) && f.fields@.len() == 0
                        && (w matches Some(t) && t@ == bad_boundary_text(b))
                } else {
                    match parse_fields(form_lines(input@).drop_first(), b) {
                        Some(fs) => res matches Ok((f, w)) && f.boundary@ == b && field_views(f.fields@) == fs
                            && w is None,
                        None => res is Err,
                    }
                }
            }),
    {
        let all = lines(input);
        let ls = keep_non_empty(&all);
        let ghost lv = views(ls@);
        assert(lv == form_lines(input@));
        if ls.len() == 0 {
            return Err(refuse("invalid form", "", ""));
        }
        proof {
            reveal_strlit("--");
            reveal_strlit("quartz");
            assert("--"@ =~= dashes());
            assert("quartz"@ =~= quartz_text());
        }
        let boundary = trim_start_matches_str(ls[0].as_str(), "--");
        if !starts_with_str(boundary.as_str(), "quartz") {
            let mut w = concat3("invalid form. Expected boundary to start with 'quartz' but got '", boundary.as_str(), "'\n");
            proof {
                reveal_strlit("invalid form. Expected boundary to start with 'quartz' but got '");
                reveal_strlit("'\n");
                assert(w@ =~= bad_boundary_text(boundary@));
            }
            return Ok((Form::new(), Some(w)));
        }
        let ghost b = boundary@;
        assert(b == declared_boundary(input@));
        let n = ls.len();
        let mut fields: Vec<Field> = Vec::new();
        let mut j: usize = 1;
        while j < n
            invariant
                1 <= j <= n,
                n == ls@.len(),
                lv == views(ls@),
                lv == form_lines(input@),
                b == boundary@,
                b == declared_boundary(input@),
                starts_with(b, quartz_text()),
                match parse_fields(lv.skip(j as int), b) {
                    Some(rest) => parse_fields(lv.drop_first(), b) == Some(field_views(fields@) + rest),
                    None => parse_fields(lv.drop_first(), b) is None,
                },
            decreases n - j,
        {
            let line = ls[j].as_str();
            let ghost tail = lv.skip(j as int);
            assert(tail[0] == line@);
            assert(tail.drop_first() =~= lv.skip(j + 1));
            proof {
                reveal_strlit("--");
                reveal_strlit("Content-Disposition");
                reveal_strlit("name=");
                assert("--"@ =~= dashes());
                assert("Content-Disposition"@ =~= disposition());
                assert("name="@ =~= name_marker());
            }
            if starts_with_str(line, "--") {
                j = j + 1;
            } else if starts_with_str(line, "Content-Disposition") {
                let idx = match find_str(line, "name=") {
                    Some(i) => i,
                    None => {
                        assert(parse_fields(tail, b) is None);
                        return Err(refuse("malformed form field", "", ""));
                    },
                };
                proof {
                    crate::text::lemma_find_sub_props(line@, name_marker());
                }
                let lc = chars_of(line);
                let len = lc.len();
                assert(idx + 5 <= len);
                let raw = string_of_range(&lc, idx + 5, len);
                let name = trim_matches_char(raw.as_str(), '"');
                let mut k: usize = j + 1;
                proof {
                    lemma_value_len(lv.skip(j + 1), b);
                }
                while k < n && !contains_str(ls[k].as_str(), boundary.as_str())
                    invariant
                        j + 1 <= k <= n,
                        n == ls@.len(),
                        lv == views(ls@),
                        b == boundary@,
                        forall|m: int| j + 1 <= m < k ==> !contains_sub(#[trigger] lv[m], b),
                    decreases n - k,
                {
                    k = k + 1;
                }
                let ghost rest = lv.skip(j + 1);
                let ghost kk = (k - (j + 1)) as int;
                proof {
                    assert forall|m: int| 0 <= m < kk implies !contains_sub(#[trigger] rest[m], b) by {
                        assert(rest[m] == lv[j + 1 + m]);
                    }
                    lemma_value_len_exact(rest, b, kk);
                }
                let mut value_lines: Vec<String> = Vec::new();
                let mut m: usize = j + 1;
                while m < k
                    invariant
                        j + 1 <= m <= k <= n,
                        n == ls@.len(),
                        lv == views(ls@),
                        views(value_lines@) == lv.subrange(j + 1, m as int),
                    decreases k - m,
                {
                    let ghost before = views(value_lines@);
                    value_lines.push(ls[m].clone());
                    assert(views(value_lines@) =~= before.push(lv[m as int]));
                    assert(lv.subrange(j + 1, m + 1) =~= lv.subrange(j + 1, m as int).push(lv[m as int]));
                    m = m + 1;
                }
                let value = join_strings(&value_lines, "\n");
                proof {
                    reveal_strlit("\n");
                    assert("\n"@ =~= seq!['\n']);
                    assert(rest.take(kk) =~= lv.subrange(j + 1, k as int));
                    assert(raw@ =~= line@.subrange(find_sub(line@, name_marker()) + 5, line@.len() as int));
                }
                let ghost f = (name@, value@);
                let ghost before = fields@;
                fields.push(Field { name, value });
                let next = if k < n {
                    k + 1
                } else {
                    k
                };
                proof {
                    let after = if kk < rest.len() {
                        rest.skip(kk + 1)
                    } else {
                        rest.skip(kk)
                    };
                    assert(after =~= lv.skip(next as int));
                    assert(field_views(fields@) =~= field_views(before).push(f));
                    match parse_fields(lv.skip(next as int), b) {
                        Some(r2) => {
                            assert(field_views(before).push(f) + r2 =~= field_views(before) + (seq![f] + r2));
                        },
                        None => {},
                    }
                }
                j = next;
            } else {
                j = j + 1;
            }
        }
        assert(lv.skip(n as int) =~= Seq::<Seq<char>>::empty());
        assert(lv.skip(1) =~= lv.drop_first());
        assert(field_views(fields@) + Seq::<(Seq<char>, Seq<char>)>::empty() =~= field_views(fields@));
        Ok((Form { boundary, fields }, None))
    }
}

/// When the first `k` lines hold no `b` and the next one does (or there is
/// none), `value_len` is `k`.
proof fn lemma_value_len_exact(ls: Seq<Seq<char>>, b: Seq<char>, k: int)
    requires
        0 <= k <= ls.len(),
        forall|m: int| 0 <= m < k ==> !contains_sub(#[trigger] ls[m], b),
        k < ls.len() ==> contains_sub(ls[k], b),
    ensures
        value_len(ls, b) == k,
    decreases k,
{
    if k > 0 {
        assert forall|m: int| 0 <= m < k - 1 implies !contains_sub(#[trigger] ls.drop_first()[m], b) by {
            assert(ls.drop_first()[m] == ls[m + 1]);
        }
        if k - 1 < ls.drop_first().len() {
            assert(ls.drop_first()[k - 1] == ls[k]);
        }
        lemma_value_len_exact(ls.drop_first(), b, k - 1);
    }
}

} // verus!
