//! Character-level text operations with their mathematical meaning.
//!
//! Each executable function here works on the characters of a string and is
//! proved against a recursive spec function over `Seq<char>`.
use vstd::prelude::*;
use vstd::std_specs::iter::IteratorSpec;

verus! {

// ---------------------------------------------------------------------------
// Specifications
// ---------------------------------------------------------------------------
/// Index of the first `c` in `s`, or -1.
pub open spec fn idx_of(s: Seq<char>, c: char) -> int
    decreases s.len(),
{
    if s.len() == 0 {
        -1
    } else if s[0] == c {
        0
    } else {
        let r = idx_of(s.drop_first(), c);
        if r < 0 {
            -1
        } else {
            r + 1
        }
    }
}

/// `p` occurs in `s` at position `i`.
pub open spec fn matches_at(s: Seq<char>, p: Seq<char>, i: int) -> bool {
    0 <= i && i + p.len() <= s.len() && s.subrange(i, i + p.len()) == p
}

/// Index of the first occurrence of `p` in `s`, or -1.
pub open spec fn find_sub(s: Seq<char>, p: Seq<char>) -> int
    decreases s.len(),
{
    if s.len() < p.len() {
        -1
    } else if s.take(p.len() as int) == p {
        0
    } else if s.len() == 0 {
        -1
    } else {
        let r = find_sub(s.drop_first(), p);
        if r < 0 {
            -1
        } else {
            r + 1
        }
    }
}

/// `p` occurs somewhere in `s`.
pub open spec fn contains_sub(s: Seq<char>, p: Seq<char>) -> bool {
    find_sub(s, p) >= 0
}

/// `p` is a prefix of `s`.
pub open spec fn starts_with(s: Seq<char>, p: Seq<char>) -> bool {
    p.len() <= s.len() && s.take(p.len() as int) == p
}

/// `p` is a suffix of `s`.
pub open spec fn ends_with(s: Seq<char>, p: Seq<char>) -> bool {
    p.len() <= s.len() && s.skip(s.len() - p.len()) == p
}

/// The two sides of the first `c` in `s`, if there is one.
pub open spec fn split_once_char(s: Seq<char>, c: char) -> Option<(Seq<char>, Seq<char>)> {
    let i = idx_of(s, c);
    if i < 0 {
        None
    } else {
        Some((s.take(i), s.skip(i + 1)))
    }
}

/// The two sides of the first occurrence of `p` in `s`, if there is one.
pub open spec fn split_once_sub(s: Seq<char>, p: Seq<char>) -> Option<(Seq<char>, Seq<char>)> {
    let i = find_sub(s, p);
    if i < 0 {
        None
    } else {
        Some((s.take(i), s.skip(i + p.len())))
    }
}

/// `s` with `w` before each character and at the end, which is what
/// replacing the empty text gives.
pub open spec fn replace_empty(s: Seq<char>, w: Seq<char>) -> Seq<char>
    decreases s.len(),
{
    if s.len() == 0 {
        w
    } else {
        w + seq![s[0]] + replace_empty(s.drop_first(), w)
    }
}

/// `s` with every non-overlapping occurrence of `p`, taken from the left,
/// replaced by `w`; an empty `p` occurs before each character and at the
/// end (`str::replace`).
pub open spec fn replace_all(s: Seq<char>, p: Seq<char>, w: Seq<char>) -> Seq<char>
    decreases s.len(),
{
    if p.len() == 0 {
        replace_empty(s, w)
    } else if s.len() < p.len() {
        s
    } else if s.take(p.len() as int) == p {
        w + replace_all(s.skip(p.len() as int), p, w)
    } else {
        seq![s[0]] + replace_all(s.drop_first(), p, w)
    }
}

/// The pieces of `s` between the occurrences of `c` (at least one piece).
pub open spec fn split_on(s: Seq<char>, c: char) -> Seq<Seq<char>>
    decreases s.len(),
{
    if s.len() == 0 {
        seq![Seq::<char>::empty()]
    } else {
        let p = split_on(s.drop_last(), c);
        if s.last() == c {
            p.push(Seq::<char>::empty())
        } else {
            p.update(p.len() - 1, p.last().push(s.last()))
        }
    }
}

/// The pieces of `ps` with `sep` between each two of them.
pub open spec fn join_with(ps: Seq<Seq<char>>, sep: Seq<char>) -> Seq<char>
    decreases ps.len(),
{
    if ps.len() == 0 {
        Seq::<char>::empty()
    } else if ps.len() == 1 {
        ps[0]
    } else {
        join_with(ps.drop_last(), sep) + sep + ps.last()
    }
}

/// The non-empty pieces of `ps`, in order.
pub open spec fn non_empty(ps: Seq<Seq<char>>) -> Seq<Seq<char>>
    decreases ps.len(),
{
    if ps.len() == 0 {
        ps
    } else if ps.last().len() == 0 {
        non_empty(ps.drop_last())
    } else {
        non_empty(ps.drop_last()).push(ps.last())
    }
}

/// Unicode `White_Space` characters, which `str::trim` removes.
pub open spec fn is_ws(c: char) -> bool {
    ||| '\u{9}' <= c <= '\u{d}'
    ||| c == ' '
    ||| c == '\u{85}'
    ||| c == '\u{a0}'
    ||| c == '\u{1680}'
    ||| '\u{2000}' <= c <= '\u{200a}'
    ||| c == '\u{2028}'
    ||| c == '\u{2029}'
    ||| c == '\u{202f}'
    ||| c == '\u{205f}'
    ||| c == '\u{3000}'
}

/// `s` without its leading characters that satisfy `f`.
pub open spec fn trim_start_by(s: Seq<char>, f: spec_fn(char) -> bool) -> Seq<char>
    decreases s.len(),
{
    if s.len() > 0 && f(s[0]) {
        trim_start_by(s.drop_first(), f)
    } else {
        s
    }
}

/// `s` without its trailing characters that satisfy `f`.
pub open spec fn trim_end_by(s: Seq<char>, f: spec_fn(char) -> bool) -> Seq<char>
    decreases s.len(),
{
    if s.len() > 0 && f(s.last()) {
        trim_end_by(s.drop_last(), f)
    } else {
        s
    }
}

/// `s` without leading and trailing characters that satisfy `f`.
pub open spec fn trim_by(s: Seq<char>, f: spec_fn(char) -> bool) -> Seq<char> {
    trim_end_by(trim_start_by(s, f), f)
}

/// `s` without leading and trailing whitespace (`str::trim`).
pub open spec fn trim_ws(s: Seq<char>) -> Seq<char> {
    trim_by(s, |c: char| is_ws(c))
}

/// `s` without leading and trailing `c` (`str::trim_matches` with a char).
pub open spec fn trim_char(s: Seq<char>, c: char) -> Seq<char> {
    trim_by(s, is_char(c))
}

/// The test for the character `c`.
pub open spec fn is_char(c: char) -> spec_fn(char) -> bool {
    |x: char| x == c
}

/// `s` without any repetition of the non-empty prefix `p`
/// (`str::trim_start_matches` with a string).
pub open spec fn trim_prefix_all(s: Seq<char>, p: Seq<char>) -> Seq<char>
    decreases s.len(),
{
    if p.len() > 0 && starts_with(s, p) {
        trim_prefix_all(s.skip(p.len() as int), p)
    } else {
        s
    }
}

/// The ASCII lower-case of one character.
pub open spec fn lower_char(c: char) -> char {
    if 'A' <= c <= 'Z' {
        ((c as u32) + 32) as char
    } else {
        c
    }
}

/// `str::to_ascii_lowercase`.
pub open spec fn lower_ascii(s: Seq<char>) -> Seq<char> {
    s.map_values(|c: char| lower_char(c))
}

/// One line as `str::lines` yields it: without a final carriage return.
pub open spec fn strip_cr(s: Seq<char>) -> Seq<char> {
    if s.len() > 0 && s.last() == '\r' {
        s.drop_last()
    } else {
        s
    }
}

/// `str::lines`: the pieces between line feeds, without a last empty piece,
/// each without a final carriage return.
pub open spec fn lines_of(s: Seq<char>) -> Seq<Seq<char>> {
    if s.len() == 0 {
        Seq::empty()
    } else {
        let ps = split_on(s, '\n');
        let qs = if ps.last().len() == 0 {
            ps.drop_last()
        } else {
            ps
        };
        qs.map_values(|l: Seq<char>| strip_cr(l))
    }
}

/// The decimal digit for `d` (0 to 9).
pub open spec fn digit_char(d: nat) -> char {
    ((48 + d) as u32) as char
}

/// The decimal representation of `n`, without leading zeros.
pub open spec fn dec(n: nat) -> Seq<char>
    decreases n,
{
    if n < 10 {
        seq![digit_char(n)]
    } else {
        dec(n / 10).push(digit_char(n % 10))
    }
}

/// How an `i64` is written (`to_string`).
pub open spec fn int_text(n: int) -> Seq<char> {
    if n < 0 {
        seq!['-'] + dec((-n) as nat)
    } else {
        dec(n as nat)
    }
}

/// `c` is an ASCII digit.
pub open spec fn is_digit(c: char) -> bool {
    '0' <= c <= '9'
}

/// Every character of `s` is an ASCII digit.
pub open spec fn all_digits(s: Seq<char>) -> bool {
    forall|i: int| 0 <= i < s.len() ==> is_digit(#[trigger] s[i])
}

/// The value of a string of decimal digits.
pub open spec fn digits_val(s: Seq<char>) -> nat
    decreases s.len(),
{
    if s.len() == 0 {
        0
    } else {
        (digits_val(s.drop_last()) * 10 + ((s.last() as u32) - 48)) as nat
    }
}

/// What `str::parse::<i64>` gives: an optional sign, then one or more
/// digits, within the range of `i64`.
pub open spec fn parse_int(s: Seq<char>) -> Option<i64> {
    let neg = s.len() > 0 && s[0] == '-';
    let body = if s.len() > 0 && (s[0] == '-' || s[0] == '+') {
        s.drop_first()
    } else {
        s
    };
    if body.len() == 0 || !all_digits(body) {
        None
    } else {
        let v: int = if neg {
            -digits_val(body)
        } else {
            digits_val(body) as int
        };
        if i64::MIN <= v <= i64::MAX {
            Some(v as i64)
        } else {
            None
        }
    }
}

/// The views of a sequence of strings.
pub open spec fn views(v: Seq<String>) -> Seq<Seq<char>> {
    v.map_values(|x: String| x@)
}

// ---------------------------------------------------------------------------
// Lemmas
// ---------------------------------------------------------------------------
/// The first `c` lies after a prefix free of `c`.
pub proof fn lemma_idx_of(s: Seq<char>, c: char, i: int)
    requires
        0 <= i <= s.len(),
        forall|j: int| 0 <= j < i ==> s[j] != c,
    ensures
        i < s.len() && s[i] == c ==> idx_of(s, c) == i,
        i == s.len() ==> idx_of(s, c) == -1,
    decreases i,
{
    if i > 0 {
        lemma_idx_of(s.drop_first(), c, i - 1);
    }
}

/// What `idx_of` says about `s`.
pub proof fn lemma_idx_of_props(s: Seq<char>, c: char)
    ensures
        -1 <= idx_of(s, c) < s.len(),
        idx_of(s, c) >= 0 ==> s[idx_of(s, c)] == c,
        forall|j: int| 0 <= j < s.len() && (idx_of(s, c) < 0 || j < idx_of(s, c)) ==> s[j] != c,
    decreases s.len(),
{
    if s.len() > 0 {
        lemma_idx_of_props(s.drop_first(), c);
        assert forall|j: int| 0 <= j < s.len() && (idx_of(s, c) < 0 || j < idx_of(s, c)) implies s[j]
            != c by {
            if j > 0 {
                assert(s[j] == s.drop_first()[j - 1]);
            }
        }
    }
}

/// The first occurrence of `p` lies after a prefix free of it.
pub proof fn lemma_find_sub(s: Seq<char>, p: Seq<char>, i: int)
    requires
        0 <= i,
        forall|j: int| 0 <= j < i ==> !matches_at(s, p, j),
    ensures
        matches_at(s, p, i) ==> find_sub(s, p) == i,
        i + p.len() > s.len() ==> find_sub(s, p) == -1,
    decreases i,
{
    if s.len() >= p.len() {
        assert(s.take(p.len() as int) =~= s.subrange(0, p.len() as int));
        if p.len() == 0 {
            assert(s.subrange(0, 0) =~= p);
        }
        if i > 0 {
            assert(!matches_at(s, p, 0));
            assert(s.len() > 0);
            let t = s.drop_first();
            assert forall|j: int| 0 <= j < i - 1 implies !matches_at(t, p, j) by {
                assert(!matches_at(s, p, j + 1));
                if j + p.len() <= t.len() {
                    assert(t.subrange(j, j + p.len()) =~= s.subrange(j + 1, j + 1 + p.len()));
                }
            }
            lemma_find_sub(t, p, i - 1);
            if matches_at(s, p, i) {
                assert(t.subrange(i - 1, i - 1 + p.len()) =~= s.subrange(i, i + p.len()));
            }
        }
    }
}

/// What `find_sub` says about `s`.
pub proof fn lemma_find_sub_props(s: Seq<char>, p: Seq<char>)
    ensures
        find_sub(s, p) >= 0 ==> matches_at(s, p, find_sub(s, p)),
        forall|j: int| 0 <= j && (find_sub(s, p) < 0 || j < find_sub(s, p)) ==> !matches_at(s, p, j),
    decreases s.len(),
{
    if s.len() >= p.len() {
        assert(s.take(p.len() as int) =~= s.subrange(0, p.len() as int));
        if p.len() == 0 {
            assert(s.subrange(0, 0) =~= p);
        }
        if s.take(p.len() as int) != p && s.len() > 0 {
            let t = s.drop_first();
            lemma_find_sub_props(t, p);
            let r = find_sub(t, p);
            if r >= 0 {
                assert(t.subrange(r, r + p.len()) =~= s.subrange(r + 1, r + 1 + p.len()));
            }
            assert forall|j: int| 0 <= j && (find_sub(s, p) < 0 || j < find_sub(s, p)) implies !matches_at(
                s,
                p,
                j,
            ) by {
                if j > 0 {
                    assert(!matches_at(t, p, j - 1));
                    if j + p.len() <= s.len() {
                        assert(t.subrange(j - 1, j - 1 + p.len()) =~= s.subrange(j, j + p.len()));
                    }
                }
            }
        }
    }
}

/// `split_on` always gives at least one piece.
pub proof fn lemma_split_on_len(s: Seq<char>, c: char)
    ensures
        split_on(s, c).len() >= 1,
    decreases s.len(),
{
    if s.len() > 0 {
        lemma_split_on_len(s.drop_last(), c);
    }
}

/// No piece of `split_on(s, c)` holds `c`.
pub proof fn lemma_split_on_pieces(s: Seq<char>, c: char)
    ensures
        forall|k: int| 0 <= k < split_on(s, c).len() ==> !(#[trigger] split_on(s, c)[k]).contains(c),
    decreases s.len(),
{
    lemma_split_on_len(s, c);
    if s.len() > 0 {
        lemma_split_on_pieces(s.drop_last(), c);
        lemma_split_on_len(s.drop_last(), c);
        let p = split_on(s.drop_last(), c);
        if s.last() != c {
            assert forall|k: int| 0 <= k < split_on(s, c).len() implies !(
            #[trigger] split_on(s, c)[k]).contains(c) by {
                if k == p.len() - 1 {
                    let q = p.last().push(s.last());
                    assert(split_on(s, c)[k] == q);
                    if q.contains(c) {
                        let j = choose|j: int| 0 <= j < q.len() && q[j] == c;
                        if j < p.last().len() {
                            assert(p.last()[j] == c);
                        }
                    }
                }
            }
        } else {
            assert forall|k: int| 0 <= k < split_on(s, c).len() implies !(
            #[trigger] split_on(s, c)[k]).contains(c) by {
                if k < p.len() {
                    assert(split_on(s, c)[k] == p[k]);
                }
            }
        }
    }
}

/// Appending to the last piece appends to the joined text.
pub proof fn lemma_join_push_last(ps: Seq<Seq<char>>, sep: Seq<char>, x: char)
    requires
        ps.len() >= 1,
    ensures
        join_with(ps.update(ps.len() - 1, ps.last().push(x)), sep) == join_with(ps, sep).push(x),
{
    let qs = ps.update(ps.len() - 1, ps.last().push(x));
    if ps.len() == 1 {
    } else {
        assert(qs.drop_last() =~= ps.drop_last());
        assert(join_with(qs, sep) == join_with(ps.drop_last(), sep) + sep + ps.last().push(x));
        assert(join_with(qs, sep) =~= join_with(ps, sep).push(x));
    }
}

/// Splitting at `c` and joining with `c` gives back the text.
pub proof fn lemma_join_split(s: Seq<char>, c: char)
    ensures
        join_with(split_on(s, c), seq![c]) == s,
    decreases s.len(),
{
    if s.len() > 0 {
        lemma_join_split(s.drop_last(), c);
        lemma_split_on_len(s.drop_last(), c);
        let p = split_on(s.drop_last(), c);
        if s.last() == c {
            assert(p.push(Seq::<char>::empty()).drop_last() =~= p);
            assert(join_with(p.push(Seq::<char>::empty()), seq![c]) =~= s);
        } else {
            lemma_join_push_last(p, seq![c], s.last());
            assert(s.drop_last().push(s.last()) =~= s);
        }
    }
}

/// Joining with `c` pieces free of `c`, then splitting at `c`, gives back the
/// pieces.
pub proof fn lemma_split_join(ps: Seq<Seq<char>>, c: char)
    requires
        ps.len() >= 1,
        forall|k: int| 0 <= k < ps.len() ==> !(#[trigger] ps[k]).contains(c),
    ensures
        split_on(join_with(ps, seq![c]), c) == ps,
    decreases ps.len(), ps.last().len(),
{
    if ps.last().len() > 0 {
        // remove the last character of the last piece
        let l = ps.last();
        let qs = ps.update(ps.len() - 1, l.drop_last());
        assert(qs.len() == ps.len());
        assert forall|k: int| 0 <= k < qs.len() implies !(#[trigger] qs[k]).contains(c) by {
            if k == ps.len() - 1 {
                if l.drop_last().contains(c) {
                    let j = choose|j: int| 0 <= j < l.drop_last().len() && l.drop_last()[j] == c;
                    assert(l[j] == c);
                }
            } else {
                assert(qs[k] == ps[k]);
            }
        }
        lemma_split_join(qs, c);
        lemma_join_push_last(qs, seq![c], l.last());
        assert(l.drop_last().push(l.last()) =~= l);
        assert(qs.update(qs.len() - 1, qs.last().push(l.last())) =~= ps);
        let j = join_with(ps, seq![c]);
        assert(j == join_with(qs, seq![c]).push(l.last()));
        assert(j.drop_last() =~= join_with(qs, seq![c]));
        assert(l.last() != c) by {
            assert(l[l.len() - 1] == l.last());
        }
        assert(split_on(j, c) == qs.update(qs.len() - 1, qs.last().push(l.last())));
    } else if ps.len() == 1 {
        assert(ps[0] =~= Seq::<char>::empty());
        assert(ps =~= seq![Seq::<char>::empty()]);
    } else {
        let qs = ps.drop_last();
        assert forall|k: int| 0 <= k < qs.len() implies !(#[trigger] qs[k]).contains(c) by {
            assert(qs[k] == ps[k]);
        }
        lemma_split_join(qs, c);
        let j = join_with(ps, seq![c]);
        assert(j =~= join_with(qs, seq![c]).push(c));
        assert(j.drop_last() =~= join_with(qs, seq![c]));
        assert(ps.last() =~= Seq::<char>::empty());
        assert(split_on(j, c) =~= qs.push(Seq::<char>::empty()));
        assert(qs.push(Seq::<char>::empty()) =~= ps);
    }
}

/// `trim_start_by` drops exactly a prefix of characters that satisfy `f`.
pub proof fn lemma_trim_start(s: Seq<char>, f: spec_fn(char) -> bool, a: int)
    requires
        0 <= a <= s.len(),
        forall|j: int| 0 <= j < a ==> f(s[j]),
        a == s.len() || !f(s[a]),
    ensures
        trim_start_by(s, f) == s.skip(a),
    decreases a,
{
    if a == 0 {
        assert(s.skip(0) =~= s);
    } else {
        lemma_trim_start(s.drop_first(), f, a - 1);
        assert(s.drop_first().skip(a - 1) =~= s.skip(a));
    }
}

/// `trim_end_by` drops exactly a suffix of characters that satisfy `f`.
pub proof fn lemma_trim_end(s: Seq<char>, f: spec_fn(char) -> bool, b: int)
    requires
        0 <= b <= s.len(),
        forall|j: int| b <= j < s.len() ==> f(s[j]),
        b == 0 || !f(s[b - 1]),
    ensures
        trim_end_by(s, f) == s.take(b),
    decreases s.len() - b,
{
    if b == s.len() {
        assert(s.take(b) =~= s);
    } else {
        lemma_trim_end(s.drop_last(), f, b);
        assert(s.drop_last().take(b) =~= s.take(b));
    }
}

/// Digits of a number are digits.
pub proof fn lemma_dec(n: nat)
    ensures
        dec(n).len() >= 1,
        all_digits(dec(n)),
        digits_val(dec(n)) == n,
        n > 0 ==> dec(n)[0] != '0',
    decreases n,
{
    let k = (n % 10) as nat;
    assert((digit_char(k) as u32) == 48 + k);
    if n < 10 {
        let e = dec(n);
        assert(e == seq![digit_char(n)]);
        assert(e.drop_last() =~= Seq::<char>::empty());
        assert(digits_val(e.drop_last()) == 0);
        assert(e.last() == digit_char(k));
        assert(digits_val(e) == k);
    } else {
        lemma_dec(n / 10);
        let d = dec(n / 10);
        let e = d.push(digit_char(k));
        assert(e.drop_last() =~= d);
        assert(e.last() == digit_char(k));
        assert(digits_val(e) == digits_val(d) * 10 + k);
        assert(n == (n / 10) * 10 + k);
        assert forall|i: int| 0 <= i < e.len() implies is_digit(#[trigger] e[i]) by {
            if i < d.len() {
                assert(e[i] == d[i]);
            }
        }
    }
}

/// The value of a digit string grows when a digit is appended.
pub proof fn lemma_digits_val_grows(s: Seq<char>, i: int)
    requires
        0 <= i <= s.len(),
        all_digits(s),
    ensures
        digits_val(s.take(i)) <= digits_val(s),
    decreases s.len() - i,
{
    if i < s.len() {
        lemma_digits_val_grows(s, i + 1);
        assert(s.take(i + 1).drop_last() =~= s.take(i));
        assert(is_digit(s[i]));
    } else {
        assert(s.take(i) =~= s);
    }
}

/// Reading back a written `i64` gives the same number.
pub proof fn lemma_parse_int_text(n: i64)
    ensures
        parse_int(int_text(n as int)) == Some(n),
{
    if n < 0 {
        let m = (-(n as int)) as nat;
        lemma_dec(m);
        let t = int_text(n as int);
        assert(t.drop_first() =~= dec(m));
        assert(t[0] == '-');
    } else {
        lemma_dec(n as nat);
        let t = int_text(n as int);
        assert(t[0] != '-' && t[0] != '+') by {
            assert(is_digit(t[0]));
        }
    }
}

// ---------------------------------------------------------------------------
// Executable functions
// ---------------------------------------------------------------------------
/// Appends one character to a string.
///
/// Trusted: calls `String::push`, which std documents as appending the
/// character to the end of the string.
#[verifier::external_body]
pub(crate) fn push_char(s: &mut String, c: char)
    ensures
        final(s)@ == old(s)@.push(c),
{
    s.push(c);
}

/// The characters of `s`, in order.
pub fn chars_of(s: &str) -> (res: Vec<char>)
    ensures
        res@ == s@,
{
    let mut it = s.chars();
    let mut res: Vec<char> = Vec::new();
    loop
        invariant
            res@ + it.remaining() == s@,
            it.decrease() is Some,
        decreases it.decrease()->0,
    {
        let ghost before = it.remaining();
        match it.next() {
            Some(c) => {
                res.push(c);
                assert(res@ + it.remaining() =~= s@) by {
                    assert(before == seq![c] + it.remaining());
                }
            },
            None => {
                assert(res@ =~= s@);
                return res;
            },
        }
    }
}

/// A string holding the characters of `v`, in order.
pub fn string_of(v: &Vec<char>) -> (res: String)
    ensures
        res@ == v@,
{
    string_of_range(v, 0, v.len())
}

/// A string holding the characters of `v` from `from` up to `to`.
pub fn string_of_range(v: &Vec<char>, from: usize, to: usize) -> (res: String)
    requires
        from <= to <= v.len(),
    ensures
        res@ == v@.subrange(from as int, to as int),
{
    let mut res = String::new();
    let mut i: usize = from;
    while i < to
        invariant
            from <= i <= to <= v.len(),
            res@ == v@.subrange(from as int, i as int),
        decreases to - i,
    {
        push_char(&mut res, v[i]);
        assert(v@.subrange(from as int, i + 1) =~= v@.subrange(from as int, i as int).push(
            v@[i as int],
        ));
        i = i + 1;
    }
    res
}

/// A copy of `s` as an owned string.
pub fn owned(s: &str) -> (res: String)
    ensures
        res@ == s@,
{
    s.to_owned()
}

/// Appends `t` to `s`.
pub fn push_str(s: &mut String, t: &str)
    ensures
        final(s)@ == old(s)@ + t@,
{
    let v = chars_of(t);
    let mut i: usize = 0;
    while i < v.len()
        invariant
            i <= v.len(),
            v@ == t@,
            s@ == old(s)@ + v@.take(i as int),
        decreases v.len() - i,
    {
        push_char(s, v[i]);
        assert(v@.take(i + 1) =~= v@.take(i as int).push(v@[i as int]));
        i = i + 1;
    }
    assert(v@.take(v.len() as int) =~= v@);
}

/// `a`, `b` and `c` one after the other.
pub fn concat3(a: &str, b: &str, c: &str) -> (res: String)
    ensures
        res@ == a@ + b@ + c@,
{
    let mut s = owned(a);
    push_str(&mut s, b);
    push_str(&mut s, c);
    s
}

/// `a` and `b` hold the same characters.
pub fn str_eq(a: &str, b: &str) -> (res: bool)
    ensures
        res == (a@ == b@),
{
    let x = chars_of(a);
    let y = chars_of(b);
    vec_eq(&x, &y)
}

/// `x` and `y` hold the same characters.
pub fn vec_eq(x: &Vec<char>, y: &Vec<char>) -> (res: bool)
    ensures
        res == (x@ == y@),
{
    if x.len() != y.len() {
        return false;
    }
    let mut i: usize = 0;
    while i < x.len()
        invariant
            i <= x.len() == y.len(),
            forall|j: int| 0 <= j < i ==> x@[j] == y@[j],
        decreases x.len() - i,
    {
        if x[i] != y[i] {
            return false;
        }
        i = i + 1;
    }
    assert(x@ =~= y@);
    true
}

/// Index of the first `c` in `v` at or after `from`, or `v.len()`.
fn find_char_from(v: &Vec<char>, c: char, from: usize) -> (res: usize)
    requires
        from <= v.len(),
    ensures
        from <= res <= v.len(),
        res < v.len() ==> v@[res as int] == c,
        forall|j: int| from <= j < res ==> v@[j] != c,
{
    let mut i = from;
    while i < v.len()
        invariant
            from <= i <= v.len(),
            forall|j: int| from <= j < i ==> v@[j] != c,
        decreases v.len() - i,
    {
        if v[i] == c {
            return i;
        }
        i = i + 1;
    }
    i
}

/// `p` occurs in `v` at position `i`.
fn matches_at_exec(v: &Vec<char>, p: &Vec<char>, i: usize) -> (res: bool)
    ensures
        res == matches_at(v@, p@, i as int),
{
    if i > v.len() || p.len() > v.len() - i {
        return false;
    }
    let mut k: usize = 0;
    while k < p.len()
        invariant
            i + p.len() <= v.len(),
            k <= p.len(),
            forall|j: int| 0 <= j < k ==> v@[i + j] == p@[j],
        decreases p.len() - k,
    {
        if v[i + k] != p[k] {
            assert(v@.subrange(i as int, i + p.len())[k as int] != p@[k as int]);
            return false;
        }
        k = k + 1;
    }
    assert(v@.subrange(i as int, i + p.len()) =~= p@);
    true
}

/// Index of the first occurrence of `p` in `v` at or after `from`, if any.
fn find_sub_from(v: &Vec<char>, p: &Vec<char>, from: usize) -> (res: Option<usize>)
    ensures
        forall|j: int| from <= j && (res is None || j < res->0) ==> !matches_at(v@, p@, j),
        res matches Some(i) ==> from <= i && matches_at(v@, p@, i as int),
{
    if p.len() > v.len() {
        return None;
    }
    let mut i = from;
    while i <= v.len() - p.len()
        invariant
            p.len() <= v.len(),
            from <= i,
            forall|j: int| from <= j < i ==> !matches_at(v@, p@, j),
        decreases v.len() - p.len() + 1 - i,
    {
        if matches_at_exec(v, p, i) {
            return Some(i);
        }
        if p.len() == 0 {
            assert(v@.subrange(i as int, i as int) =~= p@);
        }
        i = i + 1;
    }
    None
}

/// Index of the first occurrence of `p` in `s`, if any.
pub fn find_str(s: &str, p: &str) -> (res: Option<usize>)
    ensures
        res is None <==> find_sub(s@, p@) < 0,
        res matches Some(i) ==> i == find_sub(s@, p@),
{
    let v = chars_of(s);
    let q = chars_of(p);
    let r = find_sub_from(&v, &q, 0);
    match r {
        Some(i) => {
            proof {
                lemma_find_sub(s@, p@, i as int);
            }
        },
        None => {
            proof {
                lemma_find_sub_props(s@, p@);
            }
        },
    }
    r
}

/// `p` occurs in `s` (`str::contains` with a string).
pub fn contains_str(s: &str, p: &str) -> (res: bool)
    ensures
        res == contains_sub(s@, p@),
{
    find_str(s, p).is_some()
}

/// `c` occurs in `s` (`str::contains` with a char).
pub fn contains_char(s: &str, c: char) -> (res: bool)
    ensures
        res == s@.contains(c),
{
    let v = chars_of(s);
    let i = find_char_from(&v, c, 0);
    if i < v.len() {
        true
    } else {
        assert(!v@.contains(c));
        false
    }
}

/// `s` starts with `p`.
pub fn starts_with_str(s: &str, p: &str) -> (res: bool)
    ensures
        res == starts_with(s@, p@),
{
    let v = chars_of(s);
    let q = chars_of(p);
    let r = matches_at_exec(&v, &q, 0);
    assert(r == starts_with(s@, p@)) by {
        if p@.len() <= s@.len() {
            assert(s@.take(p@.len() as int) =~= s@.subrange(0, p@.len() as int));
        }
    }
    r
}

/// `s` ends with `p`.
pub fn ends_with_str(s: &str, p: &str) -> (res: bool)
    ensures
        res == ends_with(s@, p@),
{
    let v = chars_of(s);
    let q = chars_of(p);
    if q.len() > v.len() {
        return false;
    }
    let r = matches_at_exec(&v, &q, v.len() - q.len());
    assert(r == ends_with(s@, p@)) by {
        assert(s@.skip(s@.len() - p@.len()) =~= s@.subrange(
            s@.len() - p@.len(),
            s@.len() as int,
        ));
    }
    r
}

/// The two sides of the first `c` in `s` (`str::split_once` with a char).
pub fn split_once_at_char(s: &str, c: char) -> (res: Option<(String, String)>)
    ensures
        match split_once_char(s@, c) {
            Some((a, b)) => res matches Some((x, y)) && x@ == a && y@ == b,
            None => res is None,
        },
{
    let v = chars_of(s);
    let i = find_char_from(&v, c, 0);
    proof {
        lemma_idx_of(s@, c, i as int);
    }
    if i < v.len() {
        let a = string_of_range(&v, 0, i);
        let b = string_of_range(&v, i + 1, v.len());
        assert(a@ =~= s@.take(i as int));
        assert(b@ =~= s@.skip(i + 1));
        Some((a, b))
    } else {
        None
    }
}

/// The two sides of the first occurrence of `p` in `s` (`str::split_once`
/// with a string).
pub fn split_once_at_str(s: &str, p: &str) -> (res: Option<(String, String)>)
    ensures
        match split_once_sub(s@, p@) {
            Some((a, b)) => res matches Some((x, y)) && x@ == a && y@ == b,
            None => res is None,
        },
{
    let v = chars_of(s);
    let q = chars_of(p);
    match find_sub_from(&v, &q, 0) {
        Some(i) => {
            proof {
                lemma_find_sub(s@, p@, i as int);
            }
            let a = string_of_range(&v, 0, i);
            assert(matches_at(v@, q@, i as int));
            assert(i + q.len() <= v.len());
            let b = string_of_range(&v, i + q.len(), v.len());
            assert(a@ =~= s@.take(i as int));
            assert(b@ =~= s@.skip(i + p@.len()));
            Some((a, b))
        },
        None => {
            proof {
                lemma_find_sub_props(s@, p@);
            }
            None
        },
    }
}

/// `s` with every occurrence of `p` replaced by `w` (`str::replace`).
pub fn replace_str(s: &str, p: &str, w: &str) -> (res: String)
    ensures
        res@ == replace_all(s@, p@, w@),
{
    let v = chars_of(s);
    let q = chars_of(p);
    let mut out = String::new();
    if q.len() == 0 {
        let mut i: usize = 0;
        assert(v@.skip(0) =~= v@);
        while i < v.len()
            invariant
                i <= v.len(),
                v@ == s@,
                out@ + replace_empty(v@.skip(i as int), w@) == replace_empty(v@, w@),
            decreases v.len() - i,
        {
            let ghost rest = v@.skip(i as int);
            assert(rest.drop_first() =~= v@.skip(i + 1));
            push_str(&mut out, w);
            push_char(&mut out, v[i]);
            assert(out@ + replace_empty(v@.skip(i + 1), w@) =~= replace_empty(v@, w@));
            i = i + 1;
        }
        push_str(&mut out, w);
        assert(v@.skip(i as int) =~= Seq::<char>::empty());
        assert(out@ =~= replace_empty(v@, w@));
        return out;
    }
    let mut i: usize = 0;
    assert(v@.skip(0) =~= v@);
    while i < v.len()
        invariant
            i <= v.len(),
            v@ == s@,
            q@ == p@,
            q@.len() > 0,
            out@ + replace_all(v@.skip(i as int), q@, w@) == replace_all(v@, q@, w@),
        decreases v.len() - i,
    {
        let ghost rest = v@.skip(i as int);
        if matches_at_exec(&v, &q, i) {
            assert(rest.take(q@.len() as int) =~= v@.subrange(i as int, i + q@.len()));
            assert(rest.skip(q@.len() as int) =~= v@.skip(i + q@.len()));
            push_str(&mut out, w);
            assert(out@ + replace_all(v@.skip(i + q@.len()), q@, w@) =~= replace_all(v@, q@, w@));
            i = i + q.len();
        } else {
            proof {
                if rest.len() >= q@.len() {
                    assert(rest.take(q@.len() as int) =~= v@.subrange(i as int, i + q@.len()));
                }
                assert(rest.drop_first() =~= v@.skip(i + 1));
                if rest.len() < q@.len() {
                    assert(replace_all(rest.drop_first(), q@, w@) == rest.drop_first());
                    assert(replace_all(rest, q@, w@) == rest);
                    assert(rest =~= seq![v@[i as int]] + rest.drop_first());
                }
            }
            push_char(&mut out, v[i]);
            assert(out@ + replace_all(v@.skip(i + 1), q@, w@) =~= replace_all(v@, q@, w@));
            i = i + 1;
        }
    }
    assert(v@.skip(i as int) =~= Seq::<char>::empty());
    assert(out@ =~= replace_all(v@, q@, w@));
    out
}

/// The pieces of `s` between occurrences of `c` (`str::split` with a char).
pub fn split_char(s: &str, c: char) -> (res: Vec<String>)
    ensures
        views(res@) == split_on(s@, c),
{
    let v = chars_of(s);
    let mut parts: Vec<String> = Vec::new();
    let mut cur = String::new();
    let mut i: usize = 0;
    while i < v.len()
        invariant
            i <= v.len(),
            v@ == s@,
            views(parts@).push(cur@) == split_on(v@.take(i as int), c),
        decreases v.len() - i,
    {
        let ghost prefix = v@.take(i + 1);
        assert(prefix.drop_last() =~= v@.take(i as int));
        let ghost p = split_on(v@.take(i as int), c);
        if v[i] == c {
            let ghost old_parts = views(parts@);
            parts.push(cur);
            cur = String::new();
            assert(views(parts@) =~= old_parts.push(p.last()));
            assert(views(parts@).push(cur@) =~= p.push(Seq::<char>::empty()));
        } else {
            push_char(&mut cur, v[i]);
            assert(views(parts@).push(cur@) =~= p.update(p.len() - 1, p.last().push(v@[i as int])));
        }
        i = i + 1;
    }
    assert(v@.take(v.len() as int) =~= v@);
    let ghost before = views(parts@);
    parts.push(cur);
    assert(views(parts@) =~= before.push(cur@));
    parts
}

/// The pieces of `v` joined with `sep` (`[String]::join`).
pub fn join_strings(v: &Vec<String>, sep: &str) -> (res: String)
    ensures
        res@ == join_with(views(v@), sep@),
{
    let mut out = String::new();
    let mut i: usize = 0;
    while i < v.len()
        invariant
            i <= v.len(),
            out@ == join_with(views(v@).take(i as int), sep@),
        decreases v.len() - i,
    {
        assert(views(v@).take(i + 1).drop_last() =~= views(v@).take(i as int));
        if i > 0 {
            push_str(&mut out, sep);
        }
        push_str(&mut out, v[i].as_str());
        assert(views(v@).take(i + 1).last() == v@[i as int]@);
        if i == 0 {
            assert(out@ =~= join_with(views(v@).take(i + 1), sep@));
        }
        i = i + 1;
    }
    assert(views(v@).take(v.len() as int) =~= views(v@));
    out
}

/// `s` without leading and trailing whitespace (`str::trim`).
pub fn trim(s: &str) -> (res: String)
    ensures
        res@ == trim_ws(s@),
{
    let v = chars_of(s);
    let mut a: usize = 0;
    while a < v.len() && is_ws_exec(v[a])
        invariant
            a <= v.len(),
            forall|j: int| 0 <= j < a ==> is_ws(v@[j]),
        decreases v.len() - a,
    {
        a = a + 1;
    }
    let mut b: usize = v.len();
    while b > a && is_ws_exec(v[b - 1])
        invariant
            a <= b <= v.len(),
            forall|j: int| b <= j < v.len() ==> is_ws(v@[j]),
        decreases b,
    {
        b = b - 1;
    }
    proof {
        let f = |c: char| is_ws(c);
        lemma_trim_start(v@, f, a as int);
        let t = v@.skip(a as int);
        lemma_trim_end(t, f, (b - a) as int);
        assert(t.take(b - a) =~= v@.subrange(a as int, b as int));
    }
    string_of_range(&v, a, b)
}

/// Whether `c` is Unicode whitespace.
pub fn is_ws_exec(c: char) -> (res: bool)
    ensures
        res == is_ws(c),
{
    ('\u{9}' <= c && c <= '\u{d}') || c == ' ' || c == '\u{85}' || c == '\u{a0}' || c
        == '\u{1680}' || ('\u{2000}' <= c && c <= '\u{200a}') || c == '\u{2028}' || c
        == '\u{2029}' || c == '\u{202f}' || c == '\u{205f}' || c == '\u{3000}'
}

/// `s` without leading and trailing `c` (`str::trim_matches` with a char).
pub fn trim_matches_char(s: &str, c: char) -> (res: String)
    ensures
        res@ == trim_char(s@, c),
{
    let v = chars_of(s);
    let mut a: usize = 0;
    while a < v.len() && v[a] == c
        invariant
            a <= v.len(),
            forall|j: int| 0 <= j < a ==> v@[j] == c,
        decreases v.len() - a,
    {
        a = a + 1;
    }
    let mut b: usize = v.len();
    while b > a && v[b - 1] == c
        invariant
            a <= b <= v.len(),
            forall|j: int| b <= j < v.len() ==> v@[j] == c,
        decreases b,
    {
        b = b - 1;
    }
    proof {
        let f = is_char(c);
        lemma_trim_start(v@, f, a as int);
        let t = v@.skip(a as int);
        lemma_trim_end(t, f, (b - a) as int);
        assert(t.take(b - a) =~= v@.subrange(a as int, b as int));
    }
    string_of_range(&v, a, b)
}

/// `s` without every leading repetition of the non-empty `p`
/// (`str::trim_start_matches` with a string).
pub fn trim_start_matches_str(s: &str, p: &str) -> (res: String)
    requires
        p@.len() > 0,
    ensures
        res@ == trim_prefix_all(s@, p@),
{
    let v = chars_of(s);
    let q = chars_of(p);
    let mut a: usize = 0;
    assert(v@.skip(0) =~= v@);
    while matches_at_exec(&v, &q, a)
        invariant
            a <= v.len(),
            q@ == p@,
            q@.len() > 0,
            trim_prefix_all(v@.skip(a as int), q@) == trim_prefix_all(v@, q@),
        decreases v.len() - a,
    {
        let ghost rest = v@.skip(a as int);
        assert(rest.take(q@.len() as int) =~= v@.subrange(a as int, a + q@.len()));
        assert(rest.skip(q@.len() as int) =~= v@.skip(a + q@.len()));
        a = a + q.len();
    }
    proof {
        let rest = v@.skip(a as int);
        if starts_with(rest, q@) {
            assert(rest.take(q@.len() as int) =~= v@.subrange(a as int, a + q@.len()));
        }
    }
    string_of_range(&v, a, v.len())
}

/// The ASCII lower-case of `c`.
pub fn lower_char_exec(c: char) -> (res: char)
    ensures
        res == lower_char(c),
{
    if 'A' <= c && c <= 'Z' {
        let b = c as u8;
        let r = (b + 32) as char;
        assert(r == lower_char(c)) by {
            assert(b as u32 == c as u32);
        }
        r
    } else {
        c
    }
}

/// `str::to_ascii_lowercase`.
pub fn to_ascii_lowercase(s: &str) -> (res: String)
    ensures
        res@ == lower_ascii(s@),
{
    let v = chars_of(s);
    let mut out = String::new();
    let mut i: usize = 0;
    while i < v.len()
        invariant
            i <= v.len(),
            v@ == s@,
            out@ == lower_ascii(v@.take(i as int)),
        decreases v.len() - i,
    {
        push_char(&mut out, lower_char_exec(v[i]));
        assert(lower_ascii(v@.take(i + 1)) =~= lower_ascii(v@.take(i as int)).push(
            lower_char(v@[i as int]),
        ));
        i = i + 1;
    }
    assert(v@.take(v.len() as int) =~= v@);
    out
}

/// `str::lines`.
pub fn lines(s: &str) -> (res: Vec<String>)
    ensures
        views(res@) == lines_of(s@),
{
    let mut out: Vec<String> = Vec::new();
    if str_is_empty(s) {
        assert(views(out@) =~= lines_of(s@));
        return out;
    }
    let parts = split_char(s, '\n');
    proof {
        lemma_split_on_len(s@, '\n');
    }
    let n = parts.len();
    let keep = if parts[n - 1].as_str().is_empty() {
        n - 1
    } else {
        n
    };
    let ghost qs = views(parts@).take(keep as int);
    let mut i: usize = 0;
    while i < keep
        invariant
            keep <= parts.len(),
            i <= keep,
            views(out@) == qs.take(i as int).map_values(|l: Seq<char>| strip_cr(l)),
            qs == views(parts@).take(keep as int),
        decreases keep - i,
    {
        let line = strip_cr_exec(parts[i].as_str());
        let ghost before = views(out@);
        out.push(line);
        assert(views(out@) =~= before.push(strip_cr(parts@[i as int]@)));
        assert(qs.take(i + 1).map_values(|l: Seq<char>| strip_cr(l)) =~= qs.take(
            i as int,
        ).map_values(|l: Seq<char>| strip_cr(l)).push(strip_cr(qs[i as int])));
        i = i + 1;
    }
    proof {
        let ps = split_on(s@, '\n');
        assert(views(parts@) == ps);
        if ps.last().len() == 0 {
            assert(qs =~= ps.drop_last());
        } else {
            assert(qs =~= ps);
        }
        assert(qs.take(keep as int) =~= qs);
    }
    out
}

/// `s` is empty.
pub fn str_is_empty(s: &str) -> (res: bool)
    ensures
        res == (s@.len() == 0),
{
    s.is_empty()
}

/// `s` without one final carriage return.
fn strip_cr_exec(s: &str) -> (res: String)
    ensures
        res@ == strip_cr(s@),
{
    let v = chars_of(s);
    if v.len() > 0 && v[v.len() - 1] == '\r' {
        string_of_range(&v, 0, v.len() - 1)
    } else {
        string_of_range(&v, 0, v.len())
    }
}

/// The decimal digits of `n`.
fn dec_exec(n: u64) -> (res: Vec<char>)
    ensures
        res@ == dec(n as nat),
    decreases n,
{
    if n < 10 {
        let mut v = Vec::new();
        v.push(digit_exec(n));
        assert(v@ =~= dec(n as nat));
        v
    } else {
        let mut v = dec_exec(n / 10);
        v.push(digit_exec(n % 10));
        v
    }
}

/// The character of the decimal digit `d`.
fn digit_exec(d: u64) -> (res: char)
    requires
        d < 10,
    ensures
        res == digit_char(d as nat),
{
    let b: u8 = 48 + (d as u8);
    let r = b as char;
    assert(r == digit_char(d as nat)) by {
        assert(b as u32 == 48 + d);
    }
    r
}

/// How `n` is written (`i64::to_string`).
pub fn int_to_string(n: i64) -> (res: String)
    ensures
        res@ == int_text(n as int),
{
    if n < 0 {
        let m: u64 = if n == i64::MIN {
            9223372036854775808u64
        } else {
            (-n) as u64
        };
        let d = dec_exec(m);
        let mut s = String::new();
        push_char(&mut s, '-');
        let t = string_of(&d);
        push_str(&mut s, t.as_str());
        s
    } else {
        let d = dec_exec(n as u64);
        string_of(&d)
    }
}

/// `str::parse::<i64>`.
pub fn parse_i64(s: &str) -> (res: Option<i64>)
    ensures
        res == parse_int(s@),
{
    let v = chars_of(s);
    let neg = v.len() > 0 && v[0] == '-';
    let start: usize = if v.len() > 0 && (v[0] == '-' || v[0] == '+') {
        1
    } else {
        0
    };
    let ghost body = v@.skip(start as int);
    assert(start == 1 ==> body =~= v@.drop_first());
    assert(start == 0 ==> body =~= v@);
    if start == v.len() {
        return None;
    }
    // the magnitude; more than `limit` means out of range
    let limit: u64 = 9223372036854775808u64;
    let mut acc: u64 = 0;
    let mut i: usize = start;
    while i < v.len()
        invariant
            start <= i <= v.len(),
            v@ == s@,
            neg == (v@.len() > 0 && v@[0] == '-'),
            start == (if v@.len() > 0 && (v@[0] == '-' || v@[0] == '+') { 1usize } else { 0usize }),
            limit == 9223372036854775808u64,
            body == v@.skip(start as int),
            body == (if v@.len() > 0 && (v@[0] == '-' || v@[0] == '+') {
                v@.drop_first()
            } else {
                v@
            }),
            acc <= limit,
            all_digits(body.take(i - start)),
            acc == digits_val(body.take(i - start)),
        decreases v.len() - i,
    {
        let c = v[i];
        assert(body.take(i + 1 - start).drop_last() =~= body.take(i - start));
        assert(body.take(i + 1 - start).last() == c);
        if !('0' <= c && c <= '9') {
            assert(!all_digits(body)) by {
                assert(body[i - start] == c);
                assert(!is_digit(body[i - start]));
            }
            assert(body.len() > 0);
            return None;
        }
        assert(48 <= c as u32 <= 57);
        let d: u64 = (c as u32 - 48) as u64;
        assert(d <= 9);
        if acc > (limit - d) / 10 {
            // the value already exceeds the range
            proof {
                assert(digits_val(body.take(i + 1 - start)) == acc * 10 + d);
                assert(acc * 10 + d > limit);
                assert(all_digits(body.take(i + 1 - start))) by {
                    assert forall|j: int| 0 <= j < i + 1 - start implies is_digit(
                        #[trigger] body.take(i + 1 - start)[j],
                    ) by {
                        if j < i - start {
                            assert(body.take(i + 1 - start)[j] == body.take(i - start)[j]);
                        }
                    }
                }
                if all_digits(body) {
                    lemma_digits_val_grows(body, i + 1 - start);
                }
            }
            return None;
        }
        acc = acc * 10 + d;
        proof {
            assert forall|j: int| 0 <= j < i + 1 - start implies is_digit(
                #[trigger] body.take(i + 1 - start)[j],
            ) by {
                if j < i - start {
                    assert(body.take(i + 1 - start)[j] == body.take(i - start)[j]);
                }
            }
        }
        i = i + 1;
    }
    assert(body.take(v.len() - start) =~= body);
    if neg {
        if acc == limit {
            Some(i64::MIN)
        } else {
            Some(-(acc as i64))
        }
    } else {
        if acc == limit {
            None
        } else {
            Some(acc as i64)
        }
    }
}

} // verus!
