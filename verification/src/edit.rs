//! Where an edit happens: the temporary copy a file is edited in.
use vstd::prelude::*;

use crate::text::{chars_of, owned, push_char, push_str, string_of_range};

verus! {

/// Index of the last `c` in `s`, or -1.
pub open spec fn last_index_of(s: Seq<char>, c: char) -> int
    decreases s.len(),
{
    if s.len() == 0 {
        -1
    } else if s.last() == c {
        s.len() - 1
    } else {
        last_index_of(s.drop_last(), c)
    }
}

/// The last component of the path `p`.
pub open spec fn file_name(p: Seq<char>) -> Seq<char> {
    p.subrange(last_index_of(p, '/') + 1, p.len() as int)
}

/// The extension of the path `p`: what follows the last `.` of its last
/// component, when that `.` is not its first character.
pub open spec fn path_extension(p: Seq<char>) -> Option<Seq<char>> {
    let n = file_name(p);
    let i = last_index_of(n, '.');
    if i > 0 {
        Some(n.subrange(i + 1, n.len() as int))
    } else {
        None
    }
}

/// The temporary file an edit of `path` happens in, under the project
/// directory `root`: `user/EDIT`, with the extension given, else the one of
/// `path`.
pub open spec fn temp_path(root: Seq<char>, path: Seq<char>, extension: Option<Seq<char>>) -> Seq<char> {
    let e = match extension {
        Some(x) => Some(x),
        None => path_extension(path),
    };
    root + seq!['/', 'u', 's', 'e', 'r', '/', 'E', 'D', 'I', 'T'] + match e {
        Some(x) => if x.len() > 0 {
            seq!['.'] + x
        } else {
            Seq::empty()
        },
        None => Seq::empty(),
    }
}

/// `last_index_of` finds the last occurrence.
proof fn lemma_last_index(s: Seq<char>, c: char)
    ensures
        -1 <= last_index_of(s, c) < s.len(),
        last_index_of(s, c) >= 0 ==> s[last_index_of(s, c)] == c,
        forall|k: int| last_index_of(s, c) < k < s.len() ==> s[k] != c,
    decreases s.len(),
{
    if s.len() > 0 && s.last() != c {
        lemma_last_index(s.drop_last(), c);
        assert forall|k: int| last_index_of(s, c) < k < s.len() implies s[k] != c by {
            if k < s.len() - 1 {
                assert(s.drop_last()[k] == s[k]);
            }
        }
    }
}

/// Index of the last `c` among the first `end` characters of `v`, or -1.
fn last_index(v: &Vec<char>, end: usize, c: char) -> (res: i64)
    requires
        end <= v@.len(),
        v@.len() < 0x7fff_ffff_ffff_ffff,
    ensures
        res == last_index_of(v@.take(end as int), c),
{
    let mut k: usize = end;
    while k > 0
        invariant
            k <= end <= v@.len(),
            v@.len() < 0x7fff_ffff_ffff_ffff,
            last_index_of(v@.take(end as int), c) == last_index_of(v@.take(k as int), c),
        decreases k,
    {
        assert(v@.take(k as int).drop_last() =~= v@.take(k - 1));
        if v[k - 1] == c {
            return (k - 1) as i64;
        }
        k = k - 1;
    }
    -1
}

/// The temporary file an edit of `path` with `extension` happens in.
pub fn temp_file(root: &str, path: &str, extension: Option<&str>) -> (res: String)
    requires
        path@.len() < 0x7fff_ffff_ffff_ffff,
    ensures
        res@ == temp_path(
            root@,
            path@,
            match extension {
                Some(e) => Some(e@),
                None => None,
            },
        ),
{
    let mut out = owned(root);
    push_str(&mut out, "/user/EDIT");
    proof {
        reveal_strlit("/user/EDIT");
    }
    let ext: Option<String> = match extension {
        Some(e) => Some(owned(e)),
        None => {
            let v = chars_of(path);
            assert(v@.take(v@.len() as int) =~= v@);
            let slash = last_index(&v, v.len(), '/');
            proof {
                lemma_last_index(path@, '/');
            }
            let start: usize = (slash + 1) as usize;
            let name: Vec<char> = {
                let s = string_of_range(&v, start, v.len());
                chars_of(s.as_str())
            };
            assert(name@ =~= file_name(path@));
            assert(name@.take(name@.len() as int) =~= name@);
            let dot = last_index(&name, name.len(), '.');
            proof {
                lemma_last_index(name@, '.');
            }
            if dot > 0 {
                let from: usize = (dot + 1) as usize;
                Some(string_of_range(&name, from, name.len()))
            } else {
                None
            }
        },
    };
    match ext {
        Some(e) => {
            if !crate::text::str_is_empty(e.as_str()) {
                push_char(&mut out, '.');
                push_str(&mut out, e.as_str());
            }
        },
        None => {},
    }
    out
}

} // verus!
