//! File names and extensions of `/`-separated paths, read as `std::path`
//! reads them on Unix.

use vstd::prelude::*;
use crate::text::{chars_of, string_of_range};

verus! {

/// The place of the last `c` in `s`, or -1 when there is none.
pub open spec fn last_index_of(s: Seq<char>, c: char) -> int
    decreases s.len(),
{
    if s.len() == 0 {
        -1
    } else if s.last() == c {
        s.len() - 1
    } else {
        last_index_of(s.drop_last(), c)
    }
}

/// The last `c` lies within `s`, holds `c`, and no `c` follows it.
pub proof fn lemma_last_index_of(s: Seq<char>, c: char)
    ensures
        -1 <= last_index_of(s, c) < s.len(),
        last_index_of(s, c) >= 0 ==> s[last_index_of(s, c)] == c,
        forall|j: int| last_index_of(s, c) < j < s.len() ==> s[j] != c,
    decreases s.len(),
{
    if s.len() > 0 && s.last() != c {
        lemma_last_index_of(s.drop_last(), c);
        assert forall|j: int| last_index_of(s, c) < j < s.len() implies s[j] != c by {
            if j < s.len() - 1 {
                assert(s.drop_last()[j] == s[j]);
            }
        }
    }
}

/// The last component of a path: its last `/`-separated part that is neither
/// empty nor `.`; none when that part is `..` or there is none.
pub open spec fn file_name_of(p: Seq<char>) -> Option<Seq<char>>
    decreases p.len(),
{
    let k = last_index_of(p, '/');
    let part = p.subrange(k + 1, p.len() as int);
    if part.len() == 0 || part == seq!['.'] {
        if k < 0 {
            None
        } else {
            proof {
                lemma_last_index_of(p, '/');
            }
            file_name_of(p.subrange(0, k))
        }
    } else if part == seq!['.', '.'] {
        None
    } else {
        Some(part)
    }
}

/// The extension of a file name: what follows its last `.`; none when it has
/// no `.` or its only `.` comes first.
pub open spec fn name_extension(name: Seq<char>) -> Option<Seq<char>> {
    let k = last_index_of(name, '.');
    if k <= 0 {
        None
    } else {
        Some(name.subrange(k + 1, name.len() as int))
    }
}

/// The extension of a path's file name, as `Path::extension` gives it.
pub open spec fn path_extension(p: Seq<char>) -> Option<Seq<char>> {
    match file_name_of(p) {
        Some(name) => name_extension(name),
        None => None,
    }
}

/// The place of the last `c` among `s[..end]`.
pub fn last_index_in(s: &Vec<char>, end: usize, c: char) -> (k: Option<usize>)
    requires
        end <= s@.len(),
    ensures
        match k {
            Some(i) => i == last_index_of(s@.subrange(0, end as int), c),
            None => last_index_of(s@.subrange(0, end as int), c) == -1,
        },
{
    let mut i = end;
    while i > 0
        invariant
            i <= end <= s@.len(),
            last_index_of(s@.subrange(0, end as int), c) == last_index_of(s@.subrange(0, i as int), c),
        decreases i,
    {
        let ghost sub = s@.subrange(0, i as int);
        if s[i - 1] == c {
            return Some(i - 1);
        }
        proof {
            assert(sub.drop_last() =~= s@.subrange(0, i - 1));
        }
        i -= 1;
    }
    None
}

/// Where the file name of a path lies in its characters.
pub fn file_name_bounds(p: &Vec<char>) -> (r: Option<(usize, usize)>)
    ensures
        match r {
            Some((a, b)) => a <= b <= p@.len() && file_name_of(p@) == Some(p@.subrange(a as int, b as int)),
            None => file_name_of(p@) is None,
        },
{
    let mut end = p.len();
    proof {
        assert(p@.subrange(0, end as int) =~= p@);
    }
    let mut start: usize;
    loop
        invariant
            end <= p@.len(),
            file_name_of(p@) == file_name_of(p@.subrange(0, end as int)),
        ensures
            start <= end <= p@.len(),
            file_name_of(p@) == Some(p@.subrange(start as int, end as int)),
        decreases end,
    {
        let ghost sub = p@.subrange(0, end as int);
        let k = last_index_in(p, end, '/');
        proof {
            lemma_last_index_of(sub, '/');
        }
        start = match k {
            Some(i) => i + 1,
            None => 0,
        };
        let len = end - start;
        let ghost part = sub.subrange(start as int, end as int);
        proof {
            assert(part =~= p@.subrange(start as int, end as int));
        }
        if len == 0 || (len == 1 && p[start] == '.') {
            proof {
                if len == 1 {
                    assert(part =~= seq!['.']);
                }
            }
            match k {
                Some(i) => {
                    proof {
                        assert(sub.subrange(0, i as int) =~= p@.subrange(0, i as int));
                    }
                    end = i;
                },
                None => {
                    return None;
                },
            }
        } else if len == 2 && p[start] == '.' && p[start + 1] == '.' {
            proof {
                assert(part =~= seq!['.', '.']);
            }
            return None;
        } else {
            proof {
                if len == 1 {
                    assert(part != seq!['.']) by {
                        assert(part[0] == p@[start as int]);
                    }
                }
                if len == 2 {
                    assert(part != seq!['.', '.']) by {
                        assert(part[0] == p@[start as int]);
                        assert(part[1] == p@[start + 1]);
                    }
                }
            }
            break;
        }
    }
    Some((start, end))
}

/// The place just after the last `.` of the name `p[a..b]`, relative to the
/// characters of `p`; `a` when the name has no `.`.
pub fn after_last_dot(p: &Vec<char>, a: usize, b: usize) -> (d: usize)
    requires
        a <= b <= p@.len(),
    ensures
        a <= d <= b,
        d == a + last_index_of(p@.subrange(a as int, b as int), '.') + 1,
{
    let ghost name = p@.subrange(a as int, b as int);
    proof {
        assert(name.subrange(0, b - a) =~= name);
    }
    let mut d = b;
    while d > a
        invariant
            a <= d <= b <= p@.len(),
            name == p@.subrange(a as int, b as int),
            last_index_of(name, '.') == last_index_of(name.subrange(0, d - a), '.'),
        ensures
            a <= d <= b <= p@.len(),
            last_index_of(name, '.') == last_index_of(name.subrange(0, d - a), '.'),
            d > a ==> p@[d - 1] == '.',
        decreases d,
    {
        let ghost sub = name.subrange(0, d - a);
        proof {
            assert(sub.last() == p@[d - 1]);
        }
        if p[d - 1] == '.' {
            break;
        }
        proof {
            assert(sub.drop_last() =~= name.subrange(0, d - 1 - a));
        }
        d -= 1;
    }
    proof {
        if d > a {
            let sub = name.subrange(0, d - a);
            assert(sub.last() == p@[d - 1]);
        } else {
            assert(name.subrange(0, 0) =~= Seq::<char>::empty());
        }
    }
    d
}

/// The extension of a path's file name, read as `Path::extension` reads it.
pub fn extension_of_path(path: &str) -> (ext: Option<String>)
    ensures
        match path_extension(path@) {
            Some(e) => ext is Some && ext->0@ == e,
            None => ext is None,
        },
{
    let p = chars_of(path);
    match file_name_bounds(&p) {
        None => None,
        Some((a, b)) => {
            let d = after_last_dot(&p, a, b);
            if d - a <= 1 {
                None
            } else {
                proof {
                    let name = p@.subrange(a as int, b as int);
                    assert(name.subrange(d - a, name.len() as int) =~= p@.subrange(d as int, b as int));
                }
                Some(string_of_range(&p, d, b))
            }
        },
    }
}

/// The stem of a file name: the part before its last `.`; the whole name
/// when it has no `.` or its only `.` comes first.
pub open spec fn name_stem(name: Seq<char>) -> Seq<char> {
    let k = last_index_of(name, '.');
    if k <= 0 {
        name
    } else {
        name.subrange(0, k)
    }
}

/// The stem of a path's file name, read as `Path::file_stem` reads it.
pub fn file_stem_of_path(path: &str) -> (stem: Option<String>)
    ensures
        match file_name_of(path@) {
            Some(n) => stem is Some && stem->0@ == name_stem(n),
            None => stem is None,
        },
{
    let p = chars_of(path);
    match file_name_bounds(&p) {
        None => None,
        Some((a, b)) => {
            let d = after_last_dot(&p, a, b);
            proof {
                lemma_last_index_of(p@.subrange(a as int, b as int), '.');
            }
            if d - a <= 1 {
                Some(string_of_range(&p, a, b))
            } else {
                proof {
                    let name = p@.subrange(a as int, b as int);
                    assert(name.subrange(0, d - 1 - a) =~= p@.subrange(a as int, d - 1));
                }
                Some(string_of_range(&p, a, d - 1))
            }
        },
    }
}

/// The file name of a path, read as `Path::file_name` reads it.
pub fn file_name_text(path: &str) -> (name: Option<String>)
    ensures
        match file_name_of(path@) {
            Some(n) => name is Some && name->0@ == n,
            None => name is None,
        },
{
    let p = chars_of(path);
    match file_name_bounds(&p) {
        None => None,
        Some((a, b)) => Some(string_of_range(&p, a, b)),
    }
}

} // verus!
