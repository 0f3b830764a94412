//! Path text: joining a relative name onto a directory, the last component of
//! a path, and splitting a colon-separated search path.

use vstd::prelude::*;

verus! {

/// What stands before a name joined onto `base`: nothing for an empty base,
/// the base itself when it already ends in a separator, else the base and a
/// separator.
pub open spec fn join_prefix(base: Seq<char>) -> Seq<char> {
    if base.len() == 0 {
        base
    } else if base.last() == '/' {
        base
    } else {
        base.push('/')
    }
}

/// A path is absolute when it starts at the root.
pub open spec fn is_absolute(p: Seq<char>) -> bool {
    p.len() > 0 && p[0] == '/'
}

/// Whether `p` is an absolute path.
pub fn is_absolute_path(p: &str) -> (r: bool)
    ensures
        r == is_absolute(p@),
{
    p.unicode_len() > 0 && p.get_char(0) == '/'
}

/// A name joined onto an absolute directory gives an absolute path.
pub proof fn lemma_join_absolute(base: Seq<char>, name: Seq<char>)
    requires
        is_absolute(base),
    ensures
        is_absolute(join_spec(base, name)),
{
    assert(join_spec(base, name)[0] == base[0]);
}

/// The path of the relative name `name` inside the directory `base`.
pub open spec fn join_spec(base: Seq<char>, name: Seq<char>) -> Seq<char> {
    join_prefix(base) + name
}

/// The last component of a path: what follows its last separator.
pub open spec fn file_name_spec(path: Seq<char>) -> Seq<char>
    decreases path.len(),
{
    if path.len() == 0 {
        path
    } else if path.last() == '/' {
        Seq::empty()
    } else {
        file_name_spec(path.drop_last()).push(path.last())
    }
}

/// The pieces of `s` between colons, empty pieces included: a text without a
/// colon is one piece.
pub open spec fn split_colon_spec(s: Seq<char>) -> Seq<Seq<char>>
    decreases s.len(),
{
    if s.len() == 0 {
        seq![Seq::empty()]
    } else {
        let prev = split_colon_spec(s.drop_last());
        if s.last() == ':' {
            prev.push(Seq::empty())
        } else {
            prev.update(prev.len() - 1, prev.last().push(s.last()))
        }
    }
}

/// Joining onto one directory keeps distinct names distinct.
pub proof fn lemma_join_injective(base: Seq<char>, a: Seq<char>, b: Seq<char>)
    requires
        join_spec(base, a) == join_spec(base, b),
    ensures
        a == b,
{
    let p = join_prefix(base);
    assert(a =~= join_spec(base, a).subrange(p.len() as int, join_spec(base, a).len() as int));
    assert(b =~= join_spec(base, b).subrange(p.len() as int, join_spec(base, b).len() as int));
}

/// The path of `name` inside the directory `base`.
pub fn join(base: &str, name: &str) -> (r: String)
    ensures
        r@ == join_spec(base@, name@),
{
    let n = base.unicode_len();
    let mut r = String::from_str(base);
    if n > 0 && base.get_char(n - 1) != '/' {
        r.append("/");
    }
    r.append(name);
    proof {
        reveal_strlit("/");
        if n > 0 {
            assert(base@.last() == base@[n - 1]);
        }
        assert(r@ =~= join_spec(base@, name@));
    }
    r
}

proof fn lemma_file_name_from(path: Seq<char>, i: int)
    requires
        0 <= i <= path.len(),
        forall|k: int| i <= k < path.len() ==> path[k] != '/',
        i == 0 || path[i - 1] == '/',
    ensures
        file_name_spec(path) == path.subrange(i, path.len() as int),
    decreases path.len(),
{
    if path.len() == i {
        if i > 0 {
            assert(path.last() == path[i - 1]);
        }
        assert(path.subrange(i, path.len() as int) =~= Seq::<char>::empty());
    } else {
        lemma_file_name_from(path.drop_last(), i);
        assert(path.subrange(i, path.len() as int) =~= path.drop_last().subrange(
            i,
            path.len() - 1,
        ).push(path.last()));
    }
}

/// The last component of `path`.
pub fn file_name(path: &str) -> (r: String)
    ensures
        r@ == file_name_spec(path@),
{
    let n = path.unicode_len();
    let mut i: usize = n;
    while i > 0 && path.get_char(i - 1) != '/'
        invariant
            n == path@.len(),
            0 <= i <= n,
            forall|k: int| i <= k < n ==> path@[k] != '/',
        decreases i,
    {
        i = i - 1;
    }
    proof {
        lemma_file_name_from(path@, i as int);
    }
    String::from_str(path.substring_char(i, n))
}

proof fn lemma_split_step(s: Seq<char>, i: int)
    requires
        0 < i <= s.len(),
    ensures
        s.subrange(0, i).drop_last() == s.subrange(0, i - 1),
        s.subrange(0, i).last() == s[i - 1],
{
    assert(s.subrange(0, i).drop_last() =~= s.subrange(0, i - 1));
}

/// The entries of a colon-separated search path, in order, empty ones
/// included.
pub fn split_search_path(s: &str) -> (r: Vec<String>)
    ensures
        r@.map_values(|p: String| p@) == split_colon_spec(s@),
{
    let n = s.unicode_len();
    let mut r: Vec<String> = Vec::new();
    let mut start: usize = 0;
    let mut i: usize = 0;
    proof {
        assert(s@.subrange(0, 0) =~= Seq::<char>::empty());
    }
    while i < n
        invariant
            n == s@.len(),
            start <= i <= n,
            split_colon_spec(s@.subrange(0, i as int)) == r@.map_values(|p: String| p@).push(
                s@.subrange(start as int, i as int),
            ),
        decreases n - i,
    {
        let c = s.get_char(i);
        proof {
            lemma_split_step(s@, i + 1);
        }
        if c == ':' {
            let piece = String::from_str(s.substring_char(start, i));
            r.push(piece);
            start = i + 1;
            proof {
                assert(s@.subrange(start as int, (i + 1) as int) =~= Seq::<char>::empty());
            }
        } else {
            proof {
                assert(s@.subrange(start as int, (i + 1) as int) =~= s@.subrange(
                    start as int,
                    i as int,
                ).push(c));
            }
        }
        i = i + 1;
    }
    let last = String::from_str(s.substring_char(start, n));
    r.push(last);
    proof {
        assert(s@.subrange(0, n as int) =~= s@);
        assert(r@.map_values(|p: String| p@) =~= split_colon_spec(s@));
    }
    r
}


/// The last component of a path that ends in a separator and a name without
/// one is that name.
pub proof fn lemma_file_name_after_separator(dir: Seq<char>, name: Seq<char>)
    requires
        forall|k: int| 0 <= k < name.len() ==> name[k] != '/',
    ensures
        file_name_spec(dir.push('/') + name) == name,
    decreases name.len(),
{
    let path = dir.push('/') + name;
    if name.len() == 0 {
        assert(path =~= dir.push('/'));
    } else {
        lemma_file_name_after_separator(dir, name.drop_last());
        assert(path.drop_last() =~= dir.push('/') + name.drop_last());
        assert(path.last() == name.last());
        assert(name =~= name.drop_last().push(name.last()));
    }
}

} // verus!
