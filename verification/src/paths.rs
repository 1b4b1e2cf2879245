//! Path arithmetic for the store: joining segments and extracting the
//! final component of a source path. All of it works on plain strings;
//! the separator is the single slash the store uses in its own layout.

use vstd::prelude::*;
use vstd::string::StringExecFns;

verus! {

/// Two path segments joined by a single separator.
pub open spec fn joined(a: Seq<char>, b: Seq<char>) -> Seq<char> {
    a + seq!['/'] + b
}

/// The path with every trailing separator removed.
pub open spec fn strip_trailing_slashes(s: Seq<char>) -> Seq<char>
    decreases s.len(),
{
    if s.len() > 0 && s.last() == '/' {
        strip_trailing_slashes(s.drop_last())
    } else {
        s
    }
}

/// The suffix of the path after its last separator; the whole path when
/// it has none.
pub open spec fn after_last_slash(s: Seq<char>) -> Seq<char>
    decreases s.len(),
{
    if s.len() == 0 {
        Seq::empty()
    } else if s.last() == '/' {
        Seq::empty()
    } else {
        after_last_slash(s.drop_last()).push(s.last())
    }
}

/// The final path component, when the path has one that can name a file:
/// trailing separators are ignored, and an empty component, `.` and `..`
/// name no file.
pub open spec fn basename_of(path: Seq<char>) -> Option<Seq<char>> {
    let name = after_last_slash(strip_trailing_slashes(path));
    if name.len() == 0 || name == seq!['.'] || name == seq!['.', '.'] {
        None
    } else {
        Some(name)
    }
}

/// String equality over the character views.
pub fn str_eq(a: &str, b: &str) -> (r: bool)
    ensures
        r == (a@ == b@),
{
    let x: String = a.to_owned();
    let y: String = b.to_owned();
    x == y
}

/// Joins two path segments with a single separator.
pub fn join_path(a: &str, b: &str) -> (r: String)
    ensures
        r@ == joined(a@, b@),
{
    let mut r: String = a.to_owned();
    r.append("/");
    r.append(b);
    proof {
        reveal_strlit("/");
        assert(r@ =~= joined(a@, b@));
    }
    r
}

/// Extracts the final path component, exactly as `basename_of` defines it.
pub fn basename(path: &str) -> (r: Option<String>)
    ensures
        match r {
            Some(name) => basename_of(path@) == Some(name@),
            None => basename_of(path@) is None,
        },
{
    let n: usize = path.unicode_len();
    proof {
        assert(path@.subrange(0, n as int) =~= path@);
    }
    let mut end: usize = n;
    while end > 0 && path.get_char(end - 1) == '/'
        invariant
            end <= n,
            n == path@.len(),
            strip_trailing_slashes(path@) == strip_trailing_slashes(
                path@.subrange(0, end as int),
            ),
        decreases end,
    {
        proof {
            let t = path@.subrange(0, end as int);
            assert(t.last() == '/');
            assert(t.drop_last() =~= path@.subrange(0, end as int - 1));
        }
        end = end - 1;
    }
    proof {
        let t = path@.subrange(0, end as int);
        assert(strip_trailing_slashes(t) == t);
    }
    let mut start: usize = end;
    while start > 0 && path.get_char(start - 1) != '/'
        invariant
            start <= end <= path@.len(),
            after_last_slash(path@.subrange(0, end as int)) == after_last_slash(
                path@.subrange(0, start as int),
            ) + path@.subrange(start as int, end as int),
        decreases start,
    {
        proof {
            let u = path@.subrange(0, start as int);
            assert(u.last() == path@[start as int - 1]);
            assert(u.drop_last() =~= path@.subrange(0, start as int - 1));
            assert(after_last_slash(u) == after_last_slash(u.drop_last()).push(u.last()));
            assert(after_last_slash(u.drop_last()).push(u.last()) + path@.subrange(
                start as int,
                end as int,
            ) =~= after_last_slash(u.drop_last()) + path@.subrange(start as int - 1, end as int));
        }
        start = start - 1;
    }
    proof {
        let t = path@.subrange(0, end as int);
        let u = path@.subrange(0, start as int);
        if start > 0 {
            assert(u.last() == '/');
            assert(after_last_slash(u) == Seq::<char>::empty());
        } else {
            assert(u.len() == 0);
            assert(after_last_slash(u) == Seq::<char>::empty());
        }
        assert(after_last_slash(t) =~= path@.subrange(start as int, end as int));
    }
    let len: usize = end - start;
    if len == 0 {
        proof {
            assert(basename_of(path@) is None);
        }
        return None;
    }
    if len == 1 && path.get_char(start) == '.' {
        proof {
            assert(path@.subrange(start as int, end as int) =~= seq!['.']);
        }
        return None;
    }
    if len == 2 && path.get_char(start) == '.' && path.get_char(start + 1) == '.' {
        proof {
            assert(path@.subrange(start as int, end as int) =~= seq!['.', '.']);
        }
        return None;
    }
    let name: String = path.substring_char(start, end).to_owned();
    proof {
        let picked = path@.subrange(start as int, end as int);
        if picked == seq!['.'] {
            assert(picked.len() == 1 && picked[0] == '.');
            assert(false);
        }
        if picked == seq!['.', '.'] {
            assert(picked.len() == 2 && picked[0] == '.' && picked[1] == '.');
            assert(false);
        }
    }
    Some(name)
}

} // verus!
