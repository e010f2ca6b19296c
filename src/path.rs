//! Normalization of the paths that record files hold: absolute paths stay
//! as written, relative ones are re-expressed against the base directory.
use vstd::prelude::*;

verus! {

/// A path is absolute when it starts at a root marker.
pub open spec fn is_absolute(p: Seq<char>) -> bool {
    p.len() > 0 && (p[0] == '/' || p[0] == '\\')
}

/// The position of the last `/` in `p`.
pub open spec fn last_slash(p: Seq<char>) -> Option<int>
    decreases p.len(),
{
    if p.len() == 0 {
        None
    } else if p.last() == '/' {
        Some(p.len() - 1)
    } else {
        last_slash(p.drop_last())
    }
}

/// The directory that holds `p`: what stands before its last `/` (the root
/// for a file at the root, empty for a bare name). The root and the empty
/// path have none.
pub open spec fn parent_dir(p: Seq<char>) -> Option<Seq<char>> {
    match last_slash(p) {
        None => if p.len() == 0 {
            None
        } else {
            Some(Seq::empty())
        },
        Some(i) => if i == 0 {
            if p.len() == 1 {
                None
            } else {
                Some(seq!['/'])
            }
        } else {
            Some(p.subrange(0, i))
        },
    }
}

/// `p` placed under the directory `dir`.
pub open spec fn join(dir: Seq<char>, p: Seq<char>) -> Seq<char> {
    if dir.len() == 0 {
        p
    } else if dir.last() == '/' {
        dir + p
    } else {
        dir + seq!['/'] + p
    }
}

/// `s` without the `/` characters it starts with.
pub open spec fn trim_slashes(s: Seq<char>) -> Seq<char>
    decreases s.len(),
{
    if s.len() > 0 && s[0] == '/' {
        trim_slashes(s.drop_first())
    } else {
        s
    }
}

/// `full` re-expressed relative to `base`, when it lies under `base`;
/// separators repeated after the base are skipped.
pub open spec fn strip_base(full: Seq<char>, base: Seq<char>) -> Option<Seq<char>> {
    let n = base.len() as int;
    if n == 0 {
        Some(full)
    } else if full == base {
        Some(Seq::empty())
    } else if base.last() == '/' && full.len() >= n && full.subrange(0, n) == base {
        Some(trim_slashes(full.subrange(n, full.len() as int)))
    } else if full.len() > n && full.subrange(0, n) == base && full[n] == '/' {
        Some(trim_slashes(full.subrange(n + 1, full.len() as int)))
    } else {
        None
    }
}

/// The path under which a record read from the file `source` is keyed, in a
/// cache whose base directory is `base`.
pub open spec fn spec_normalize(p: Seq<char>, source: Seq<char>, base: Seq<char>) -> Seq<char> {
    if is_absolute(p) {
        p
    } else {
        let dir = match parent_dir(source) {
            Some(d) => d,
            None => base,
        };
        match strip_base(join(dir, p), base) {
            Some(r) => r,
            None => p,
        }
    }
}

fn find_last_slash(p: &str) -> (r: Option<usize>)
    ensures
        match r {
            Some(i) => i < p@.len() && last_slash(p@) == Some(i as int),
            None => last_slash(p@) is None,
        },
{
    let n = p.unicode_len();
    let mut i: usize = n;
    assert(p@.subrange(0, n as int) =~= p@);
    while i > 0
        invariant
            i <= n == p@.len(),
            last_slash(p@) == last_slash(p@.subrange(0, i as int)),
        decreases i,
    {
        let ghost pre = p@.subrange(0, i as int);
        if p.get_char(i - 1) == '/' {
            return Some(i - 1);
        }
        assert(pre.drop_last() =~= p@.subrange(0, i - 1));
        i = i - 1;
    }
    None
}

fn has_prefix(s: &str, pre: &str) -> (r: bool)
    ensures
        r == (pre@.len() <= s@.len() && s@.subrange(0, pre@.len() as int) == pre@),
{
    let n = s.unicode_len();
    let m = pre.unicode_len();
    if m > n {
        return false;
    }
    String::from_str(s.substring_char(0, m)) == String::from_str(pre)
}

/// The directory that holds the file at `p`.
pub fn parent_of(p: &str) -> (r: Option<String>)
    ensures
        match r {
            Some(d) => parent_dir(p@) == Some(d@),
            None => parent_dir(p@) is None,
        },
{
    match find_last_slash(p) {
        None => if p.unicode_len() == 0 {
            None
        } else {
            Some(String::new())
        },
        Some(i) => if i == 0 {
            if p.unicode_len() == 1 {
                None
            } else {
                proof {
                    reveal_strlit("/");
                }
                Some(String::from_str("/"))
            }
        } else {
            Some(String::from_str(p.substring_char(0, i)))
        },
    }
}

/// Places `p` under the directory `dir`.
pub fn join_path(dir: &str, p: &str) -> (r: String)
    ensures
        r@ == join(dir@, p@),
{
    let n = dir.unicode_len();
    if n == 0 {
        String::from_str(p)
    } else if dir.get_char(n - 1) == '/' {
        String::from_str(dir).concat(p)
    } else {
        proof {
            reveal_strlit("/");
        }
        let r = String::from_str(dir).concat("/").concat(p);
        r
    }
}

/// Drops the `/` characters that `s` starts with.
pub fn trim_leading_slashes(s: &str) -> (r: String)
    ensures
        r@ == trim_slashes(s@),
{
    let n = s.unicode_len();
    let mut k: usize = 0;
    assert(s@.subrange(0, n as int) =~= s@);
    while k < n && s.get_char(k) == '/'
        invariant
            k <= n == s@.len(),
            trim_slashes(s@) == trim_slashes(s@.subrange(k as int, n as int)),
        decreases n - k,
    {
        assert(s@.subrange(k as int, n as int).drop_first() =~= s@.subrange(k + 1, n as int));
        k = k + 1;
    }
    String::from_str(s.substring_char(k, n))
}

/// Re-expresses `full` relative to `base`, when it lies under `base`.
pub fn strip_base_dir(full: &str, base: &str) -> (r: Option<String>)
    ensures
        match r {
            Some(x) => strip_base(full@, base@) == Some(x@),
            None => strip_base(full@, base@) is None,
        },
{
    let n = base.unicode_len();
    let len = full.unicode_len();
    if n == 0 {
        Some(String::from_str(full))
    } else if String::from_str(full) == String::from_str(base) {
        Some(String::new())
    } else if base.get_char(n - 1) == '/' && has_prefix(full, base) {
        Some(trim_leading_slashes(full.substring_char(n, len)))
    } else if len > n && has_prefix(full, base) && full.get_char(n) == '/' {
        Some(trim_leading_slashes(full.substring_char(n + 1, len)))
    } else {
        None
    }
}

/// The path under which a record with path `p`, read from the file at
/// `source`, is keyed in a cache whose base directory is `base`.
pub fn normalize_path(p: &str, source: &str, base: &str) -> (r: String)
    ensures
        r@ == spec_normalize(p@, source@, base@),
{
    let n = p.unicode_len();
    if n > 0 && (p.get_char(0) == '/' || p.get_char(0) == '\\') {
        return String::from_str(p);
    }
    let dir = match parent_of(source) {
        Some(d) => d,
        None => String::from_str(base),
    };
    let full = join_path(dir.as_str(), p);
    match strip_base_dir(full.as_str(), base) {
        Some(rel) => rel,
        None => String::from_str(p),
    }
}

} // verus!
