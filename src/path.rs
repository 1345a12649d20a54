use vstd::prelude::*;
use vstd::string::*;

use crate::archive::opt_view;

verus! {

/// Whether the end of `p` is a separator, or a `.` segment after one:
/// something that does not change the path's final component.
pub open spec fn ends_in_filler(p: Seq<char>) -> bool {
    ||| p.len() > 0 && p.last() == '/'
    ||| p.len() >= 2 && p.last() == '.' && p[p.len() - 2] == '/'
}

/// `p` without the separators and `.` segments at its end.
pub open spec fn trim_tail(p: Seq<char>) -> Seq<char>
    decreases p.len(),
{
    if ends_in_filler(p) {
        trim_tail(p.drop_last())
    } else {
        p
    }
}

/// The text of `p` after its last path separator (all of `p` when it has none).
pub open spec fn last_segment(p: Seq<char>) -> Seq<char>
    decreases p.len(),
{
    if p.len() == 0 || p.last() == '/' {
        Seq::empty()
    } else {
        last_segment(p.drop_last()).push(p.last())
    }
}

/// The final component of a path: the last segment once trailing separators
/// and `.` segments are dropped, unless that is empty, `.` or `..`.
pub open spec fn file_name(p: Seq<char>) -> Option<Seq<char>> {
    let seg = last_segment(trim_tail(p));
    if seg.len() == 0 || seg == seq!['.'] || seg == seq!['.', '.'] {
        None
    } else {
        Some(seg)
    }
}

/// The position of the last `.` in `n`, if any.
pub open spec fn last_dot(n: Seq<char>) -> Option<int>
    decreases n.len(),
{
    if n.len() == 0 {
        None
    } else if n.last() == '.' {
        Some(n.len() - 1)
    } else {
        last_dot(n.drop_last())
    }
}

/// The extension of a path: what follows the last `.` of its final component,
/// when that `.` is not the component's first character.
pub open spec fn extension(p: Seq<char>) -> Option<Seq<char>> {
    match file_name(p) {
        None => None,
        Some(n) => match last_dot(n) {
            Some(d) => if d > 0 {
                Some(n.subrange(d + 1, n.len() as int))
            } else {
                None
            },
            None => None,
        },
    }
}

proof fn lemma_segment_unfold(p: Seq<char>, b: int)
    requires
        0 <= b <= p.len(),
        forall|k: int| b <= k < p.len() ==> #[trigger] p[k] != '/',
        b == 0 || p[b - 1] == '/',
    ensures
        last_segment(p) == p.subrange(b, p.len() as int),
    decreases p.len() - b,
{
    if b < p.len() {
        lemma_segment_unfold(p.drop_last(), b);
        assert(p.drop_last().subrange(b, p.len() - 1).push(p.last()) =~= p.subrange(
            b,
            p.len() as int,
        ));
    } else {
        if p.len() > 0 {
            assert(p.last() == '/');
        }
        assert(p.subrange(b, p.len() as int) =~= Seq::<char>::empty());
    }
}

proof fn lemma_last_dot_unfold(n: Seq<char>, k: int)
    requires
        0 <= k <= n.len(),
        forall|j: int| k <= j < n.len() ==> #[trigger] n[j] != '.',
    ensures
        last_dot(n) == last_dot(n.subrange(0, k)),
    decreases n.len() - k,
{
    if k < n.len() {
        assert(n.drop_last() =~= n.subrange(0, n.len() - 1));
        lemma_last_dot_unfold(n.drop_last(), k);
        assert(n.drop_last().subrange(0, k) =~= n.subrange(0, k));
    } else {
        assert(n.subrange(0, k) =~= n);
    }
}

/// Whether `path[..end]` ends in a separator or a `.` segment.
fn ends_in_filler_at(path: &str, end: usize) -> (r: bool)
    requires
        end <= path@.len(),
    ensures
        r == ends_in_filler(path@.subrange(0, end as int)),
{
    if end == 0 {
        return false;
    }
    let last = path.get_char(end - 1);
    last == '/' || (end >= 2 && last == '.' && path.get_char(end - 2) == '/')
}

/// Whether `s` is `.` or `..`.
fn is_dot_name(s: &str, n: usize) -> (r: bool)
    requires
        n == s@.len(),
    ensures
        r == (s@ == seq!['.'] || s@ == seq!['.', '.']),
{
    if n == 1 {
        let r = s.get_char(0) == '.';
        proof {
            if r {
                assert(s@ =~= seq!['.']);
            }
        }
        r
    } else if n == 2 {
        let r = s.get_char(0) == '.' && s.get_char(1) == '.';
        proof {
            if r {
                assert(s@ =~= seq!['.', '.']);
            }
        }
        r
    } else {
        false
    }
}

/// The final component of `path`; see `file_name`.
pub(crate) fn final_component(path: &str) -> (r: Option<String>)
    ensures
        opt_view(r) == file_name(path@),
{
    let ghost p = path@;
    let n = path.unicode_len();
    let mut end = n;
    proof {
        assert(p.subrange(0, n as int) =~= p);
    }
    while ends_in_filler_at(path, end)
        invariant
            p == path@,
            n == p.len(),
            end <= n,
            trim_tail(p) == trim_tail(p.subrange(0, end as int)),
        decreases end,
    {
        proof {
            assert(p.subrange(0, end as int).drop_last() =~= p.subrange(0, end - 1));
        }
        end = end - 1;
    }
    let mut start = end;
    while start > 0 && path.get_char(start - 1) != '/'
        invariant
            p == path@,
            n == p.len(),
            start <= end <= n,
            forall|k: int| start <= k < end ==> #[trigger] p[k] != '/',
        decreases start,
    {
        start = start - 1;
    }
    let ghost t = p.subrange(0, end as int);
    proof {
        lemma_segment_unfold(t, start as int);
        assert(t.subrange(start as int, end as int) =~= p.subrange(start as int, end as int));
    }
    let seg = path.substring_char(start, end);
    if end == start || is_dot_name(seg, end - start) {
        None
    } else {
        Some(seg.to_owned())
    }
}

/// The extension of `path`; see `extension`.
pub(crate) fn extension_of(path: &str) -> (r: Option<String>)
    ensures
        opt_view(r) == extension(path@),
{
    match final_component(path) {
        None => None,
        Some(name) => {
            let ghost nv = name@;
            let n = name.as_str().unicode_len();
            let mut k = n;
            while k > 0 && name.as_str().get_char(k - 1) != '.'
                invariant
                    nv == name@,
                    n == nv.len(),
                    k <= n,
                    forall|j: int| k <= j < n ==> #[trigger] nv[j] != '.',
                decreases k,
            {
                k = k - 1;
            }
            proof {
                lemma_last_dot_unfold(nv, k as int);
                if k > 0 {
                    assert(nv.subrange(0, k as int).last() == '.');
                } else {
                    assert(nv.subrange(0, 0) =~= Seq::<char>::empty());
                }
            }
            if k > 1 {
                Some(name.as_str().substring_char(k, n).to_owned())
            } else {
                None
            }
        },
    }
}

} // verus!
