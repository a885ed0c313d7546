//! Device-side POSIX paths, modelled as plain strings: joining, parents,
//! component-wise prefixes, and the composition of a device path from
//! host-side tail components.

use vstd::prelude::*;

use crate::error::DeviceError;
use crate::strutil::{spec_split_char, spec_starts_with, split_char, str_eq, str_starts_with};

verus! {

/// `p` without its trailing slashes.
pub open spec fn spec_strip_trailing_slashes(p: Seq<char>) -> Seq<char>
    decreases p.len(),
{
    if p.len() > 0 && p.last() == '/' {
        spec_strip_trailing_slashes(p.drop_last())
    } else {
        p
    }
}

/// The index of the last occurrence of `c` in `s`, or -1.
pub open spec fn spec_rfind_char(s: Seq<char>, c: char) -> int
    decreases s.len(),
{
    if s.len() == 0 {
        -1
    } else if s.last() == c {
        s.len() - 1
    } else {
        spec_rfind_char(s.drop_last(), c)
    }
}

/// The parent of a POSIX path: the path without its last component, `/`
/// for a top-level absolute component, the empty path for a bare relative
/// component, and nothing for the root or the empty path.
#[verifier::opaque]
pub open spec fn spec_path_parent(p: Seq<char>) -> Option<Seq<char>> {
    let q = spec_strip_trailing_slashes(p);
    if q.len() == 0 {
        None
    } else {
        let i = spec_rfind_char(q, '/');
        if i == -1 {
            Some(Seq::empty())
        } else {
            let r = spec_strip_trailing_slashes(q.take(i));
            if r.len() == 0 {
                Some(seq!['/'])
            } else {
                Some(r)
            }
        }
    }
}

/// Stripping trailing slashes never lengthens a path.
proof fn lemma_strip_len(p: Seq<char>)
    ensures
        spec_strip_trailing_slashes(p).len() <= p.len(),
    decreases p.len(),
{
    if p.len() > 0 && p.last() == '/' {
        lemma_strip_len(p.drop_last());
    }
}

/// After stripping, a non-empty path does not end with a slash.
proof fn lemma_strip_no_trailing(p: Seq<char>)
    ensures
        spec_strip_trailing_slashes(p).len() > 0 ==> spec_strip_trailing_slashes(p).last() != '/',
    decreases p.len(),
{
    if p.len() > 0 && p.last() == '/' {
        lemma_strip_no_trailing(p.drop_last());
    }
}

/// Where the last occurrence search lands: inside the string, on the
/// character searched for.
proof fn lemma_rfind_bounds(s: Seq<char>, c: char)
    ensures
        spec_rfind_char(s, c) != -1 ==> 0 <= spec_rfind_char(s, c) < s.len() && s[spec_rfind_char(
            s,
            c,
        )] == c,
    decreases s.len(),
{
    if s.len() > 0 && s.last() != c {
        lemma_rfind_bounds(s.drop_last(), c);
    }
}

/// A path's parent is strictly shorter than the path.
pub proof fn lemma_parent_shorter(p: Seq<char>)
    ensures
        spec_path_parent(p) matches Some(q) ==> q.len() < p.len(),
{
    reveal(spec_path_parent);
    let q = spec_strip_trailing_slashes(p);
    lemma_strip_len(p);
    lemma_strip_no_trailing(p);
    if q.len() > 0 {
        let i = spec_rfind_char(q, '/');
        lemma_rfind_bounds(q, '/');
        if i != -1 {
            lemma_strip_len(q.take(i));
            assert(q[i] == '/');
            assert(q.last() != '/');
            assert(i < q.len() - 1);
        }
    }
}

/// A path extended by one relative component.
pub open spec fn spec_path_join(base: Seq<char>, seg: Seq<char>) -> Seq<char> {
    if base.len() == 0 {
        seg
    } else if base.last() == '/' {
        base + seg
    } else {
        base + seq!['/'] + seg
    }
}

/// Component-wise path prefix, for paths without duplicate separators:
/// `base` is an ancestor of `path` or equal to it.
pub open spec fn spec_path_starts_with(path: Seq<char>, base: Seq<char>) -> bool {
    base.len() == 0 || path == base || spec_starts_with(path, base + seq!['/'])
}

fn strip_trailing_slashes(p: &str) -> (r: String)
    ensures
        r@ == spec_strip_trailing_slashes(p@),
    decreases p@.len(),
{
    let len = p.unicode_len();
    if len > 0 && p.get_char(len - 1) == '/' {
        let head = p.substring_char(0, len - 1);
        proof {
            assert(head@ =~= p@.drop_last());
        }
        strip_trailing_slashes(head)
    } else {
        p.to_owned()
    }
}

fn rfind_slash(p: &str) -> (r: Option<usize>)
    ensures
        r is None ==> spec_rfind_char(p@, '/') == -1,
        r matches Some(i) ==> i as int == spec_rfind_char(p@, '/') && i < p@.len(),
    decreases p@.len(),
{
    let len = p.unicode_len();
    if len == 0 {
        None
    } else if p.get_char(len - 1) == '/' {
        Some(len - 1)
    } else {
        let head = p.substring_char(0, len - 1);
        proof {
            assert(head@ =~= p@.drop_last());
        }
        rfind_slash(head)
    }
}

/// The parent of `path`, as `unix` path semantics give it.
pub fn path_parent(path: &str) -> (r: Option<String>)
    ensures
        (r is Some) == (spec_path_parent(path@) is Some),
        r matches Some(s) ==> s@ == spec_path_parent(path@).unwrap(),
{
    proof {
        reveal(spec_path_parent);
    }
    let q = strip_trailing_slashes(path);
    if q.as_str().is_empty() {
        return None;
    }
    match rfind_slash(q.as_str()) {
        None => Some(String::new()),
        Some(i) => {
            let head = q.as_str().substring_char(0, i);
            proof {
                assert(head@ =~= q@.take(i as int));
            }
            let stripped = strip_trailing_slashes(head);
            if stripped.as_str().is_empty() {
                proof {
                    reveal_strlit("/");
                }
                Some(String::from_str("/"))
            } else {
                Some(stripped)
            }
        },
    }
}

/// Joins `base` and the relative component `seg` with a single separator.
pub fn path_join(base: &str, seg: &str) -> (r: String)
    ensures
        r@ == spec_path_join(base@, seg@),
{
    let blen = base.unicode_len();
    if blen == 0 {
        return seg.to_owned();
    }
    if base.get_char(blen - 1) == '/' {
        base.to_owned().concat(seg)
    } else {
        proof {
            reveal_strlit("/");
        }
        let r = base.to_owned().concat("/").concat(seg);
        proof {
            assert(r@ =~= base@ + seq!['/'] + seg@);
        }
        r
    }
}

/// Whether `base` is a component-wise ancestor of `path` or equal to it.
pub fn path_starts_with(path: &str, base: &str) -> (r: bool)
    ensures
        r == spec_path_starts_with(path@, base@),
{
    let blen = base.unicode_len();
    if blen == 0 {
        return true;
    }
    if str_eq(path, base) {
        return true;
    }
    proof {
        reveal_strlit("/");
    }
    let prefix = base.to_owned().concat("/");
    proof {
        assert(prefix@ =~= base@ + seq!['/']);
    }
    str_starts_with(path, prefix.as_str())
}

/// The device path reached from `base` by the segments of `segs`,
/// skipping the empty segments that duplicate separators leave behind.
pub open spec fn spec_join_rel(base: Seq<char>, segs: Seq<Seq<char>>) -> Seq<char>
    decreases segs.len(),
{
    if segs.len() == 0 {
        base
    } else if segs[0].len() == 0 {
        spec_join_rel(base, segs.drop_first())
    } else {
        spec_join_rel(spec_path_join(base, segs[0]), segs.drop_first())
    }
}

/// A tail segment that names a real directory entry: not `.` and not `..`.
pub open spec fn spec_plain_component(seg: Seq<char>) -> bool {
    seg != "."@ && seg != ".."@
}

/// The tail is relative and made of plain components: it does not start at
/// the root, and no component is `.` or `..`.
pub open spec fn spec_components_ok(tail: Seq<char>) -> bool {
    let segs = spec_split_char(tail, '/');
    &&& !(tail.len() > 0 && tail[0] == '/')
    &&& forall|i: int| 0 <= i < segs.len() ==> spec_plain_component(#[trigger] segs[i])
}

/// Composes a device path from `base` and a host-relative `tail`: each
/// separator-delimited segment of the tail is appended in turn.  Root,
/// current and parent components are rejected as path errors.
pub fn append_components(base: &str, tail: &str) -> (r: Result<String, DeviceError>)
    ensures
        spec_components_ok(tail@) ==> (r matches Ok(p) && p@ == spec_join_rel(
            base@,
            spec_split_char(tail@, '/'),
        )),
        !spec_components_ok(tail@) ==> (r matches Err(e) && e matches DeviceError::Io(_)),
{
    let tlen = tail.unicode_len();
    if tlen > 0 && tail.get_char(0) == '/' {
        return Err(
            DeviceError::Io(String::from_str("Unexpected path component")),
        );
    }
    let segs = split_char(tail, '/');
    let ghost gsegs = spec_split_char(tail@, '/');
    let n = segs.len();
    let mut acc = base.to_owned();
    let mut i: usize = 0;
    proof {
        assert(segs.deep_view().len() == segs@.len());
        assert(gsegs.skip(0) =~= gsegs);
    }
    while i < n
        invariant
            n == segs@.len(),
            gsegs == spec_split_char(tail@, '/'),
            segs.deep_view() == gsegs,
            segs@.len() == segs.deep_view().len(),
            forall|j: int| 0 <= j < n ==> segs.deep_view()[j] == segs@[j]@,
            0 <= i <= n,
            forall|j: int| 0 <= j < i ==> spec_plain_component(#[trigger] gsegs[j]),
            spec_join_rel(base@, gsegs) == spec_join_rel(acc@, gsegs.skip(i as int)),
        decreases n - i,
    {
        let seg = &segs[i];
        proof {
            assert(gsegs.skip(i as int)[0] == gsegs[i as int]);
            assert(gsegs.skip(i as int).drop_first() =~= gsegs.skip(i as int + 1));
        }
        if str_eq(seg.as_str(), ".") || str_eq(seg.as_str(), "..") {
            proof {
                let j = i as int;
                assert((*seg)@ == "."@ || (*seg)@ == ".."@);
                assert(segs@[j]@ == (*seg)@);
                assert(gsegs[j] == segs@[j]@);
                assert(0 <= j < spec_split_char(tail@, '/').len());
                assert(!spec_plain_component(spec_split_char(tail@, '/')[j]));
                assert(!spec_components_ok(tail@));
            }
            return Err(
                DeviceError::Io(String::from_str("Unexpected path component")),
            );
        }
        if !seg.as_str().is_empty() {
            acc = path_join(acc.as_str(), seg.as_str());
        }
        i = i + 1;
    }
    proof {
        assert(gsegs.skip(n as int) =~= Seq::<Seq<char>>::empty());
    }
    Ok(acc)
}

} // verus!
