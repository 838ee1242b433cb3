use vstd::prelude::*;

verus! {

use vstd::string::StringSliceAdditionalSpecFns;
use crate::SyncError;
use crate::bytes::{is_prefix_of, views_of};

/// Maps client-supplied relative paths to absolute paths confined to a
/// configured root directory, and back.
pub struct ScannerContext {
    /// The directory which is the root of the whole application.
    pub base_dir: Vec<u8>,
}

/// The position of the last `/` in `s`, or `-1` when there is none.
pub open spec fn last_slash(s: Seq<u8>) -> int
    decreases s.len(),
{
    if s.len() == 0 {
        -1
    } else if s.last() == 47 {
        s.len() - 1
    } else {
        last_slash(s.drop_last())
    }
}

proof fn lemma_last_slash_range(s: Seq<u8>)
    ensures
        -1 <= last_slash(s) < s.len(),
    decreases s.len(),
{
    if s.len() > 0 && s.last() != 47 {
        lemma_last_slash_range(s.drop_last());
    }
}

/// The `/`-separated segments of a path; an empty path is one empty
/// segment.
pub open spec fn spec_segments(s: Seq<u8>) -> Seq<Seq<u8>>
    decreases s.len(),
{
    let p = last_slash(s);
    if 0 <= p && p < s.len() {
        spec_segments(s.take(p)) + seq![s.skip(p + 1)]
    } else {
        seq![s]
    }
}

/// The depth of the directory walk after the first `i` segments of a
/// root-relative path: a plain segment descends one level, `..` rises one,
/// `.` and empty segments stay.
pub open spec fn depth_after(segs: Seq<Seq<u8>>, i: int) -> int
    decreases i,
{
    if i <= 0 {
        0
    } else {
        let d = depth_after(segs, i - 1);
        let sg = segs[i - 1];
        if sg == "..".spec_bytes() {
            d - 1
        } else if sg == ".".spec_bytes() || sg.len() == 0 {
            d
        } else {
            d + 1
        }
    }
}

/// Whether walking the path's segments ever rises above the directory it
/// starts from: joined under the root, such a path would resolve outside
/// it. A `..` that only cancels an earlier plain segment does not escape.
pub open spec fn spec_escapes(s: Seq<u8>) -> bool {
    exists|i: int|
        1 <= i <= spec_segments(s).len() && depth_after(#[trigger] spec_segments(s), i) < 0
}

/// `s` with every leading `/` removed, so an absolute path is reinterpreted
/// as root-relative.
pub open spec fn spec_strip_leading_slashes(s: Seq<u8>) -> Seq<u8>
    decreases s.len(),
{
    if s.len() > 0 && s[0] == 47 {
        spec_strip_leading_slashes(s.skip(1))
    } else {
        s
    }
}

/// What `to_absolute_path` resolves `path` to under `base`: the root, a
/// separator, and the stripped relative path — or nothing, when the path's
/// traversal segments would rise above the root.
pub open spec fn spec_to_absolute(base: Seq<u8>, path: Seq<u8>) -> Option<Seq<u8>> {
    let rel = spec_strip_leading_slashes(path);
    if spec_escapes(rel) {
        Option::None
    } else {
        Option::Some(base + seq![47u8] + rel)
    }
}

/// What `to_relative_path` strips `path` down to: the suffix after the root
/// prefix — or nothing, when the path does not lie inside the root.
pub open spec fn spec_to_relative(base: Seq<u8>, path: Seq<u8>) -> Option<Seq<u8>> {
    if path == base {
        Option::Some(Seq::<u8>::empty())
    } else if is_prefix_of(base + seq![47u8], path) {
        Option::Some(path.skip(base.len() as int + 1))
    } else {
        Option::None
    }
}

/// Every resolution the sandbox accepts stays under the configured root:
/// the result extends `base` with a separator, and the appended suffix
/// never walks above the root, so it cannot name anything outside it. A
/// path whose stripped form escapes is never resolved at all.
pub proof fn lemma_sandbox_confines(base: Seq<u8>, path: Seq<u8>)
    ensures
        spec_escapes(spec_strip_leading_slashes(path)) ==> spec_to_absolute(base, path)
            is None,
        spec_to_absolute(base, path) matches Some(a) ==> {
            &&& is_prefix_of(base + seq![47u8], a)
            &&& !spec_escapes(a.skip(base.len() as int + 1))
        },
{
    if spec_to_absolute(base, path) is Some {
        let rel = spec_strip_leading_slashes(path);
        let a = (base + seq![47u8] + rel);
        assert(a.take((base.len() + 1) as int) =~= base + seq![47u8]);
        assert(a.skip(base.len() as int + 1) =~= rel);
    }
}

proof fn lemma_segments_nonempty(s: Seq<u8>)
    ensures
        spec_segments(s).len() >= 1,
    decreases s.len(),
{
    let p = last_slash(s);
    if 0 <= p && p < s.len() {
        lemma_segments_nonempty(s.take(p));
    }
}

proof fn lemma_segments_push(t: Seq<u8>, c: u8)
    ensures
        c == 47 ==> spec_segments(t.push(c)) == spec_segments(t) + seq![Seq::<u8>::empty()],
        c != 47 ==> spec_segments(t.push(c)) == spec_segments(t).drop_last().push(
            spec_segments(t).last().push(c),
        ),
{
    let u = t.push(c);
    assert(u.drop_last() =~= t);
    assert(u.last() == c);
    lemma_segments_nonempty(t);
    lemma_last_slash_range(t);
    lemma_last_slash_range(u);
    if c == 47 {
        assert(last_slash(u) == u.len() - 1);
        assert(u.take(u.len() - 1) =~= t);
        assert(u.skip(u.len() as int) =~= Seq::<u8>::empty());
        assert(spec_segments(u) =~= spec_segments(t) + seq![Seq::<u8>::empty()]);
    } else {
        assert(last_slash(u) == last_slash(t));
        let p = last_slash(t);
        if p < 0 {
            assert(spec_segments(u) == seq![u]);
            assert(spec_segments(t) == seq![t]);
            assert(seq![t].drop_last() =~= Seq::<Seq<u8>>::empty());
            assert(spec_segments(t).drop_last().push(spec_segments(t).last().push(c)) =~= seq![
                t.push(c)
            ]);
        } else {
            assert(u.take(p) =~= t.take(p));
            assert(u.skip(p + 1) =~= t.skip(p + 1).push(c));
            assert((spec_segments(t.take(p)) + seq![t.skip(p + 1)]).drop_last()
                =~= spec_segments(t.take(p)));
            assert((spec_segments(t.take(p)) + seq![t.skip(p + 1)]).last() == t.skip(p + 1));
            assert(spec_segments(u) =~= spec_segments(t).drop_last().push(
                spec_segments(t).last().push(c),
            ));
        }
    }
}

fn split_segments(v: &Vec<u8>) -> (r: Vec<Vec<u8>>)
    ensures
        views_of(r@) == spec_segments(v@),
{
    let n = v.len();
    let mut out: Vec<Vec<u8>> = Vec::new();
    let mut cur: Vec<u8> = Vec::new();
    let mut i: usize = 0;
    proof {
        assert(v@.take(0) =~= Seq::<u8>::empty());
        assert(last_slash(Seq::<u8>::empty()) == -1);
        assert(views_of(out@) + seq![cur@] =~= spec_segments(v@.take(0)));
    }
    while i < n
        invariant
            i <= n,
            n == v@.len(),
            views_of(out@) + seq![cur@] == spec_segments(v@.take(i as int)),
        decreases n - i,
    {
        let ghost pre_out = views_of(out@);
        let ghost pre_cur = cur@;
        let c = v[i];
        proof {
            assert(v@.take(i as int + 1) =~= v@.take(i as int).push(c));
            lemma_segments_push(v@.take(i as int), c);
        }
        if c == 47 {
            out.push(cur);
            cur = Vec::new();
            proof {
                assert(views_of(out@) =~= pre_out.push(pre_cur));
                assert(views_of(out@) + seq![cur@] =~= (pre_out + seq![pre_cur]) + seq![
                    Seq::<u8>::empty()
                ]);
                assert(views_of(out@) + seq![cur@] =~= spec_segments(v@.take(i as int + 1)));
            }
        } else {
            cur.push(c);
            proof {
                assert((pre_out + seq![pre_cur]).drop_last() =~= pre_out);
                assert((pre_out + seq![pre_cur]).last() == pre_cur);
                assert(views_of(out@) + seq![cur@] =~= pre_out.push(pre_cur.push(c)));
                assert(views_of(out@) + seq![cur@] =~= spec_segments(v@.take(i as int + 1)));
            }
        }
        i = i + 1;
    }
    assert(v@.take(n as int) =~= v@);
    out.push(cur);
    proof {
        assert(views_of(out@) =~= spec_segments(v@));
    }
    out
}

/// Decides `spec_escapes` by walking the segments with a depth counter.
fn path_escapes(v: &Vec<u8>) -> (r: bool)
    ensures
        r == spec_escapes(v@),
{
    let segs = split_segments(v);
    let ghost sv = spec_segments(v@);
    let n = segs.len();
    let mut depth: usize = 0;
    let mut i: usize = 0;
    while i < n
        invariant
            i <= n,
            n == segs@.len(),
            sv == views_of(segs@),
            sv == spec_segments(v@),
            depth <= i,
            depth == depth_after(sv, i as int),
            forall|j: int| 0 <= j <= i ==> depth_after(sv, j) >= 0,
        decreases n - i,
    {
        proof {
            assert(segs@[i as int]@ == sv[i as int]);
        }
        let sg = &segs[i];
        if crate::bytes::bytes_eq(sg, "..".as_bytes()) {
            if depth == 0 {
                assert(depth_after(sv, i as int + 1) < 0);
                return true;
            }
            depth = depth - 1;
        } else if crate::bytes::bytes_eq(sg, ".".as_bytes()) || sg.len() == 0 {
        } else {
            depth = depth + 1;
        }
        i = i + 1;
    }
    assert(!spec_escapes(v@));
    false
}

impl ScannerContext {
    /// Builds a sandbox rooted at `root_dir`.
    pub fn new(root_dir: Vec<u8>) -> (r: Self)
        ensures
            r.base_dir@ == root_dir@,
    {
        ScannerContext { base_dir: root_dir }
    }

    /// Strips the root prefix from an absolute path; fails with `InvalidPath`
    /// when the path does not lie inside the root.
    pub fn to_relative_path(&self, path: &Vec<u8>) -> (r: Result<Vec<u8>, SyncError>)
        ensures
            (match r {
                Ok(rel) => spec_to_relative(self.base_dir@, path@) == Some(rel@),
                Err(e) => e == SyncError::InvalidPath && spec_to_relative(self.base_dir@, path@)
                    is None,
            }),
    {
        if crate::bytes::bytes_eq(path, self.base_dir.as_slice()) {
            let empty: Vec<u8> = Vec::new();
            assert(empty@ =~= Seq::<u8>::empty());
            return Ok(empty);
        }
        let mut prefix = crate::bytes::clone_bytes(&self.base_dir);
        prefix.push(47);
        assert(prefix@ =~= self.base_dir@ + seq![47u8]);
        if !crate::bytes::starts_with(path, prefix.as_slice()) {
            return Err(SyncError::InvalidPath);
        }
        let mut rel: Vec<u8> = Vec::new();
        let start = prefix.len();
        let n = path.len();
        let mut i: usize = start;
        while i < n
            invariant
                start <= i <= n,
                n == path@.len(),
                start == self.base_dir@.len() + 1,
                rel@ == path@.subrange(start as int, i as int),
            decreases n - i,
        {
            rel.push(path[i]);
            assert(rel@ =~= path@.subrange(start as int, i as int + 1));
            i = i + 1;
        }
        assert(rel@ =~= path@.skip(self.base_dir@.len() as int + 1));
        Ok(rel)
    }

    /// Joins a root-relative path under the root. An absolute input is
    /// reinterpreted as root-relative by stripping its leading separators; a
    /// path whose `..` segments would rise above the root fails with
    /// `InvalidPath` and is never resolved. A `..` that only cancels an
    /// earlier segment of the same path is joined like any other segment.
    pub fn to_absolute_path(&self, path: &Vec<u8>) -> (r: Result<Vec<u8>, SyncError>)
        ensures
            (match r {
                Ok(abs) => spec_to_absolute(self.base_dir@, path@) == Some(abs@),
                Err(e) => e == SyncError::InvalidPath && spec_to_absolute(self.base_dir@, path@)
                    is None,
            }),
    {
        let n = path.len();
        let mut start: usize = 0;
        assert(path@.skip(0) =~= path@);
        while start < n && path[start] == 47
            invariant
                start <= n,
                n == path@.len(),
                spec_strip_leading_slashes(path@) == spec_strip_leading_slashes(
                    path@.skip(start as int),
                ),
            decreases n - start,
        {
            proof {
                assert(path@.skip(start as int).skip(1) =~= path@.skip(start as int + 1));
            }
            start = start + 1;
        }
        proof {
            if start < n {
                assert(path@.skip(start as int)[0] == path@[start as int]);
            }
            assert(spec_strip_leading_slashes(path@.skip(start as int)) =~= path@.skip(
                start as int,
            ));
        }
        let mut rel: Vec<u8> = Vec::new();
        let mut i: usize = start;
        while i < n
            invariant
                start <= i <= n,
                n == path@.len(),
                rel@ == path@.subrange(start as int, i as int),
            decreases n - i,
        {
            rel.push(path[i]);
            assert(rel@ =~= path@.subrange(start as int, i as int + 1));
            i = i + 1;
        }
        assert(rel@ =~= spec_strip_leading_slashes(path@));
        if path_escapes(&rel) {
            return Err(SyncError::InvalidPath);
        }
        let mut abs = crate::bytes::clone_bytes(&self.base_dir);
        abs.push(47);
        crate::bytes::push_bytes(&mut abs, rel.as_slice());
        assert(abs@ =~= self.base_dir@ + seq![47u8] + rel@);
        Ok(abs)
    }
}

} // verus!
