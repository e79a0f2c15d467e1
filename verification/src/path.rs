//! Paths of the backend: how a request path is normalized, what its parent
//! is, and which host paths a normalized path stands for under a root.
use vstd::prelude::*;

use crate::error::{BackendError, ErrorView, Result};
use crate::text::{chars_of, string_from_chars, string_from_str};

verus! {

/// `s` cut at every `'/'`, as `str::split('/')` cuts it: the empty string
/// gives one empty segment, and `"a//b/"` gives `a`, ``, `b`, ``.
pub open spec fn split_slash(s: Seq<char>) -> Seq<Seq<char>>
    decreases s.len(),
{
    if s.len() == 0 {
        seq![Seq::empty()]
    } else {
        let p = split_slash(s.drop_last());
        if s.last() == '/' {
            p.push(Seq::empty())
        } else {
            p.update(p.len() - 1, p.last().push(s.last()))
        }
    }
}

/// The segments joined with `'/'` between them.
pub open spec fn join_slash(segs: Seq<Seq<char>>) -> Seq<char>
    decreases segs.len(),
{
    if segs.len() == 0 {
        Seq::empty()
    } else if segs.len() == 1 {
        segs[0]
    } else {
        join_slash(segs.drop_last()) + seq!['/'] + segs.last()
    }
}

/// A segment that normalization keeps: not empty and not `.`.
pub open spec fn is_kept(seg: Seq<char>) -> bool {
    seg.len() > 0 && seg != seq!['.']
}

/// The segment `..`, which normalization refuses.
pub open spec fn is_parent_ref(seg: Seq<char>) -> bool {
    seg == seq!['.', '.']
}

/// A segment without `'/'`.
pub open spec fn is_plain(seg: Seq<char>) -> bool {
    forall|k: int| 0 <= k < seg.len() ==> seg[k] != '/'
}

/// A segment of a normalized path.
pub open spec fn is_normal_segment(seg: Seq<char>) -> bool {
    is_kept(seg) && !is_parent_ref(seg) && is_plain(seg)
}

/// The kept segments, in order.
pub open spec fn kept_segments(segs: Seq<Seq<char>>) -> Seq<Seq<char>>
    decreases segs.len(),
{
    if segs.len() == 0 {
        segs
    } else if is_kept(segs.last()) {
        kept_segments(segs.drop_last()).push(segs.last())
    } else {
        kept_segments(segs.drop_last())
    }
}

/// Some segment is `..`.
pub open spec fn has_parent_ref(segs: Seq<Seq<char>>) -> bool {
    exists|i: int| 0 <= i < segs.len() && is_parent_ref(#[trigger] segs[i])
}

/// The normalized form of `path`: its segments without the empty ones and
/// `.`, joined by `'/'`; none where a segment is `..`.
pub open spec fn normalized_view(path: Seq<char>) -> Option<Seq<char>> {
    if has_parent_ref(split_slash(path)) {
        None
    } else {
        Some(join_slash(kept_segments(split_slash(path))))
    }
}

/// What `normalize_path` gives for `path`.
pub open spec fn normalize_outcome(path: Seq<char>) -> std::result::Result<Seq<char>, ErrorView> {
    match normalized_view(path) {
        Some(n) => Ok(n),
        None => Err(ErrorView::InvalidPath { path }),
    }
}

/// The segments of a normalized path: none for the root (the empty path).
pub open spec fn path_segments(n: Seq<char>) -> Seq<Seq<char>> {
    if n.len() == 0 {
        Seq::empty()
    } else {
        split_slash(n)
    }
}

/// `n` is a normalized path: every segment is a plain name, neither `.`
/// nor `..` nor empty.
pub open spec fn is_normalized(n: Seq<char>) -> bool {
    forall|k: int|
        0 <= k < path_segments(n).len() ==> is_normal_segment(#[trigger] path_segments(n)[k])
}

/// The view of a string result.
pub open spec fn string_outcome(r: Result<String>) -> std::result::Result<Seq<char>, ErrorView> {
    match r {
        Ok(s) => Ok(s@),
        Err(e) => Err(e@),
    }
}

pub proof fn lemma_split_len(s: Seq<char>)
    ensures
        split_slash(s).len() >= 1,
    decreases s.len(),
{
    if s.len() > 0 {
        lemma_split_len(s.drop_last());
    }
}

/// Every segment of a split is plain.
pub proof fn lemma_split_plain(s: Seq<char>)
    ensures
        forall|k: int| 0 <= k < split_slash(s).len() ==> is_plain(#[trigger] split_slash(s)[k]),
    decreases s.len(),
{
    if s.len() > 0 {
        lemma_split_plain(s.drop_last());
        lemma_split_len(s.drop_last());
        let p = split_slash(s.drop_last());
        if s.last() != '/' {
            assert forall|k: int| 0 <= k < split_slash(s).len() implies is_plain(
                #[trigger] split_slash(s)[k],
            ) by {
                if k == p.len() - 1 {
                    let seg = p.last().push(s.last());
                    assert(is_plain(p[k]));
                    assert forall|j: int| 0 <= j < seg.len() implies seg[j] != '/' by {
                        if j < p.last().len() {
                            assert(seg[j] == p[k][j]);
                        }
                    }
                }
            }
        }
    }
}

/// A plain string is a single segment.
pub proof fn lemma_split_of_plain(t: Seq<char>)
    requires
        is_plain(t),
    ensures
        split_slash(t) == seq![t],
    decreases t.len(),
{
    if t.len() > 0 {
        assert(is_plain(t.drop_last()));
        lemma_split_of_plain(t.drop_last());
        assert(t[t.len() - 1] != '/');
        assert(t.drop_last().push(t.last()) =~= t);
        assert(split_slash(t) =~= seq![t]);
    } else {
        assert(t =~= Seq::<char>::empty());
    }
}

/// Splitting `a`, a slash, and a plain `t` adds `t` as the last segment.
pub proof fn lemma_split_append(a: Seq<char>, t: Seq<char>)
    requires
        is_plain(t),
    ensures
        split_slash(a + seq!['/'] + t) == split_slash(a).push(t),
    decreases t.len(),
{
    let s = a + seq!['/'] + t;
    if t.len() == 0 {
        assert(s.drop_last() =~= a);
        assert(s =~= a.push('/'));
        assert(t =~= Seq::<char>::empty());
    } else {
        assert(is_plain(t.drop_last()));
        lemma_split_append(a, t.drop_last());
        assert(s.drop_last() =~= a + seq!['/'] + t.drop_last());
        assert(s.last() == t.last());
        assert(t.drop_last().push(t.last()) =~= t);
        assert(split_slash(s) =~= split_slash(a).push(t));
    }
}

/// Splitting a join of plain segments gives the segments back.
pub proof fn lemma_split_join(segs: Seq<Seq<char>>)
    requires
        segs.len() >= 1,
        forall|k: int| 0 <= k < segs.len() ==> is_plain(#[trigger] segs[k]),
    ensures
        split_slash(join_slash(segs)) == segs,
    decreases segs.len(),
{
    if segs.len() == 1 {
        assert(is_plain(segs[0]));
        lemma_split_of_plain(segs[0]);
        assert(segs =~= seq![segs[0]]);
    } else {
        let d = segs.drop_last();
        assert forall|k: int| 0 <= k < d.len() implies is_plain(#[trigger] d[k]) by {
            assert(d[k] == segs[k]);
        }
        lemma_split_join(d);
        assert(is_plain(segs[segs.len() - 1]));
        lemma_split_append(join_slash(d), segs.last());
        assert(d.push(segs.last()) =~= segs);
    }
}

/// Joining the segments of a split gives the string back.
pub proof fn lemma_join_split(s: Seq<char>)
    ensures
        join_slash(split_slash(s)) == s,
    decreases s.len(),
{
    if s.len() > 0 {
        let t = s.drop_last();
        lemma_join_split(t);
        lemma_split_len(t);
        let p = split_slash(t);
        if s.last() == '/' {
            assert(split_slash(s).drop_last() =~= p);
            assert(s =~= t + seq!['/'] + Seq::<char>::empty());
        } else {
            let q = split_slash(s);
            assert(q.len() == p.len());
            if p.len() == 1 {
                assert(join_slash(p) == p[0]);
                assert(q[0] == p[0].push(s.last()));
                assert(s =~= t.push(s.last()));
            } else {
                assert(q.drop_last() =~= p.drop_last());
                assert(q.last() == p.last().push(s.last()));
                assert(join_slash(p) == join_slash(p.drop_last()) + seq!['/'] + p.last());
                assert(join_slash(q) == join_slash(q.drop_last()) + seq!['/'] + q.last());
                assert(s =~= t.push(s.last()));
                assert(s =~= join_slash(p.drop_last()) + seq!['/'] + p.last().push(s.last()));
            }
        }
    }
}

/// Normalization keeps what is kept, in order; a kept segment taken from
/// segments with property `P` has `P` too.
pub proof fn lemma_kept_normal(segs: Seq<Seq<char>>)
    requires
        forall|k: int| 0 <= k < segs.len() ==> is_plain(#[trigger] segs[k]),
        !has_parent_ref(segs),
    ensures
        forall|k: int|
            0 <= k < kept_segments(segs).len() ==> is_normal_segment(
                #[trigger] kept_segments(segs)[k],
            ),
        kept_segments(segs).len() <= segs.len(),
    decreases segs.len(),
{
    if segs.len() > 0 {
        let d = segs.drop_last();
        assert forall|k: int| 0 <= k < d.len() implies is_plain(#[trigger] d[k]) by {
            assert(d[k] == segs[k]);
        }
        assert(!has_parent_ref(d)) by {
            if has_parent_ref(d) {
                let i = choose|i: int| 0 <= i < d.len() && is_parent_ref(#[trigger] d[i]);
                assert(segs[i] == d[i]);
            }
        }
        lemma_kept_normal(d);
        assert(is_plain(segs[segs.len() - 1]));
        assert(!is_parent_ref(segs[segs.len() - 1]));
    }
}

/// Segments that are all kept are kept as they are.
pub proof fn lemma_kept_all(segs: Seq<Seq<char>>)
    requires
        forall|k: int| 0 <= k < segs.len() ==> is_kept(#[trigger] segs[k]),
    ensures
        kept_segments(segs) == segs,
    decreases segs.len(),
{
    if segs.len() > 0 {
        let d = segs.drop_last();
        assert forall|k: int| 0 <= k < d.len() implies is_kept(#[trigger] d[k]) by {
            assert(d[k] == segs[k]);
        }
        lemma_kept_all(d);
        assert(is_kept(segs[segs.len() - 1]));
        assert(d.push(segs.last()) =~= segs);
    }
}

/// A join of kept segments is empty exactly when there are none.
pub proof fn lemma_join_empty(segs: Seq<Seq<char>>)
    requires
        forall|k: int| 0 <= k < segs.len() ==> is_kept(#[trigger] segs[k]),
    ensures
        (join_slash(segs).len() == 0) == (segs.len() == 0),
    decreases segs.len(),
{
    if segs.len() > 1 {
        let d = segs.drop_last();
        assert forall|k: int| 0 <= k < d.len() implies is_kept(#[trigger] d[k]) by {
            assert(d[k] == segs[k]);
        }
        lemma_join_empty(d);
    } else if segs.len() == 1 {
        assert(is_kept(segs[0]));
    }
}

/// The segments of a normalized result are the kept segments of the input.
pub proof fn lemma_normalized_segments(path: Seq<char>)
    requires
        normalized_view(path) is Some,
    ensures
        path_segments(normalized_view(path)->0) == kept_segments(split_slash(path)),
        is_normalized(normalized_view(path)->0),
{
    let segs = kept_segments(split_slash(path));
    lemma_split_plain(path);
    lemma_kept_normal(split_slash(path));
    assert forall|k: int| 0 <= k < segs.len() implies is_kept(#[trigger] segs[k]) by {
        assert(is_normal_segment(segs[k]));
    }
    lemma_join_empty(segs);
    if segs.len() > 0 {
        assert forall|k: int| 0 <= k < segs.len() implies is_plain(#[trigger] segs[k]) by {
            assert(is_normal_segment(segs[k]));
        }
        lemma_split_join(segs);
    }
}

/// A normalized path is the join of its segments.
pub proof fn lemma_normalized_rejoins(n: Seq<char>)
    ensures
        join_slash(path_segments(n)) == n,
{
    if n.len() > 0 {
        lemma_join_split(n);
    }
}

/// Normalizing a normalized path gives it back unchanged.
pub proof fn lemma_normalize_idempotent(path: Seq<char>)
    requires
        normalized_view(path) is Some,
    ensures
        normalized_view(normalized_view(path)->0) == normalized_view(path),
{
    let n = normalized_view(path)->0;
    lemma_normalized_segments(path);
    let segs = path_segments(n);
    assert forall|k: int| 0 <= k < segs.len() implies is_kept(#[trigger] segs[k]) by {
        assert(is_normal_segment(segs[k]));
    }
    if n.len() == 0 {
        let sp = split_slash(n);
        assert(sp =~= seq![Seq::<char>::empty()]);
        assert(sp.drop_last() =~= Seq::<Seq<char>>::empty());
        assert(!is_kept(sp.last()));
        assert(kept_segments(sp.drop_last()).len() == 0);
        assert(kept_segments(sp).len() == 0);
        assert(!has_parent_ref(split_slash(n))) by {
            assert(!is_parent_ref(split_slash(n)[0]));
        }
    } else {
        lemma_kept_all(segs);
        assert(!has_parent_ref(segs)) by {
            assert forall|i: int| 0 <= i < segs.len() implies !is_parent_ref(#[trigger] segs[i]) by {
                assert(is_normal_segment(segs[i]));
            }
        }
        lemma_normalized_rejoins(n);
    }
}

/// Removes the empty and `.` segments of `path` and refuses `..`.
pub fn normalize_path(path: &str) -> (r: Result<String>)
    ensures
        string_outcome(r) == normalize_outcome(path@),
        r matches Ok(n) ==> is_normalized(n@),
{
    let chars = chars_of(path);
    let mut out: Vec<char> = Vec::new();
    let mut n_kept: usize = 0;
    let mut cur: Vec<char> = Vec::new();
    let mut bad = false;
    let ghost mut done: Seq<Seq<char>> = Seq::empty();
    let mut i: usize = 0;
    assert(chars@.take(0) =~= Seq::<char>::empty());
    assert(split_slash(chars@.take(0)) =~= done.push(cur@));
    while i < chars.len()
        invariant
            i <= chars.len(),
            split_slash(chars@.take(i as int)) == done.push(cur@),
            out@ == join_slash(kept_segments(done)),
            n_kept == kept_segments(done).len(),
            n_kept <= done.len(),
            done.len() <= i,
            forall|k: int|
                0 <= k < kept_segments(done).len() ==> is_kept(#[trigger] kept_segments(done)[k]),
            bad == has_parent_ref(done),
        decreases chars.len() - i,
    {
        let c = chars[i];
        let ghost before = chars@.take(i as int);
        assert(chars@.take(i + 1).drop_last() =~= before);
        if c == '/' {
            proof {
                finish_segment_facts(done, cur@);
            }
            if is_parent_segment(&cur) {
                bad = true;
            }
            if keeps_segment(&cur) {
                if n_kept > 0 {
                    out.push('/');
                }
                append_chars(&mut out, &cur);
                n_kept = n_kept + 1;
            }
            proof {
                done = done.push(cur@);
            }
            cur = Vec::new();
            assert(split_slash(chars@.take(i + 1)) =~= done.push(cur@));
        } else {
            cur.push(c);
            assert(split_slash(chars@.take(i + 1)) =~= done.push(cur@));
        }
        i = i + 1;
    }
    proof {
        finish_segment_facts(done, cur@);
    }
    if is_parent_segment(&cur) {
        bad = true;
    }
    if keeps_segment(&cur) {
        if n_kept > 0 {
            out.push('/');
        }
        append_chars(&mut out, &cur);
    }
    proof {
        done = done.push(cur@);
        assert(chars@.take(chars.len() as int) =~= path@);
        assert(split_slash(path@) == done);
        assert(out@ == join_slash(kept_segments(done)));
        assert(bad == has_parent_ref(done));
    }
    if bad {
        return Err(BackendError::InvalidPath { path: string_from_str(path) });
    }
    proof {
        lemma_normalized_segments(path@);
    }
    Ok(string_from_chars(&out))
}

/// What finishing a segment does to the kept segments and their join.
proof fn finish_segment_facts(done: Seq<Seq<char>>, seg: Seq<char>)
    requires
        forall|k: int|
            0 <= k < kept_segments(done).len() ==> is_kept(#[trigger] kept_segments(done)[k]),
    ensures
        kept_segments(done.push(seg)) == if is_kept(seg) {
            kept_segments(done).push(seg)
        } else {
            kept_segments(done)
        },
        is_kept(seg) ==> join_slash(kept_segments(done.push(seg))) == if kept_segments(
            done,
        ).len() == 0 {
            seg
        } else {
            join_slash(kept_segments(done)) + seq!['/'] + seg
        },
        forall|k: int|
            0 <= k < kept_segments(done.push(seg)).len() ==> is_kept(
                #[trigger] kept_segments(done.push(seg))[k],
            ),
        has_parent_ref(done.push(seg)) == (has_parent_ref(done) || is_parent_ref(seg)),
{
    assert(done.push(seg).drop_last() =~= done);
    let kd = kept_segments(done);
    if is_kept(seg) {
        let kn = kd.push(seg);
        assert(kn.drop_last() =~= kd);
        if kd.len() == 0 {
            assert(join_slash(kn) == kn[0]);
        }
        assert forall|k: int| 0 <= k < kn.len() implies is_kept(#[trigger] kn[k]) by {
            if k < kd.len() {
                assert(kn[k] == kd[k]);
            }
        }
    }
    if has_parent_ref(done.push(seg)) {
        let i = choose|i: int| 0 <= i < done.push(seg).len() && is_parent_ref(#[trigger] done.push(seg)[i]);
        if i < done.len() {
            assert(done[i] == done.push(seg)[i]);
        }
    }
    if has_parent_ref(done) {
        let i = choose|i: int| 0 <= i < done.len() && is_parent_ref(#[trigger] done[i]);
        assert(done.push(seg)[i] == done[i]);
    }
    if is_parent_ref(seg) {
        assert(done.push(seg)[done.len() as int] == seg);
    }
}

fn is_parent_segment(seg: &Vec<char>) -> (r: bool)
    ensures
        r == is_parent_ref(seg@),
{
    let r = seg.len() == 2 && seg[0] == '.' && seg[1] == '.';
    proof {
        if seg@.len() == 2 && seg@[0] == '.' && seg@[1] == '.' {
            assert(seg@ =~= seq!['.', '.']);
        }
    }
    r
}

fn keeps_segment(seg: &Vec<char>) -> (r: bool)
    ensures
        r == is_kept(seg@),
{
    if seg.len() == 0 {
        return false;
    }
    if seg.len() == 1 && seg[0] == '.' {
        assert(seg@ =~= seq!['.']);
        return false;
    }
    assert(seg@.len() != 1 || seg@[0] != '.');
    true
}

/// Appends the characters of `tail` to `v`.
pub fn append_chars(v: &mut Vec<char>, tail: &Vec<char>)
    ensures
        final(v)@ == old(v)@ + tail@,
{
    let ghost start = v@;
    let mut i: usize = 0;
    while i < tail.len()
        invariant
            i <= tail.len(),
            v@ == start + tail@.take(i as int),
        decreases tail.len() - i,
    {
        v.push(tail[i]);
        i = i + 1;
        assert(v@ =~= start + tail@.take(i as int));
    }
    assert(tail@.take(tail.len() as int) =~= tail@);
}

/// The position of the last `'/'` in `s`, or -1 where there is none.
pub open spec fn last_slash(s: Seq<char>) -> int
    decreases s.len(),
{
    if s.len() == 0 {
        -1
    } else if s.last() == '/' {
        s.len() - 1
    } else {
        last_slash(s.drop_last())
    }
}

/// The parent of `path`: what comes before its last `'/'`, the empty path
/// where it has none, and nothing for the empty path.
pub open spec fn parent_view(path: Seq<char>) -> Option<Seq<char>> {
    if path.len() == 0 {
        None
    } else if last_slash(path) < 0 {
        Some(Seq::empty())
    } else {
        Some(path.take(last_slash(path)))
    }
}

pub proof fn lemma_last_slash_bounds(s: Seq<char>)
    ensures
        -1 <= last_slash(s) < s.len(),
        last_slash(s) >= 0 ==> s[last_slash(s)] == '/',
        forall|k: int| last_slash(s) < k < s.len() ==> s[k] != '/',
    decreases s.len(),
{
    if s.len() > 0 && s.last() != '/' {
        lemma_last_slash_bounds(s.drop_last());
        assert forall|k: int| last_slash(s) < k < s.len() implies s[k] != '/' by {
            if k < s.len() - 1 {
                assert(s[k] == s.drop_last()[k]);
            }
        }
        if last_slash(s) >= 0 {
            assert(s[last_slash(s)] == s.drop_last()[last_slash(s)]);
        }
    }
}

/// The parent of `path`, as `rsplit_once('/')` finds it: `None` for the
/// empty path, the empty path where `path` has no `'/'`.
pub fn parent_dir(path: &str) -> (r: Option<&str>)
    ensures
        match r {
            Some(p) => parent_view(path@) == Some(p@),
            None => parent_view(path@) is None,
        },
{
    if path.is_empty() {
        return None;
    }
    let chars = chars_of(path);
    let mut i: usize = chars.len();
    assert(chars@.take(i as int) =~= chars@);
    while i > 0
        invariant
            i <= chars.len(),
            chars@ == path@,
            last_slash(chars@) == last_slash(chars@.take(i as int)),
        decreases i,
    {
        assert(chars@.take(i as int).drop_last() =~= chars@.take(i - 1));
        if chars[i - 1] == '/' {
            return Some(path.substring_char(0, i - 1));
        }
        i = i - 1;
    }
    Some(path.substring_char(0, 0))
}

/// Rejoining the parent, a `'/'` and the last name gives the path back, and
/// the last name holds no `'/'`; a path without a `'/'` has the empty parent.
pub proof fn lemma_parent_rejoins(path: Seq<char>)
    requires
        path.len() > 0,
    ensures
        parent_view(path) is Some,
        last_slash(path) >= 0 ==> parent_view(path)->0 + seq!['/'] + path.skip(last_slash(path)
            + 1) == path && is_plain(path.skip(last_slash(path) + 1)),
        last_slash(path) < 0 ==> is_plain(path) && parent_view(path)->0.len() == 0,
{
    lemma_last_slash_bounds(path);
    let l = last_slash(path);
    if l >= 0 {
        assert(path.take(l) + seq!['/'] + path.skip(l + 1) =~= path);
        assert forall|k: int| 0 <= k < path.skip(l + 1).len() implies #[trigger] path.skip(
            l + 1,
        )[k] != '/' by {
            assert(path.skip(l + 1)[k] == path[l + 1 + k]);
        }
    }
}

/// The parent of a path has fewer segments than the path itself.
pub proof fn lemma_parent_segments(path: Seq<char>)
    requires
        path.len() > 0,
    ensures
        path_segments(parent_view(path)->0).len() < path_segments(path).len(),
{
    lemma_parent_rejoins(path);
    lemma_split_len(path);
    let l = last_slash(path);
    if l >= 0 {
        let p = parent_view(path)->0;
        let rest = path.skip(l + 1);
        lemma_split_append(p, rest);
        lemma_split_len(p);
    }
}

/// The last `'/'` of a slash-joined path is just before its last segment.
proof fn lemma_last_slash_append(a: Seq<char>, t: Seq<char>)
    requires
        is_plain(t),
    ensures
        last_slash(a + seq!['/'] + t) == a.len(),
    decreases t.len(),
{
    let s = a + seq!['/'] + t;
    if t.len() == 0 {
        assert(s.last() == '/');
    } else {
        assert(is_plain(t.drop_last()));
        assert(s.drop_last() =~= a + seq!['/'] + t.drop_last());
        assert(s.last() == t.last());
        lemma_last_slash_append(a, t.drop_last());
    }
}

proof fn lemma_last_slash_plain(t: Seq<char>)
    requires
        is_plain(t),
    ensures
        last_slash(t) == -1,
    decreases t.len(),
{
    if t.len() > 0 {
        assert(is_plain(t.drop_last()));
        lemma_last_slash_plain(t.drop_last());
    }
}

/// The parent of a non-root normalized path is the join of all its segments
/// but the last, itself normalized.
pub proof fn lemma_parent_of_normalized(n: Seq<char>)
    requires
        is_normalized(n),
        n.len() > 0,
    ensures
        parent_view(n) == Some(join_slash(path_segments(n).drop_last())),
        path_segments(join_slash(path_segments(n).drop_last())) == path_segments(n).drop_last(),
        is_normalized(join_slash(path_segments(n).drop_last())),
        path_segments(n).len() >= 1,
{
    let segs = path_segments(n);
    lemma_split_len(n);
    lemma_join_split(n);
    let d = segs.drop_last();
    assert forall|k: int| 0 <= k < segs.len() implies is_plain(#[trigger] segs[k]) by {
        assert(is_normal_segment(segs[k]));
    }
    assert forall|k: int| 0 <= k < d.len() implies is_normal_segment(#[trigger] d[k]) by {
        assert(d[k] == segs[k]);
        assert(is_normal_segment(segs[k]));
    }
    if segs.len() == 1 {
        assert(n == segs[0]);
        lemma_last_slash_plain(n);
    } else {
        assert(n == join_slash(d) + seq!['/'] + segs.last());
        assert(is_plain(segs[segs.len() - 1]));
        lemma_last_slash_append(join_slash(d), segs.last());
        assert(n.take(join_slash(d).len() as int) =~= join_slash(d));
        assert forall|k: int| 0 <= k < d.len() implies is_plain(#[trigger] d[k]) by {
            assert(is_normal_segment(d[k]));
        }
        assert forall|k: int| 0 <= k < d.len() implies is_kept(#[trigger] d[k]) by {
            assert(is_normal_segment(d[k]));
        }
        lemma_join_empty(d);
        lemma_split_join(d);
    }
}

/// Appending segment `seg` to host path `base`, as `PathBuf::push` appends a
/// relative component on a Unix host: a `'/'` goes between them unless
/// `base` is empty or already ends in one.
pub open spec fn push_component(base: Seq<char>, seg: Seq<char>) -> Seq<char> {
    if base.len() == 0 || base.last() == '/' {
        base + seg
    } else {
        base.push('/') + seg
    }
}

/// The host path of the segments `segs` under `root`.
pub open spec fn host_path_of(root: Seq<char>, segs: Seq<Seq<char>>) -> Seq<char>
    decreases segs.len(),
{
    if segs.len() == 0 {
        root
    } else {
        push_component(host_path_of(root, segs.drop_last()), segs.last())
    }
}

/// `h` lies under the host directory `root`, component by component: it
/// begins with `root`, and where it goes on, a separator divides the two
/// (so `/srv/data2` is not under `/srv/data`).
pub open spec fn under_root(h: Seq<char>, root: Seq<char>) -> bool {
    &&& crate::text::has_prefix(h, root)
    &&& h.len() > root.len() ==> (root.len() == 0 || root.last() == '/' || h[root.len() as int]
        == '/')
}

/// Every host path of segments under `root` lies under `root`.
pub proof fn lemma_host_path_within_root(root: Seq<char>, segs: Seq<Seq<char>>)
    ensures
        under_root(host_path_of(root, segs), root),
    decreases segs.len(),
{
    if segs.len() > 0 {
        lemma_host_path_within_root(root, segs.drop_last());
        let base = host_path_of(root, segs.drop_last());
        let h = host_path_of(root, segs);
        assert(h.take(base.len() as int) =~= base);
        assert(h.take(root.len() as int) =~= base.take(root.len() as int));
        if base.len() == root.len() && h.len() > root.len() {
            assert(base =~= root);
        }
        if base.len() > root.len() {
            assert(h[root.len() as int] == base[root.len() as int]);
        }
    } else {
        assert(root.take(root.len() as int) =~= root);
    }
}

/// The last character of a join of non-empty segments is that of its last
/// segment.
proof fn lemma_join_last(segs: Seq<Seq<char>>)
    requires
        segs.len() >= 1,
        segs.last().len() > 0,
    ensures
        join_slash(segs).len() > 0,
        join_slash(segs).last() == segs.last().last(),
{
}

/// Pushing the segments of a path one by one is pushing the whole path.
proof fn lemma_host_path_of_join(root: Seq<char>, segs: Seq<Seq<char>>)
    requires
        segs.len() >= 1,
        forall|k: int| 0 <= k < segs.len() ==> is_normal_segment(#[trigger] segs[k]),
    ensures
        host_path_of(root, segs) == push_component(root, join_slash(segs)),
    decreases segs.len(),
{
    if segs.len() > 1 {
        let d = segs.drop_last();
        let s = segs.last();
        assert forall|k: int| 0 <= k < d.len() implies is_normal_segment(#[trigger] d[k]) by {
            assert(d[k] == segs[k]);
        }
        lemma_host_path_of_join(root, d);
        assert(is_normal_segment(d[d.len() - 1]));
        lemma_join_last(d);
        let j = join_slash(d);
        let h = host_path_of(root, d);
        assert(h.last() == j.last());
        assert(j.last() != '/') by {
            assert(is_plain(d.last()));
            assert(d.last()[d.last().len() - 1] != '/');
        }
        assert(join_slash(segs) == j + seq!['/'] + s);
        assert(h.len() > 0);
        assert(host_path_of(root, segs) == push_component(h, s));
        assert(push_component(h, s) == h.push('/') + s);
        if root.len() == 0 || root.last() == '/' {
            assert(push_component(root, j + seq!['/'] + s) =~= (root + j).push('/') + s);
        } else {
            assert(push_component(root, j + seq!['/'] + s) =~= (root.push('/') + j).push('/') + s);
        }
    } else {
        assert(segs.drop_last() =~= Seq::<Seq<char>>::empty());
        assert(host_path_of(root, segs.drop_last()) == root);
        assert(join_slash(segs) == segs.last());
    }
}

/// The host path of a non-root normalized path is the path pushed onto the
/// root as one relative component.
pub proof fn lemma_host_path_of_normalized(root: Seq<char>, n: Seq<char>)
    requires
        is_normalized(n),
        n.len() > 0,
    ensures
        host_path_of(root, path_segments(n)) == push_component(root, n),
{
    lemma_split_len(n);
    lemma_normalized_rejoins(n);
    lemma_host_path_of_join(root, path_segments(n));
}

/// Appends `seg` to the host path `base` as `push_component` does.
fn push_component_exec(base: &mut Vec<char>, seg: &Vec<char>)
    ensures
        final(base)@ == push_component(old(base)@, seg@),
{
    if base.len() > 0 && base[base.len() - 1] != '/' {
        base.push('/');
    }
    append_chars(base, seg);
}

/// The host paths of the leading segments of `normalized` under `root`:
/// entry `i` is the host path of the first `i + 1` segments; the last is the
/// host path of `normalized` itself. The root path gives none.
pub fn host_prefixes(root: &str, normalized: &str) -> (r: Vec<String>)
    ensures
        r.len() == path_segments(normalized@).len(),
        forall|i: int|
            0 <= i < r.len() ==> #[trigger] r[i]@ == host_path_of(
                root@,
                path_segments(normalized@).take(i + 1),
            ),
{
    let mut r: Vec<String> = Vec::new();
    if normalized.is_empty() {
        return r;
    }
    let chars = chars_of(normalized);
    let root_chars = chars_of(root);
    let mut base: Vec<char> = root_chars.clone();
    let mut cur: Vec<char> = Vec::new();
    let ghost mut done: Seq<Seq<char>> = Seq::empty();
    assert(chars@.take(0) =~= Seq::<char>::empty());
    assert(split_slash(chars@.take(0)) =~= done.push(cur@));
    let mut i: usize = 0;
    while i < chars.len()
        invariant
            i <= chars.len(),
            root_chars@ == root@,
            split_slash(chars@.take(i as int)) == done.push(cur@),
            base@ == host_path_of(root@, done),
            r.len() == done.len(),
            forall|j: int|
                0 <= j < r.len() ==> #[trigger] r[j]@ == host_path_of(root@, done.take(j + 1)),
        decreases chars.len() - i,
    {
        let c = chars[i];
        assert(chars@.take(i + 1).drop_last() =~= chars@.take(i as int));
        if c == '/' {
            let mut host = base.clone();
            push_component_exec(&mut host, &cur);
            proof {
                let nd = done.push(cur@);
                assert(nd.drop_last() =~= done);
                assert forall|j: int| 0 <= j < done.len() implies #[trigger] nd.take(j + 1)
                    =~= done.take(j + 1) by {}
                assert(nd.take(done.len() as int + 1) =~= nd);
                done = nd;
            }
            r.push(string_from_chars(&host));
            base = host;
            cur = Vec::new();
            assert(split_slash(chars@.take(i + 1)) =~= done.push(cur@));
        } else {
            cur.push(c);
            assert(split_slash(chars@.take(i + 1)) =~= done.push(cur@));
        }
        i = i + 1;
    }
    let mut host = base.clone();
    push_component_exec(&mut host, &cur);
    proof {
        let nd = done.push(cur@);
        assert(nd.drop_last() =~= done);
        assert forall|j: int| 0 <= j < done.len() implies #[trigger] nd.take(j + 1) =~= done.take(
            j + 1,
        ) by {}
        assert(nd.take(done.len() as int + 1) =~= nd);
        done = nd;
        assert(chars@.take(chars.len() as int) =~= normalized@);
    }
    r.push(string_from_chars(&host));
    r
}

} // verus!
