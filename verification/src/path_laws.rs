//! How request paths are normalized, segment by segment, and how directory
//! entry names are ordered, stated over all paths and names.
use vstd::prelude::*;

use crate::metadata::name_less;
use crate::path::{
    has_parent_ref, is_kept, is_normal_segment, is_parent_ref, is_plain, join_slash,
    kept_segments, lemma_join_empty, lemma_kept_normal, lemma_split_append, lemma_split_of_plain,
    lemma_split_plain, normalized_view, split_slash,
};

verus! {

/// Adding segment `s` after the segments `x` adds a `..` exactly when `s`
/// is one, and keeps `s` exactly when normalization keeps it.
proof fn lemma_push_segment(x: Seq<Seq<char>>, s: Seq<char>)
    ensures
        has_parent_ref(x.push(s)) == (has_parent_ref(x) || is_parent_ref(s)),
        kept_segments(x.push(s)) == if is_kept(s) {
            kept_segments(x).push(s)
        } else {
            kept_segments(x)
        },
{
    let y = x.push(s);
    assert(y.drop_last() =~= x);
    assert(y.last() == s);
    if has_parent_ref(x) {
        let i = choose|i: int| 0 <= i < x.len() && is_parent_ref(#[trigger] x[i]);
        assert(y[i] == x[i]);
    }
    if is_parent_ref(s) {
        assert(is_parent_ref(y[x.len() as int]));
    }
    if has_parent_ref(y) {
        let i = choose|i: int| 0 <= i < y.len() && is_parent_ref(#[trigger] y[i]);
        if i < x.len() {
            assert(y[i] == x[i]);
        }
    }
}

/// Joining with one more segment puts a slash before it, unless it is the
/// only one.
proof fn lemma_join_push(k: Seq<Seq<char>>, s: Seq<char>)
    ensures
        join_slash(k.push(s)) == if k.len() == 0 {
            s
        } else {
            join_slash(k) + seq!['/'] + s
        },
{
    assert(k.push(s).drop_last() =~= k);
}

/// A path of one segment `s` (no slash in it) normalizes to nothing for an
/// empty segment or `.`, is refused for `..`, and is already normalized
/// otherwise.
pub proof fn law_normalize_one_segment(s: Seq<char>)
    requires
        is_plain(s),
    ensures
        (s.len() == 0 || s == seq!['.']) ==> normalized_view(s) == Some(Seq::<char>::empty()),
        s == seq!['.', '.'] ==> normalized_view(s) is None,
        (s.len() > 0 && s != seq!['.'] && s != seq!['.', '.']) ==> normalized_view(s) == Some(s),
{
    lemma_split_of_plain(s);
    lemma_push_segment(Seq::<Seq<char>>::empty(), s);
    assert(Seq::<Seq<char>>::empty().push(s) =~= seq![s]);
    assert(!has_parent_ref(Seq::<Seq<char>>::empty()));
    assert(kept_segments(Seq::<Seq<char>>::empty()) =~= Seq::<Seq<char>>::empty());
    lemma_join_push(Seq::<Seq<char>>::empty(), s);
}

/// Appending a slash and a segment `s` (no slash in it) to a request path:
/// a refused path stays refused, and `..` refuses it; an empty segment or
/// `.` leaves the normalized path as it was; any other segment is added to
/// it, after a slash unless it is the root.
pub proof fn law_normalize_appended_segment(p: Seq<char>, s: Seq<char>)
    requires
        is_plain(s),
    ensures
        normalized_view(p) is None ==> normalized_view(p + seq!['/'] + s) is None,
        s == seq!['.', '.'] ==> normalized_view(p + seq!['/'] + s) is None,
        (s.len() == 0 || s == seq!['.']) ==> normalized_view(p + seq!['/'] + s) == normalized_view(
            p,
        ),
        (s.len() > 0 && s != seq!['.'] && s != seq!['.', '.']) ==> (normalized_view(p) matches Some(
            n,
        ) ==> normalized_view(p + seq!['/'] + s) == Some(
            if n.len() == 0 {
                s
            } else {
                n + seq!['/'] + s
            },
        )),
{
    lemma_split_append(p, s);
    lemma_push_segment(split_slash(p), s);
    let k = kept_segments(split_slash(p));
    lemma_join_push(k, s);
    if !has_parent_ref(split_slash(p)) {
        lemma_split_plain(p);
        lemma_kept_normal(split_slash(p));
        assert forall|i: int| 0 <= i < k.len() implies is_kept(#[trigger] k[i]) by {
            assert(is_normal_segment(k[i]));
        }
        lemma_join_empty(k);
    }
}

/// Names are ordered character by character: a name comes before every
/// longer name that begins with it, and where two names first differ, the
/// smaller character comes first.
pub proof fn law_name_order(
    common: Seq<char>,
    rest: Seq<char>,
    x: char,
    y: char,
    tail_x: Seq<char>,
    tail_y: Seq<char>,
)
    ensures
        name_less(common, common + rest) == (rest.len() > 0),
        x < y ==> name_less(common + seq![x] + tail_x, common + seq![y] + tail_y),
    decreases common.len(),
{
    if common.len() == 0 {
        assert(common + rest =~= rest);
        let a = common + seq![x] + tail_x;
        let b = common + seq![y] + tail_y;
        assert(a[0] == x);
        assert(b[0] == y);
    } else {
        law_name_order(common.drop_first(), rest, x, y, tail_x, tail_y);
        assert((common + rest).drop_first() =~= common.drop_first() + rest);
        assert((common + rest)[0] == common[0]);
        let a = common + seq![x] + tail_x;
        let b = common + seq![y] + tail_y;
        assert(a.drop_first() =~= common.drop_first() + seq![x] + tail_x);
        assert(b.drop_first() =~= common.drop_first() + seq![y] + tail_y);
        assert(a[0] == common[0]);
        assert(b[0] == common[0]);
    }
}

} // verus!
