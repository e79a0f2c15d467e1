//! What the backend reports of a file, and the order of directory listings.
use vstd::prelude::*;

use crate::text::chars_of;

verus! {

broadcast use {vstd::seq_lib::to_multiset_insert, vstd::seq_lib::to_multiset_build};

/// `std::time::SystemTime`, carried through as an opaque value: the library
/// reports file times and never looks into them.
#[verifier::external_type_specification]
#[verifier::external_body]
pub struct ExSystemTime(std::time::SystemTime);

/// What the backend reports of a file or directory.
#[derive(Debug, Clone, Copy)]
pub struct Metadata {
    pub len: u64,
    pub is_dir: bool,
    pub is_file: bool,
    pub is_symlink: bool,
    pub modified: Option<std::time::SystemTime>,
    pub created: Option<std::time::SystemTime>,
    pub accessed: Option<std::time::SystemTime>,
    pub permissions: u32,
}

/// One entry of a directory listing.
#[derive(Debug, Clone)]
pub struct DirEntry {
    pub name: String,
    pub metadata: Metadata,
}

/// The permission bits reported for a file: the host's mode where the host
/// has one (Unix), else `0o444` for a read-only entry, `0o755` for a
/// directory and `0o644` for anything else.
pub fn permissions_mode(host_mode: Option<u32>, readonly: bool, is_dir: bool) -> (r: u32)
    ensures
        r == match host_mode {
            Some(mode) => mode,
            None => if readonly {
                0o444u32
            } else if is_dir {
                0o755u32
            } else {
                0o644u32
            },
        },
{
    match host_mode {
        Some(mode) => mode,
        None => {
            if readonly {
                0o444
            } else if is_dir {
                0o755
            } else {
                0o644
            }
        },
    }
}

/// `a` comes strictly before `b` in the order of `String`'s `Ord`: the
/// lexicographic order of their characters (which UTF-8 keeps as the
/// lexicographic order of their bytes).
pub open spec fn name_less(a: Seq<char>, b: Seq<char>) -> bool
    decreases a.len(),
{
    if a.len() == 0 {
        b.len() > 0
    } else if b.len() == 0 {
        false
    } else if a[0] != b[0] {
        a[0] < b[0]
    } else {
        name_less(a.drop_first(), b.drop_first())
    }
}

pub proof fn lemma_name_less_irreflexive(a: Seq<char>)
    ensures
        !name_less(a, a),
    decreases a.len(),
{
    if a.len() > 0 {
        lemma_name_less_irreflexive(a.drop_first());
    }
}

pub proof fn lemma_name_less_transitive(a: Seq<char>, b: Seq<char>, c: Seq<char>)
    requires
        name_less(a, b),
        name_less(b, c),
    ensures
        name_less(a, c),
    decreases a.len(),
{
    if a.len() > 0 && b.len() > 0 && c.len() > 0 && a[0] == b[0] && b[0] == c[0] {
        lemma_name_less_transitive(a.drop_first(), b.drop_first(), c.drop_first());
    }
}

pub proof fn lemma_name_less_asymmetric(a: Seq<char>, b: Seq<char>)
    requires
        name_less(a, b),
    ensures
        !name_less(b, a),
    decreases a.len(),
{
    if a.len() > 0 && b.len() > 0 && a[0] == b[0] {
        lemma_name_less_asymmetric(a.drop_first(), b.drop_first());
    }
}

/// Two names neither of which comes before the other are equal.
pub proof fn lemma_name_less_total(a: Seq<char>, b: Seq<char>)
    requires
        !name_less(a, b),
        !name_less(b, a),
    ensures
        a == b,
    decreases a.len(),
{
    if a.len() > 0 && b.len() > 0 {
        if a[0] == b[0] {
            lemma_name_less_total(a.drop_first(), b.drop_first());
            assert(a =~= seq![a[0]] + a.drop_first());
            assert(b =~= seq![b[0]] + b.drop_first());
        } else {
            assert(a[0] < b[0] || b[0] < a[0]);
        }
    } else {
        assert(a =~= b);
    }
}

/// Whether `a` comes strictly before `b`.
pub fn chars_less(a: &Vec<char>, b: &Vec<char>) -> (r: bool)
    ensures
        r == name_less(a@, b@),
{
    let mut i: usize = 0;
    assert(a@.skip(0) =~= a@);
    assert(b@.skip(0) =~= b@);
    while i < a.len() && i < b.len() && a[i] == b[i]
        invariant
            i <= a.len(),
            i <= b.len(),
            name_less(a@, b@) == name_less(a@.skip(i as int), b@.skip(i as int)),
        decreases a.len() - i,
    {
        assert(a@.skip(i as int).drop_first() =~= a@.skip(i + 1));
        assert(b@.skip(i as int).drop_first() =~= b@.skip(i + 1));
        i = i + 1;
    }
    if i == a.len() {
        i < b.len()
    } else if i == b.len() {
        false
    } else {
        assert(a@.skip(i as int)[0] == a@[i as int]);
        assert(b@.skip(i as int)[0] == b@[i as int]);
        a[i] < b[i]
    }
}

/// The entries are in ascending order of name.
pub open spec fn sorted_by_name(s: Seq<DirEntry>) -> bool {
    forall|i: int, j: int|
        0 <= i < j < s.len() ==> !name_less(#[trigger] s[j].name@, #[trigger] s[i].name@)
}

/// An entry is named `name`.
pub open spec fn named(name: Seq<char>) -> spec_fn(DirEntry) -> bool {
    |e: DirEntry| e.name@ == name
}

/// Entries of the same name come in the same order in `a` as in `b`, and
/// there are as many of them.
pub open spec fn same_order_per_name(a: Seq<DirEntry>, b: Seq<DirEntry>) -> bool {
    forall|name: Seq<char>| #[trigger] a.filter(named(name)) == b.filter(named(name))
}

/// Where `x` joins `r` at `p`, each name keeps its entries in order, with
/// `x` ahead of the others of its name when everything before `p` sorts
/// strictly before `x`.
proof fn lemma_insert_keeps_name_order(r: Seq<DirEntry>, p: int, x: DirEntry, rest: Seq<DirEntry>)
    requires
        0 <= p <= r.len(),
        forall|k: int| 0 <= k < p ==> name_less(#[trigger] r[k].name@, x.name@),
        same_order_per_name(r, rest),
    ensures
        same_order_per_name(r.insert(p, x), seq![x] + rest),
{
    assert forall|name: Seq<char>| #[trigger] r.insert(p, x).filter(named(name)) == (seq![x]
        + rest).filter(named(name)) by {
        let f = named(name);
        let front = r.take(p);
        let back = r.skip(p);
        assert(r.insert(p, x) =~= front + seq![x] + back);
        assert(r =~= front + back);
        Seq::filter_distributes_over_add(front + seq![x], back, f);
        Seq::filter_distributes_over_add(front, seq![x], f);
        Seq::filter_distributes_over_add(front, back, f);
        rest.lemma_filter_prepend(x, f);
        Seq::<DirEntry>::empty().lemma_filter_prepend(x, f);
        assert(seq![x] + Seq::<DirEntry>::empty() =~= seq![x]);
        assert(Seq::<DirEntry>::empty().filter(f) =~= Seq::<DirEntry>::empty()) by {
            reveal(Seq::filter);
        }
        assert(r.filter(f) == rest.filter(f));
        if name == x.name@ {
            assert forall|k: int| 0 <= k < front.len() implies !f(#[trigger] front[k]) by {
                assert(front[k] == r[k]);
                lemma_name_less_irreflexive(x.name@);
            }
            front.lemma_all_neg_filter_empty(f);
            assert(front.filter(f) =~= Seq::<DirEntry>::empty());
        }
    }
}

/// The entries in ascending order of name, as a directory listing gives
/// them: the same entries, sorted, with entries of equal name in the order
/// they came in.
pub fn sort_entries(entries: Vec<DirEntry>) -> (r: Vec<DirEntry>)
    ensures
        r@.to_multiset() == entries@.to_multiset(),
        sorted_by_name(r@),
        same_order_per_name(r@, entries@),
{
    let mut r: Vec<DirEntry> = Vec::new();
    let mut keys: Vec<Vec<char>> = Vec::new();
    let mut rest = entries;
    let ghost all = rest@;
    assert(all.skip(all.len() as int).reverse() =~= Seq::<DirEntry>::empty());
    assert(all.skip(all.len() as int) =~= r@);
    while rest.len() > 0
        invariant
            rest.len() <= all.len(),
            rest@ == all.take(rest.len() as int),
            r@.to_multiset() == all.skip(rest.len() as int).reverse().to_multiset(),
            sorted_by_name(r@),
            same_order_per_name(r@, all.skip(rest.len() as int)),
            keys.len() == r.len(),
            forall|k: int| 0 <= k < r.len() ==> #[trigger] keys@[k]@ == r@[k].name@,
        decreases rest.len(),
    {
        let ghost left = rest.len() as int;
        let x = match rest.pop() {
            Some(x) => x,
            None => {
                return r;
            },
        };
        assert(x == all[left - 1]);
        assert(rest@ =~= all.take(left - 1));
        assert(all.skip(left - 1).reverse() =~= all.skip(left).reverse().push(x));
        assert(all.skip(left - 1) =~= seq![x] + all.skip(left));
        let key = chars_of(x.name.as_str());
        // The first position whose name is not before `x`: the entries
        // before it come before `x`, and `x` goes ahead of equal names, which
        // came after it in the input.
        let mut lo: usize = 0;
        let mut hi: usize = r.len();
        while lo < hi
            invariant
                lo <= hi <= r.len(),
                keys.len() == r.len(),
                forall|k: int| 0 <= k < r.len() ==> #[trigger] keys@[k]@ == r@[k].name@,
                key@ == x.name@,
                sorted_by_name(r@),
                forall|k: int| 0 <= k < lo ==> name_less(#[trigger] r@[k].name@, x.name@),
                forall|k: int| hi <= k < r.len() ==> !name_less(#[trigger] r@[k].name@, x.name@),
            decreases hi - lo,
        {
            let mid = lo + (hi - lo) / 2;
            if chars_less(&keys[mid], &key) {
                proof {
                    assert forall|k: int| 0 <= k <= mid implies name_less(
                        #[trigger] r@[k].name@,
                        x.name@,
                    ) by {
                        if k < mid {
                            assert(!name_less(r@[mid as int].name@, r@[k].name@));
                            if name_less(r@[k].name@, r@[mid as int].name@) {
                                lemma_name_less_transitive(
                                    r@[k].name@,
                                    r@[mid as int].name@,
                                    x.name@,
                                );
                            } else {
                                lemma_name_less_total(r@[k].name@, r@[mid as int].name@);
                            }
                        }
                    }
                }
                lo = mid + 1;
            } else {
                proof {
                    assert forall|k: int| mid <= k < r.len() implies !name_less(
                        #[trigger] r@[k].name@,
                        x.name@,
                    ) by {
                        if k > mid && name_less(r@[k].name@, x.name@) {
                            assert(!name_less(r@[k].name@, r@[mid as int].name@));
                            if name_less(r@[mid as int].name@, r@[k].name@) {
                                lemma_name_less_transitive(
                                    r@[mid as int].name@,
                                    r@[k].name@,
                                    x.name@,
                                );
                            } else {
                                lemma_name_less_total(r@[k].name@, r@[mid as int].name@);
                            }
                        }
                    }
                }
                hi = mid;
            }
        }
        let p = lo;
        let ghost old_r = r@;
        let ghost old_keys = keys@;
        proof {
            lemma_insert_keeps_name_order(old_r, p as int, x, all.skip(left));
            assert forall|a: int, b: int|
                0 <= a < b < old_r.len() + 1 implies !name_less(
                #[trigger] old_r.insert(p as int, x)[b].name@,
                #[trigger] old_r.insert(p as int, x)[a].name@,
            ) by {
                let s = old_r.insert(p as int, x);
                old_r.insert_ensures(p as int, x);
                if b < p {
                } else if a > p {
                    assert(s[a] == old_r[a - 1]);
                    assert(s[b] == old_r[b - 1]);
                } else if a == p {
                    assert(s[b] == old_r[b - 1]);
                } else if b == p {
                    assert(s[b] == x);
                    assert(s[a] == old_r[a]);
                    lemma_name_less_asymmetric(old_r[a].name@, x.name@);
                } else {
                    assert(s[a] == old_r[a]);
                    assert(s[b] == old_r[b - 1]);
                }
            }
        }
        r.insert(p, x);
        keys.insert(p, key);
        proof {
            assert forall|k: int| 0 <= k < r.len() implies #[trigger] keys@[k]@ == r@[k].name@ by {
                if k < p {
                } else if k > p {
                    assert(keys@[k] == old_keys[k - 1]);
                }
            }
        }
    }
    proof {
        assert(all.skip(0) =~= all);
        all.lemma_reverse_to_multiset();
    }
    r
}

} // verus!
