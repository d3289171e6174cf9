//! Canonical ordering and shaping of wire material: lexicographic order on
//! byte strings, a verified sort, joining with separators, splitting on a
//! separator, and association lists with last-insert-wins update.

use vstd::multiset::Multiset;
use vstd::pervasive::VecAdditionalExecFns;
use vstd::prelude::*;
use vstd::relations::sorted_by;
use vstd::relations::total_ordering;
use vstd::seq_lib::group_to_multiset_ensures;
use vstd::seq_lib::lemma_sorted_unique;

verus! {

/// A byte vector's deep view is its view.
pub proof fn lemma_bytes_deep_view(v: Vec<u8>)
    ensures
        v.deep_view() == v@,
{
    assert(v.deep_view() =~= v@);
}

/// The deep view of a vector of byte vectors, element by element.
pub proof fn lemma_vecs_deep_view(v: Vec<Vec<u8>>)
    ensures
        v.deep_view().len() == v@.len(),
        forall|i: int| 0 <= i < v@.len() ==> #[trigger] v.deep_view()[i] == v@[i]@,
{
    assert forall|i: int| 0 <= i < v@.len() implies #[trigger] v.deep_view()[i] == v@[i]@ by {
        lemma_bytes_deep_view(v@[i]);
    }
}

/// The deep view of a vector of byte-vector pairs, element by element.
pub proof fn lemma_pairs_deep_view(v: Vec<(Vec<u8>, Vec<u8>)>)
    ensures
        v.deep_view().len() == v@.len(),
        forall|i: int|
            0 <= i < v@.len() ==> #[trigger] v.deep_view()[i] == (v@[i].0@, v@[i].1@),
{
    assert forall|i: int|
        0 <= i < v@.len() implies #[trigger] v.deep_view()[i] == (v@[i].0@, v@[i].1@) by {
        lemma_bytes_deep_view(v@[i].0);
        lemma_bytes_deep_view(v@[i].1);
    }
}

/// Lexicographic order on byte strings, byte by byte; a prefix comes before
/// every extension of it.  This is the order `sort` of the standard library
/// puts strings in.
pub open spec fn lex_le(a: Seq<u8>, b: Seq<u8>) -> bool
    decreases a.len(),
{
    if a.len() == 0 {
        true
    } else if b.len() == 0 {
        false
    } else if a[0] < b[0] {
        true
    } else if a[0] > b[0] {
        false
    } else {
        lex_le(a.drop_first(), b.drop_first())
    }
}

/// The lexicographic order as a relation value, for `sort_by`.
pub open spec fn lex_leq_fn() -> spec_fn(Seq<u8>, Seq<u8>) -> bool {
    |a: Seq<u8>, b: Seq<u8>| lex_le(a, b)
}

pub proof fn lemma_lex_le_refl(a: Seq<u8>)
    ensures
        lex_le(a, a),
    decreases a.len(),
{
    if a.len() != 0 {
        lemma_lex_le_refl(a.drop_first());
    }
}

pub proof fn lemma_lex_le_connected(a: Seq<u8>, b: Seq<u8>)
    ensures
        lex_le(a, b) || lex_le(b, a),
    decreases a.len(),
{
    if a.len() != 0 && b.len() != 0 && a[0] == b[0] {
        lemma_lex_le_connected(a.drop_first(), b.drop_first());
    }
}

pub proof fn lemma_lex_le_antisym(a: Seq<u8>, b: Seq<u8>)
    requires
        lex_le(a, b),
        lex_le(b, a),
    ensures
        a == b,
    decreases a.len(),
{
    if a.len() == 0 {
        assert(b.len() == 0);
        assert(a =~= b);
    } else {
        assert(a[0] == b[0]);
        lemma_lex_le_antisym(a.drop_first(), b.drop_first());
        assert forall|i: int| 0 <= i < a.len() implies a[i] == b[i] by {
            if i > 0 {
                assert(a[i] == a.drop_first()[i - 1]);
                assert(b[i] == b.drop_first()[i - 1]);
            }
        }
        assert(a =~= b);
    }
}

pub proof fn lemma_lex_le_trans(a: Seq<u8>, b: Seq<u8>, c: Seq<u8>)
    requires
        lex_le(a, b),
        lex_le(b, c),
    ensures
        lex_le(a, c),
    decreases a.len(),
{
    if a.len() == 0 {
    } else {
        assert(b.len() != 0);
        assert(c.len() != 0);
        if a[0] == b[0] && b[0] == c[0] {
            lemma_lex_le_trans(a.drop_first(), b.drop_first(), c.drop_first());
        }
    }
}

/// The lexicographic order is a total order.
pub proof fn lemma_lex_total_ordering()
    ensures
        total_ordering(lex_leq_fn()),
{
    let r = lex_leq_fn();
    assert forall|x: Seq<u8>| #[trigger] r(x, x) by {
        lemma_lex_le_refl(x);
    }
    assert forall|x: Seq<u8>, y: Seq<u8>| #[trigger] r(x, y) && #[trigger] r(y, x) implies x
        == y by {
        lemma_lex_le_antisym(x, y);
    }
    assert forall|x: Seq<u8>, y: Seq<u8>, z: Seq<u8>|
        #[trigger] r(x, y) && #[trigger] r(y, z) implies r(x, z) by {
        lemma_lex_le_trans(x, y, z);
    }
    assert forall|x: Seq<u8>, y: Seq<u8>| #[trigger] r(x, y) || #[trigger] r(y, x) by {
        lemma_lex_le_connected(x, y);
    }
}

/// Whether `a` comes at or before `b` in lexicographic byte order.
pub fn lex_le_bytes(a: &Vec<u8>, b: &Vec<u8>) -> (r: bool)
    ensures
        r == lex_le(a@, b@),
{
    let mut i: usize = 0;
    proof {
        assert(a@.skip(0) =~= a@);
        assert(b@.skip(0) =~= b@);
    }
    while i < a.len() && i < b.len()
        invariant
            i <= a@.len(),
            i <= b@.len(),
            forall|j: int| 0 <= j < i ==> a@[j] == b@[j],
            lex_le(a@, b@) == lex_le(a@.skip(i as int), b@.skip(i as int)),
        decreases a@.len() - i,
    {
        let x = a[i];
        let y = b[i];
        proof {
            assert(a@.skip(i as int)[0] == x);
            assert(b@.skip(i as int)[0] == y);
        }
        if x < y {
            return true;
        }
        if x > y {
            return false;
        }
        proof {
            assert(a@.skip(i as int).drop_first() =~= a@.skip(i + 1 as int));
            assert(b@.skip(i as int).drop_first() =~= b@.skip(i + 1 as int));
        }
        i += 1;
    }
    proof {
        if i == a@.len() {
            assert(a@.skip(i as int).len() == 0);
        } else {
            assert(b@.skip(i as int).len() == 0);
            assert(a@.skip(i as int).len() > 0);
        }
    }
    a.len() <= b.len()
}

/// Whether two byte strings are equal.
pub fn bytes_eq(a: &Vec<u8>, b: &Vec<u8>) -> (r: bool)
    ensures
        r == (a@ == b@),
{
    if a.len() != b.len() {
        return false;
    }
    let mut i: usize = 0;
    while i < a.len()
        invariant
            a@.len() == b@.len(),
            i <= a@.len(),
            forall|j: int| 0 <= j < i ==> a@[j] == b@[j],
        decreases a@.len() - i,
    {
        if a[i] != b[i] {
            return false;
        }
        i += 1;
    }
    proof {
        assert(a@ =~= b@);
    }
    true
}

/// `p` is a prefix of `s`.
pub open spec fn has_prefix(s: Seq<u8>, p: Seq<u8>) -> bool {
    p.len() <= s.len() && s.take(p.len() as int) == p
}

/// Whether `p` is a prefix of `s`.
pub fn bytes_has_prefix(s: &Vec<u8>, p: &Vec<u8>) -> (r: bool)
    ensures
        r == has_prefix(s@, p@),
{
    if p.len() > s.len() {
        return false;
    }
    let mut i: usize = 0;
    while i < p.len()
        invariant
            p@.len() <= s@.len(),
            i <= p@.len(),
            forall|j: int| 0 <= j < i ==> s@[j] == p@[j],
        decreases p@.len() - i,
    {
        if s[i] != p[i] {
            proof {
                assert(s@.take(p@.len() as int)[i as int] != p@[i as int]);
            }
            return false;
        }
        i += 1;
    }
    proof {
        assert(s@.take(p@.len() as int) =~= p@);
    }
    true
}

/// The items joined with `sep` between each two.
pub open spec fn joined(items: Seq<Seq<u8>>, sep: Seq<u8>) -> Seq<u8>
    decreases items.len(),
{
    if items.len() == 0 {
        Seq::empty()
    } else if items.len() == 1 {
        items[0]
    } else {
        joined(items.drop_last(), sep) + sep + items.last()
    }
}

/// Joins byte strings with a separator.
pub fn join_bytes(items: &Vec<Vec<u8>>, sep: &Vec<u8>) -> (r: Vec<u8>)
    ensures
        r@ == joined(items.deep_view(), sep@),
{
    let mut r: Vec<u8> = Vec::new();
    let mut i: usize = 0;
    while i < items.len()
        invariant
            i <= items@.len(),
            items.deep_view().len() == items@.len(),
            r@ == joined(items.deep_view().take(i as int), sep@),
        decreases items@.len() - i,
    {
        if i > 0 {
            crate::oauth::util::push_all(&mut r, sep);
        }
        crate::oauth::util::push_all(&mut r, &items[i]);
        proof {
            let dv = items.deep_view();
            assert(dv[i as int] == items@[i as int]@);
            assert(dv.take(i + 1 as int).drop_last() =~= dv.take(i as int));
            assert(dv.take(i + 1 as int).last() == dv[i as int]);
            if i == 0 {
                assert(joined(dv.take(1), sep@) == dv[0]);
                assert(r@ =~= dv[0]);
            }
        }
        i += 1;
    }
    proof {
        assert(items.deep_view().take(items@.len() as int) =~= items.deep_view());
    }
    r
}

/// Splitting a byte string on a separator byte; the result always has at
/// least one piece, and empty pieces are kept.
pub open spec fn split(s: Seq<u8>, sep: u8) -> Seq<Seq<u8>>
    decreases s.len(),
{
    if s.len() == 0 {
        seq![Seq::<u8>::empty()]
    } else if s[0] == sep {
        seq![Seq::<u8>::empty()] + split(s.drop_first(), sep)
    } else {
        let r = split(s.drop_first(), sep);
        seq![seq![s[0]] + r[0]] + r.drop_first()
    }
}

pub proof fn lemma_split_len(s: Seq<u8>, sep: u8)
    ensures
        split(s, sep).len() >= 1,
    decreases s.len(),
{
    if s.len() != 0 {
        lemma_split_len(s.drop_first(), sep);
    }
}

/// How one more byte extends a split: a separator opens a new empty piece,
/// any other byte extends the last piece.
pub proof fn lemma_split_snoc(s: Seq<u8>, sep: u8, b: u8)
    ensures
        b == sep ==> split(s.push(b), sep) == split(s, sep).push(Seq::<u8>::empty()),
        b != sep ==> split(s.push(b), sep) == split(s, sep).update(
            split(s, sep).len() - 1,
            split(s, sep).last().push(b),
        ),
    decreases s.len(),
{
    lemma_split_len(s, sep);
    if s.len() == 0 {
        if b == sep {
            assert(s.push(b)[0] == sep);
            assert(s.push(b).drop_first() =~= s);
            assert(split(s.push(b), sep) =~= split(s, sep).push(Seq::<u8>::empty()));
        } else {
            assert(s.push(b)[0] == b);
            assert(s.push(b).drop_first() =~= s);
            assert(seq![b] + split(s, sep)[0] =~= Seq::<u8>::empty().push(b));
            assert(split(s.push(b), sep) =~= split(s, sep).update(
                split(s, sep).len() - 1,
                split(s, sep).last().push(b),
            ));
        }
    } else {
        let t = s.drop_first();
        lemma_split_len(t, sep);
        lemma_split_snoc(t, sep, b);
        assert(s.push(b)[0] == s[0]);
        assert(s.push(b).drop_first() =~= t.push(b));
        let rt = split(t, sep);
        let rtb = split(t.push(b), sep);
        if s[0] == sep {
            if b == sep {
                assert(rtb == rt.push(Seq::<u8>::empty()));
                assert(split(s.push(b), sep) =~= split(s, sep).push(Seq::<u8>::empty()));
            } else {
                assert(rtb == rt.update(rt.len() - 1, rt.last().push(b)));
                assert(split(s, sep).len() - 1 >= 1);
                assert(split(s, sep).last() == rt.last());
                assert(split(s.push(b), sep) =~= split(s, sep).update(
                    split(s, sep).len() - 1,
                    split(s, sep).last().push(b),
                ));
            }
        } else {
            if b == sep {
                assert(rtb == rt.push(Seq::<u8>::empty()));
                assert(rtb[0] == rt[0]);
                assert(rtb.drop_first() =~= rt.drop_first().push(Seq::<u8>::empty()));
                assert(split(s.push(b), sep) =~= split(s, sep).push(Seq::<u8>::empty()));
            } else {
                assert(rtb == rt.update(rt.len() - 1, rt.last().push(b)));
                if rt.len() == 1 {
                    assert(rtb[0] == rt[0].push(b));
                    assert(rtb.drop_first() =~= rt.drop_first());
                    assert(split(s, sep).len() == 1);
                    assert(split(s, sep).last() == seq![s[0]] + rt[0]);
                    assert(seq![s[0]] + rtb[0] =~= (seq![s[0]] + rt[0]).push(b));
                    assert(split(s.push(b), sep) =~= split(s, sep).update(
                        split(s, sep).len() - 1,
                        split(s, sep).last().push(b),
                    ));
                } else {
                    assert(rtb[0] == rt[0]);
                    assert(rtb.drop_first() =~= rt.drop_first().update(
                        rt.drop_first().len() - 1,
                        rt.drop_first().last().push(b),
                    ));
                    assert(split(s, sep).last() == rt.last());
                    assert(split(s.push(b), sep) =~= split(s, sep).update(
                        split(s, sep).len() - 1,
                        split(s, sep).last().push(b),
                    ));
                }
            }
        }
    }
}

/// Splits a byte string on a separator byte, keeping empty pieces.
pub fn split_bytes(s: &Vec<u8>, sep: u8) -> (r: Vec<Vec<u8>>)
    ensures
        r.deep_view() == split(s@, sep),
        r@.len() >= 1,
{
    let mut done: Vec<Vec<u8>> = Vec::new();
    let mut cur: Vec<u8> = Vec::new();
    let mut i: usize = 0;
    proof {
        assert(s@.take(0) =~= Seq::<u8>::empty());
        assert(done.deep_view().push(cur@) =~= split(s@.take(0), sep));
    }
    while i < s.len()
        invariant
            i <= s@.len(),
            done.deep_view().push(cur@) == split(s@.take(i as int), sep),
        decreases s@.len() - i,
    {
        let ghost pre = s@.take(i as int);
        let ghost dv = done.deep_view();
        let ghost dva = done@;
        let ghost cv = cur@;
        let b = s[i];
        proof {
            lemma_split_snoc(pre, sep, b);
            assert(pre.push(b) =~= s@.take(i + 1 as int));
            lemma_vecs_deep_view(done);
        }
        if b == sep {
            done.push(cur);
            cur = Vec::new();
            proof {
                lemma_vecs_deep_view(done);
                assert(done@ == dva.push(done@[dva.len() as int]));
                assert(done@[dva.len() as int]@ == cv);
                assert(done.deep_view() =~= dv.push(cv));
                assert(done.deep_view().push(cur@) =~= split(pre, sep).push(Seq::<u8>::empty()));
            }
        } else {
            cur.push(b);
            proof {
                let old_split = split(pre, sep);
                assert(old_split == dv.push(cv));
                assert(old_split.len() - 1 == dv.len());
                assert(old_split.last() == cv);
                assert(done.deep_view() == dv);
                assert(cur@ == cv.push(b));
                assert(done.deep_view().push(cur@) =~= old_split.update(
                    old_split.len() - 1,
                    old_split.last().push(b),
                ));
            }
        }
        i += 1;
    }
    let ghost dv = done.deep_view();
    let ghost dva = done@;
    let ghost cv = cur@;
    proof {
        lemma_vecs_deep_view(done);
    }
    done.push(cur);
    proof {
        lemma_vecs_deep_view(done);
        assert(s@.take(s@.len() as int) =~= s@);
        assert(done@ == dva.push(done@[dva.len() as int]));
        assert(done@[dva.len() as int]@ == cv);
        assert(done.deep_view() =~= dv.push(cv));
    }
    done
}

/// Replaces the value of `k` in an association list, keeping its position,
/// or appends the pair when `k` is absent.
pub open spec fn assoc_set(ps: Seq<(Seq<u8>, Seq<u8>)>, k: Seq<u8>, v: Seq<u8>) -> Seq<
    (Seq<u8>, Seq<u8>),
>
    decreases ps.len(),
{
    if ps.len() == 0 {
        seq![(k, v)]
    } else if ps[0].0 == k {
        seq![(k, v)] + ps.drop_first()
    } else {
        seq![ps[0]] + assoc_set(ps.drop_first(), k, v)
    }
}

/// All of `kvs` set into `ps`, first to last.
pub open spec fn assoc_set_all(
    ps: Seq<(Seq<u8>, Seq<u8>)>,
    kvs: Seq<(Seq<u8>, Seq<u8>)>,
) -> Seq<(Seq<u8>, Seq<u8>)>
    decreases kvs.len(),
{
    if kvs.len() == 0 {
        ps
    } else {
        assoc_set_all(assoc_set(ps, kvs[0].0, kvs[0].1), kvs.drop_first())
    }
}

proof fn lemma_assoc_set_found(ps: Seq<(Seq<u8>, Seq<u8>)>, k: Seq<u8>, v: Seq<u8>, i: int)
    requires
        0 <= i < ps.len(),
        forall|m: int| 0 <= m < i ==> (#[trigger] ps[m]).0 != k,
        ps[i].0 == k,
    ensures
        assoc_set(ps, k, v) == ps.update(i, (k, v)),
    decreases i,
{
    if i == 0 {
        assert(assoc_set(ps, k, v) =~= ps.update(0, (k, v)));
    } else {
        assert(ps[0].0 != k);
        lemma_assoc_set_found(ps.drop_first(), k, v, i - 1);
        assert(ps.drop_first().update(i - 1, (k, v)) =~= ps.update(i, (k, v)).drop_first());
        assert(assoc_set(ps, k, v) =~= ps.update(i, (k, v)));
    }
}

proof fn lemma_assoc_set_missing(ps: Seq<(Seq<u8>, Seq<u8>)>, k: Seq<u8>, v: Seq<u8>)
    requires
        forall|m: int| 0 <= m < ps.len() ==> (#[trigger] ps[m]).0 != k,
    ensures
        assoc_set(ps, k, v) == ps.push((k, v)),
    decreases ps.len(),
{
    if ps.len() == 0 {
        assert(assoc_set(ps, k, v) =~= ps.push((k, v)));
    } else {
        lemma_assoc_set_missing(ps.drop_first(), k, v);
        assert(ps.drop_first().push((k, v)) =~= ps.push((k, v)).drop_first());
        assert(assoc_set(ps, k, v) =~= ps.push((k, v)));
    }
}

/// Sets `k` to `v` in the parameter list, replacing an earlier value of the
/// same key and appending otherwise.
pub fn set_param(ps: &mut Vec<(Vec<u8>, Vec<u8>)>, k: Vec<u8>, v: Vec<u8>)
    ensures
        final(ps).deep_view() == assoc_set(old(ps).deep_view(), k@, v@),
{
    let mut i: usize = 0;
    while i < ps.len()
        invariant
            i <= ps@.len(),
            *ps == *old(ps),
            forall|m: int| 0 <= m < i ==> (#[trigger] ps.deep_view()[m]).0 != k@,
        decreases ps@.len() - i,
    {
        if bytes_eq(&ps[i].0, &k) {
            let ghost dv = ps.deep_view();
            let ghost pa = ps@;
            let ghost kv = k@;
            let ghost vv = v@;
            proof {
                lemma_pairs_deep_view(*ps);
                assert(dv[i as int] == (ps@[i as int].0@, ps@[i as int].1@));
                assert(dv[i as int].0 == k@);
                lemma_assoc_set_found(dv, k@, v@, i as int);
            }
            ps.set(i, (k, v));
            proof {
                lemma_pairs_deep_view(*ps);
                assert(ps@ == pa.update(i as int, ps@[i as int]));
                assert(ps@[i as int].0@ == kv && ps@[i as int].1@ == vv);
                assert(ps.deep_view() =~= dv.update(i as int, (kv, vv)));
            }
            return ;
        }
        proof {
            lemma_pairs_deep_view(*ps);
            assert(ps.deep_view()[i as int] == (ps@[i as int].0@, ps@[i as int].1@));
        }
        i += 1;
    }
    let ghost dv = ps.deep_view();
    let ghost pa = ps@;
    let ghost kv = k@;
    let ghost vv = v@;
    proof {
        lemma_pairs_deep_view(*ps);
        lemma_assoc_set_missing(dv, k@, v@);
    }
    ps.push((k, v));
    proof {
        lemma_pairs_deep_view(*ps);
        assert(ps@ == pa.push(ps@[pa.len() as int]));
        assert(ps@[pa.len() as int].0@ == kv && ps@[pa.len() as int].1@ == vv);
        assert(ps.deep_view() =~= dv.push((kv, vv)));
    }
}

/// Sets every pair of `kvs` into `ps`, first to last.
pub fn set_params(ps: &mut Vec<(Vec<u8>, Vec<u8>)>, kvs: Vec<(Vec<u8>, Vec<u8>)>)
    ensures
        final(ps).deep_view() == assoc_set_all(old(ps).deep_view(), kvs.deep_view()),
{
    let mut rest = kvs;
    while rest.len() > 0
        invariant
            assoc_set_all(old(ps).deep_view(), kvs.deep_view()) == assoc_set_all(
                ps.deep_view(),
                rest.deep_view(),
            ),
        decreases rest@.len(),
    {
        let ghost prev = rest.deep_view();
        let (k, v) = rest.remove(0);
        proof {
            assert(rest.deep_view() =~= prev.drop_first());
            assert(prev[0] == (k@, v@));
        }
        set_param(ps, k, v);
    }
}

/// Inserting an element anywhere adds exactly it to the multiset.
proof fn lemma_to_multiset_insert<A>(s: Seq<A>, i: int, a: A)
    requires
        0 <= i <= s.len(),
    ensures
        s.insert(i, a).to_multiset() == s.to_multiset().insert(a),
{
    broadcast use group_to_multiset_ensures;
    broadcast use vstd::multiset::group_multiset_axioms;

    let t = s.insert(i, a);
    assert(t.remove(i) =~= s);
    assert(t[i] == a);
    assert(t.to_multiset().contains(a));
    assert(s.to_multiset() == t.to_multiset().remove(a));
    assert(t.to_multiset().remove(a).insert(a) =~= t.to_multiset());
}

/// Sorts byte strings into lexicographic order.
pub fn sort_lex(items: Vec<Vec<u8>>) -> (r: Vec<Vec<u8>>)
    ensures
        r.deep_view() == items.deep_view().sort_by(lex_leq_fn()),
{
    let ghost orig = items.deep_view();
    let mut rest = items;
    let mut r: Vec<Vec<u8>> = Vec::new();
    proof {
        broadcast use group_to_multiset_ensures;
        broadcast use vstd::multiset::group_multiset_axioms;

        lemma_lex_total_ordering();
        assert(r.deep_view() =~= Seq::<Seq<u8>>::empty());
        assert(r.deep_view().to_multiset().add(rest.deep_view().to_multiset())
            =~= orig.to_multiset());
    }
    while rest.len() > 0
        invariant
            forall|p: int, q: int|
                0 <= p < q < r.deep_view().len() ==> lex_le(
                    #[trigger] r.deep_view()[p],
                    #[trigger] r.deep_view()[q],
                ),
            r.deep_view().to_multiset().add(rest.deep_view().to_multiset()) == orig.to_multiset(),
        decreases rest@.len(),
    {
        let ghost prev = rest.deep_view();
        let x = rest.remove(0);
        proof {
            broadcast use group_to_multiset_ensures;

            assert(rest.deep_view() =~= prev.remove(0));
            assert(prev[0] == x@);
            assert(prev.remove(0).to_multiset() == prev.to_multiset().remove(x@));
        }
        let mut j: usize = 0;
        while j < r.len() && lex_le_bytes(&r[j], &x)
            invariant
                j <= r@.len(),
                r.deep_view().len() == r@.len(),
                forall|m: int| 0 <= m < j ==> lex_le(#[trigger] r.deep_view()[m], x@),
                forall|m: int| 0 <= m < r@.len() ==> #[trigger] r.deep_view()[m] == r@[m]@,
            decreases r@.len() - j,
        {
            j += 1;
        }
        let ghost rdv = r.deep_view();
        proof {
            broadcast use group_to_multiset_ensures;
            broadcast use vstd::multiset::group_multiset_axioms;

            assert(forall|m: int| 0 <= m < r@.len() ==> #[trigger] rdv[m] == r@[m]@);
            if j < rdv.len() {
                assert(!lex_le(rdv[j as int], x@));
                lemma_lex_le_connected(rdv[j as int], x@);
            }
            lemma_to_multiset_insert(rdv, j as int, x@);
            rdv.insert_ensures(j as int, x@);
        }
        r.insert(j, x);
        proof {
            broadcast use group_to_multiset_ensures;
            broadcast use vstd::multiset::group_multiset_axioms;

            lemma_vecs_deep_view(r);
            assert(r.deep_view() =~= rdv.insert(j as int, x@));
            let now = r.deep_view();
            assert forall|p: int, q: int| 0 <= p < q < now.len() implies lex_le(
                #[trigger] now[p],
                #[trigger] now[q],
            ) by {
                assert(now.len() == rdv.len() + 1);
                assert(forall|m: int| 0 <= m < j ==> #[trigger] now[m] == rdv[m]);
                assert(now[j as int] == x@);
                assert(forall|m: int| j <= m < rdv.len() ==> #[trigger] now[m + 1] == rdv[m]);
                if q < j {
                    assert(lex_le(rdv[p], rdv[q]));
                } else if p < j && q == j {
                    assert(lex_le(rdv[p], x@));
                } else if p < j && q > j {
                    assert(now[q] == rdv[q - 1]);
                    assert(lex_le(rdv[p], rdv[q - 1]));
                } else if p == j {
                    assert(lex_le(x@, rdv[j as int]));
                    assert(now[q] == rdv[q - 1]);
                    if q > j + 1 {
                        assert(lex_le(rdv[j as int], rdv[q - 1]));
                        lemma_lex_le_trans(x@, rdv[j as int], rdv[q - 1]);
                    }
                } else {
                    assert(now[p] == rdv[p - 1]);
                    assert(now[q] == rdv[q - 1]);
                    assert(lex_le(rdv[p - 1], rdv[q - 1]));
                }
            }
            assert(now.to_multiset() == rdv.to_multiset().insert(x@));
            assert(now.to_multiset().add(rest.deep_view().to_multiset()) =~= orig.to_multiset());
        }
    }
    proof {
        broadcast use group_to_multiset_ensures;
        broadcast use vstd::multiset::group_multiset_axioms;

        assert(rest.deep_view() =~= Seq::<Seq<u8>>::empty());
        assert(rest.deep_view().to_multiset() =~= Multiset::<Seq<u8>>::empty());
        assert(r.deep_view().to_multiset() =~= orig.to_multiset());
        let fdv = r.deep_view();
        assert forall|p: int, q: int| 0 <= p < q < fdv.len() implies #[trigger] lex_leq_fn()(
            fdv[p],
            fdv[q],
        ) by {
            assert(lex_le(fdv[p], fdv[q]));
        }
        assert(sorted_by(fdv, lex_leq_fn()));
        orig.lemma_sort_by_ensures(lex_leq_fn());
        lemma_sorted_unique(fdv, orig.sort_by(lex_leq_fn()), lex_leq_fn());
    }
    r
}

/// How one more element extends a filtered sequence.
pub proof fn lemma_filter_snoc<A>(s: Seq<A>, x: A, pred: spec_fn(A) -> bool)
    ensures
        pred(x) ==> s.push(x).filter(pred) == s.filter(pred).push(x),
        !pred(x) ==> s.push(x).filter(pred) == s.filter(pred),
{
    reveal(Seq::filter);
    assert(s.push(x).drop_last() =~= s);
    assert(s.push(x).last() == x);
}

/// Two sequences with the same multiset keep the same multiset after
/// mapping a function over each element.
pub proof fn lemma_map_values_multiset<A, B>(a: Seq<A>, b: Seq<A>, f: spec_fn(A) -> B)
    requires
        a.to_multiset() == b.to_multiset(),
    ensures
        a.map_values(f).to_multiset() == b.map_values(f).to_multiset(),
    decreases a.len(),
{
    broadcast use group_to_multiset_ensures;
    broadcast use vstd::multiset::group_multiset_axioms;

    if a.len() == 0 {
        assert(a.to_multiset().len() == a.len());
        assert(b.to_multiset().len() == b.len());
        assert(b.len() == 0);
        assert(a.map_values(f) =~= b.map_values(f));
    } else {
        let x = a[0];
        assert(a.contains(x));
        assert(a.to_multiset().contains(x));
        assert(b.to_multiset().contains(x));
        assert(b.contains(x));
        let i = choose|i: int| 0 <= i < b.len() && b[i] == x;
        let a1 = a.remove(0);
        let b1 = b.remove(i);
        assert(a1.to_multiset() == a.to_multiset().remove(x));
        assert(b1.to_multiset() == b.to_multiset().remove(x));
        lemma_map_values_multiset(a1, b1, f);
        let am = a.map_values(f);
        let bm = b.map_values(f);
        assert(am.remove(0) =~= a1.map_values(f));
        assert(bm.remove(i) =~= b1.map_values(f));
        assert(am[0] == f(x));
        assert(bm[i] == f(x));
        assert(am.remove(0).to_multiset() == am.to_multiset().remove(f(x)));
        assert(bm.remove(i).to_multiset() == bm.to_multiset().remove(f(x)));
        assert(am.contains(f(x)));
        assert(am.to_multiset().contains(f(x)));
        assert(bm.contains(f(x)));
        assert(bm.to_multiset().contains(f(x)));
        let ma = am.to_multiset();
        let mb = bm.to_multiset();
        assert(ma.remove(f(x)) == mb.remove(f(x)));
        assert forall|y: B| #[trigger] ma.count(y) == mb.count(y) by {
            assert(ma.remove(f(x)).count(y) == mb.remove(f(x)).count(y));
            if y == f(x) {
                assert(ma.count(y) >= 1 && mb.count(y) >= 1);
                assert(ma.remove(f(x)).count(y) == ma.count(y) - 1);
                assert(mb.remove(f(x)).count(y) == mb.count(y) - 1);
            } else {
                assert(ma.remove(f(x)).count(y) == ma.count(y));
                assert(mb.remove(f(x)).count(y) == mb.count(y));
            }
        }
        assert(ma =~= mb);
    }
}

} // verus!
