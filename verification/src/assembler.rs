use vstd::prelude::*;

use crate::aggregator::sum_len;
use crate::chunk::Chunk;

verus! {

/// Insert a chunk into a run sorted by ascending id, in front of the first
/// member with an id at least as large.
pub open spec fn insert_by_id(c: Chunk, s: Seq<Chunk>) -> Seq<Chunk>
    decreases s.len(),
{
    if s.len() == 0 {
        seq![c]
    } else if c.id <= s[0].id {
        seq![c] + s
    } else {
        seq![s[0]] + insert_by_id(c, s.drop_first())
    }
}

/// The captured chunks rearranged into ascending id order (insertion sort).
pub open spec fn sort_by_id(s: Seq<Chunk>) -> Seq<Chunk>
    decreases s.len(),
{
    if s.len() == 0 {
        Seq::<Chunk>::empty()
    } else {
        insert_by_id(s[0], sort_by_id(s.drop_first()))
    }
}

/// A run of chunks stands in ascending id order.
pub open spec fn sorted_by_id(s: Seq<Chunk>) -> bool {
    forall|k1: int, k2: int| 0 <= k1 < k2 < s.len() ==> s[k1].id <= s[k2].id
}

/// The bytes of a run of chunks, concatenated in the order given.
pub open spec fn concat_data(s: Seq<Chunk>) -> Seq<u8>
    decreases s.len(),
{
    if s.len() == 0 {
        Seq::<u8>::empty()
    } else {
        s[0].data@ + concat_data(s.drop_first())
    }
}

proof fn lemma_insert_by_id_len(c: Chunk, s: Seq<Chunk>)
    ensures
        insert_by_id(c, s).len() == s.len() + 1,
    decreases s.len(),
{
    if s.len() != 0 && !(c.id <= s[0].id) {
        lemma_insert_by_id_len(c, s.drop_first());
    }
}

/// Sorting loses no chunk and invents none: the sorted run has exactly as
/// many members as the captured run.
pub proof fn lemma_sort_by_id_len(s: Seq<Chunk>)
    ensures
        sort_by_id(s).len() == s.len(),
    decreases s.len(),
{
    if s.len() != 0 {
        lemma_sort_by_id_len(s.drop_first());
        lemma_insert_by_id_len(s[0], sort_by_id(s.drop_first()));
    }
}

proof fn lemma_insert_by_id_sorted(c: Chunk, s: Seq<Chunk>)
    requires
        sorted_by_id(s),
    ensures
        sorted_by_id(insert_by_id(c, s)),
        forall|k: int| 0 <= k < insert_by_id(c, s).len() ==> insert_by_id(c, s)[k] == c || (exists|
            j: int,
        | 0 <= j < s.len() && insert_by_id(c, s)[k] == s[j]),
    decreases s.len(),
{
    lemma_insert_by_id_len(c, s);
    if s.len() == 0 {
    } else if c.id <= s[0].id {
    } else {
        assert(forall|k1: int, k2: int|
            0 <= k1 < k2 < s.drop_first().len() ==> s.drop_first()[k1].id
                <= s.drop_first()[k2].id);
        lemma_insert_by_id_sorted(c, s.drop_first());
        let r = insert_by_id(c, s);
        let t = insert_by_id(c, s.drop_first());
        assert(r == seq![s[0]] + t);
        assert(r[0] == s[0]);
        assert(forall|k: int| 1 <= k < r.len() ==> r[k] == t[k - 1]);
        // s[0] precedes everything in t: each member of t is c or some s[j]
        assert forall|k1: int, k2: int| 0 <= k1 < k2 < r.len() implies r[k1].id <= r[k2].id by {
            if k1 == 0 {
                assert(r[k2] == t[k2 - 1]);
                if t[k2 - 1] == c {
                } else {
                    let j = choose|j: int|
                        0 <= j < s.drop_first().len() && t[k2 - 1] == s.drop_first()[j];
                    assert(s.drop_first()[j] == s[j + 1]);
                }
            }
        }
        assert forall|k: int| 0 <= k < r.len() implies r[k] == c || (exists|j: int|
            0 <= j < s.len() && r[k] == s[j]) by {
            if k == 0 {
                assert(r[0] == s[0]);
            } else {
                if t[k - 1] == c {
                } else {
                    let j = choose|j: int|
                        0 <= j < s.drop_first().len() && t[k - 1] == s.drop_first()[j];
                    assert(r[k] == s[j + 1]);
                }
            }
        }
    }
}

/// The sorted rearrangement really is sorted.
pub proof fn lemma_sort_by_id_sorted(s: Seq<Chunk>)
    ensures
        sorted_by_id(sort_by_id(s)),
    decreases s.len(),
{
    if s.len() != 0 {
        lemma_sort_by_id_sorted(s.drop_first());
        lemma_insert_by_id_sorted(s[0], sort_by_id(s.drop_first()));
    }
}

proof fn lemma_concat_data_len(s: Seq<Chunk>)
    ensures
        concat_data(s).len() == sum_len(s),
    decreases s.len(),
{
    if s.len() != 0 {
        lemma_concat_data_len(s.drop_first());
    }
}

proof fn lemma_sum_len_insert(c: Chunk, s: Seq<Chunk>)
    ensures
        sum_len(insert_by_id(c, s)) == sum_len(s) + c.data@.len(),
    decreases s.len(),
{
    if s.len() == 0 {
        let r = insert_by_id(c, s);
        assert(r =~= seq![c]);
        assert(r[0] == c);
        assert(r.drop_first() =~= Seq::<Chunk>::empty());
        assert(sum_len(r) == c.data@.len() + sum_len(Seq::<Chunk>::empty()));
        assert(sum_len(Seq::<Chunk>::empty()) == 0);
    } else if c.id <= s[0].id {
        let r = insert_by_id(c, s);
        assert(r =~= seq![c] + s);
        assert(r[0] == c);
        assert(r.drop_first() =~= s);
        assert(sum_len(r) == c.data@.len() + sum_len(s));
    } else {
        let r = insert_by_id(c, s);
        assert(r =~= seq![s[0]] + insert_by_id(c, s.drop_first()));
        assert(r[0] == s[0]);
        assert(r.drop_first() =~= insert_by_id(c, s.drop_first()));
        lemma_sum_len_insert(c, s.drop_first());
        assert(sum_len(r) == s[0].data@.len() + sum_len(insert_by_id(c, s.drop_first())));
        assert(sum_len(s) == s[0].data@.len() + sum_len(s.drop_first()));
    }
}

/// Sorting moves bytes around but neither adds nor loses any: the sorted
/// run holds exactly as many data bytes as the captured run.
pub proof fn lemma_sum_len_sort(s: Seq<Chunk>)
    ensures
        sum_len(sort_by_id(s)) == sum_len(s),
    decreases s.len(),
{
    if s.len() != 0 {
        lemma_sum_len_sort(s.drop_first());
        lemma_sum_len_insert(s[0], sort_by_id(s.drop_first()));
    }
}

/// Sorting a run already in ascending id order changes nothing.
pub proof fn lemma_sort_of_sorted(s: Seq<Chunk>)
    requires
        sorted_by_id(s),
    ensures
        sort_by_id(s) == s,
    decreases s.len(),
{
    if s.len() != 0 {
        assert(forall|k1: int, k2: int|
            0 <= k1 < k2 < s.drop_first().len() ==> s.drop_first()[k1].id
                <= s.drop_first()[k2].id);
        lemma_sort_of_sorted(s.drop_first());
        let t = s.drop_first();
        if t.len() == 0 {
            assert(insert_by_id(s[0], t) =~= s);
        } else {
            assert(s[0].id <= t[0].id);
            assert(insert_by_id(s[0], t) =~= seq![s[0]] + t);
            assert(seq![s[0]] + t =~= s);
        }
    }
}

/// Each chunk of the run carries a distinct id.
pub open spec fn unique_ids(s: Seq<Chunk>) -> bool {
    forall|k1: int, k2: int| 0 <= k1 < k2 < s.len() ==> s[k1].id != s[k2].id
}

proof fn lemma_insert_by_id_multiset(c: Chunk, s: Seq<Chunk>)
    ensures
        insert_by_id(c, s).to_multiset() == s.to_multiset().insert(c),
    decreases s.len(),
{
    broadcast use vstd::seq_lib::group_to_multiset_ensures;

    if s.len() == 0 {
        assert(insert_by_id(c, s) =~= Seq::<Chunk>::empty().push(c));
        assert(Seq::<Chunk>::empty().push(c).to_multiset() =~= s.to_multiset().insert(c));
    } else if c.id <= s[0].id {
        let r = insert_by_id(c, s);
        assert(r =~= seq![c] + s);
        vstd::seq_lib::lemma_multiset_commutative(seq![c], s);
        assert(seq![c] =~= Seq::<Chunk>::empty().push(c));
        assert(r.to_multiset() =~= s.to_multiset().insert(c));
    } else {
        let t = insert_by_id(c, s.drop_first());
        let r = insert_by_id(c, s);
        assert(r =~= seq![s[0]] + t);
        lemma_insert_by_id_multiset(c, s.drop_first());
        vstd::seq_lib::lemma_multiset_commutative(seq![s[0]], t);
        assert(s =~= seq![s[0]] + s.drop_first());
        vstd::seq_lib::lemma_multiset_commutative(seq![s[0]], s.drop_first());
        assert(r.to_multiset() =~= s.to_multiset().insert(c));
    }
}

/// Sorting rearranges the captured chunks and nothing more: the sorted run
/// holds exactly the captured chunks, each exactly as often as captured.
pub proof fn lemma_sort_by_id_multiset(s: Seq<Chunk>)
    ensures
        sort_by_id(s).to_multiset() == s.to_multiset(),
    decreases s.len(),
{
    broadcast use vstd::seq_lib::group_to_multiset_ensures;

    if s.len() != 0 {
        lemma_sort_by_id_multiset(s.drop_first());
        lemma_insert_by_id_multiset(s[0], sort_by_id(s.drop_first()));
        assert(s =~= seq![s[0]] + s.drop_first());
        vstd::seq_lib::lemma_multiset_commutative(seq![s[0]], s.drop_first());
        assert(seq![s[0]] =~= Seq::<Chunk>::empty().push(s[0]));
        assert(sort_by_id(s).to_multiset() =~= s.to_multiset());
    }
}

proof fn lemma_sorted_unique_multiset_eq(a: Seq<Chunk>, b: Seq<Chunk>)
    requires
        sorted_by_id(a),
        sorted_by_id(b),
        unique_ids(a),
        a.to_multiset() == b.to_multiset(),
    ensures
        a == b,
    decreases a.len(),
{
    broadcast use vstd::seq_lib::group_to_multiset_ensures;

    if a.len() == 0 {
        assert(b.to_multiset().len() == 0);
        assert(a =~= b);
    } else {
        assert(a.to_multiset().len() == a.len());
        assert(b.to_multiset().len() == b.len());
        assert(b.len() == a.len());
        // the head of each run lies in the other; minimality forces equal ids
        assert(a.contains(a[0]));
        assert(a.to_multiset().count(a[0]) > 0);
        assert(b.to_multiset().count(a[0]) > 0);
        assert(b.contains(a[0]));
        let j = choose|j: int| 0 <= j < b.len() && b[j] == a[0];
        assert(b[0].id <= b[j].id);
        assert(b.contains(b[0]));
        assert(b.to_multiset().count(b[0]) > 0);
        assert(a.to_multiset().count(b[0]) > 0);
        assert(a.contains(b[0]));
        let i = choose|i: int| 0 <= i < a.len() && a[i] == b[0];
        assert(a[0].id <= a[i].id);
        assert(a[0].id == b[0].id);
        // ids in `a` are unique, so the member of `a` equal to b[0] is a[0]
        assert(i == 0);
        assert(a[0] == b[0]);
        assert(a.drop_first() =~= a.remove(0));
        assert(b.drop_first() =~= b.remove(0));
        assert(a.remove(0).to_multiset() =~= a.to_multiset().remove(a[0]));
        assert(b.remove(0).to_multiset() =~= b.to_multiset().remove(b[0]));
        assert(forall|k1: int, k2: int|
            0 <= k1 < k2 < a.drop_first().len() ==> a.drop_first()[k1].id
                != a.drop_first()[k2].id);
        assert(forall|k1: int, k2: int|
            0 <= k1 < k2 < a.drop_first().len() ==> a.drop_first()[k1].id
                <= a.drop_first()[k2].id);
        assert(forall|k1: int, k2: int|
            0 <= k1 < k2 < b.drop_first().len() ==> b.drop_first()[k1].id
                <= b.drop_first()[k2].id);
        lemma_sorted_unique_multiset_eq(a.drop_first(), b.drop_first());
        assert(a =~= seq![a[0]] + a.drop_first());
        assert(b =~= seq![b[0]] + b.drop_first());
    }
}

/// Worker completion order is irrelevant: two runs that captured the same
/// chunks — in whatever order each happened to record them — assemble into
/// the same sorted run, and so into the same output bytes.
pub proof fn lemma_assembly_order_independent(s1: Seq<Chunk>, s2: Seq<Chunk>)
    requires
        unique_ids(s1),
        s1.to_multiset() == s2.to_multiset(),
    ensures
        sort_by_id(s1) == sort_by_id(s2),
        concat_data(sort_by_id(s1)) == concat_data(sort_by_id(s2)),
{
    broadcast use vstd::seq_lib::group_to_multiset_ensures;

    lemma_sort_by_id_multiset(s1);
    lemma_sort_by_id_multiset(s2);
    lemma_sort_by_id_sorted(s1);
    lemma_sort_by_id_sorted(s2);
    let t1 = sort_by_id(s1);
    lemma_multiset_unique_ids(t1, s1);
    lemma_sorted_unique_multiset_eq(t1, sort_by_id(s2));
}

/// A rearrangement of a run with pairwise distinct ids again has pairwise
/// distinct ids.
proof fn lemma_multiset_unique_ids(t: Seq<Chunk>, s: Seq<Chunk>)
    requires
        unique_ids(s),
        t.to_multiset() == s.to_multiset(),
    ensures
        unique_ids(t),
{
    broadcast use vstd::seq_lib::group_to_multiset_ensures;

    assert(s.no_duplicates()) by {
        assert forall|x: int, y: int|
            (0 <= x < s.len() && 0 <= y < s.len() && x != y) implies s[x] != s[y] by {
            assert(s[x].id != s[y].id);
        }
    }
    s.lemma_multiset_has_no_duplicates();
    assert forall|k1: int, k2: int| 0 <= k1 < k2 < t.len() implies t[k1].id != t[k2].id by {
        if t[k1].id == t[k2].id {
            // two members of `t` would share an id; both lie in `s`, whose ids
            // are unique, so they would be the same chunk — held once by `s`
            // yet twice by `t`, against the multisets being equal.
            assert(t.contains(t[k1]));
            assert(t.to_multiset().count(t[k1]) > 0);
            assert(s.to_multiset().count(t[k1]) > 0);
            assert(s.contains(t[k1]));
            assert(t.contains(t[k2]));
            assert(t.to_multiset().count(t[k2]) > 0);
            assert(s.to_multiset().count(t[k2]) > 0);
            assert(s.contains(t[k2]));
            let i1 = choose|i: int| 0 <= i < s.len() && s[i] == t[k1];
            let i2 = choose|i: int| 0 <= i < s.len() && s[i] == t[k2];
            assert(i1 == i2);
            assert(t[k1] == t[k2]);
            assert(s.to_multiset().count(t[k1]) == 1);
            assert(t.remove(k2).to_multiset() =~= t.to_multiset().remove(t[k2]));
            assert(t.remove(k2)[k1] == t[k1]);
            assert(t.remove(k2).contains(t[k1]));
            assert(t.remove(k2).to_multiset().count(t[k1]) > 0);
            assert(t.to_multiset().count(t[k1]) >= 2);
        }
    }
}

fn insert_sorted(v: &mut Vec<Chunk>, c: Chunk)
    ensures
        final(v)@ == insert_by_id(c, old(v)@),
{
    let mut p: usize = 0;
    while p < v.len() && v[p].id < c.id
        invariant
            p <= v@.len(),
            v@ == old(v)@,
            forall|k: int| 0 <= k < p ==> v@[k].id < c.id,
        decreases v@.len() - p,
    {
        p = p + 1;
    }
    proof {
        lemma_insert_at(c, v@, p as int);
    }
    v.insert(p, c);
}

proof fn lemma_insert_at(c: Chunk, s: Seq<Chunk>, p: int)
    requires
        0 <= p <= s.len(),
        forall|k: int| 0 <= k < p ==> s[k].id < c.id,
        p < s.len() ==> c.id <= s[p].id,
    ensures
        insert_by_id(c, s) == s.insert(p, c),
    decreases p,
{
    if p == 0 {
        if s.len() == 0 {
            assert(insert_by_id(c, s) =~= s.insert(0, c));
        } else {
            assert(c.id <= s[0].id);
            assert(seq![c] + s =~= s.insert(0, c));
        }
    } else {
        assert(s[0].id < c.id);
        assert(forall|k: int| 0 <= k < p - 1 ==> s.drop_first()[k].id < c.id);
        lemma_insert_at(c, s.drop_first(), p - 1);
        assert(seq![s[0]] + s.drop_first().insert(p - 1, c) =~= s.insert(p, c));
    }
}

/// Order and concatenate the captured chunks: the output is the chunks' data
/// in ascending id order — completion order of the workers notwithstanding —
/// and its length is the sum of all captured chunk lengths. Chunks never
/// captured simply leave a gap; no padding is inserted.
pub fn assemble(chunks: Vec<Chunk>) -> (out: Vec<u8>)
    ensures
        out@ == concat_data(sort_by_id(chunks@)),
        out@.len() == sum_len(chunks@),
{
    let ghost chunks0 = chunks@;
    let mut sorted: Vec<Chunk> = Vec::new();
    let mut src = chunks;
    proof {
        assert(src@ =~= chunks0.take(src@.len() as int));
        assert(chunks0.skip(src@.len() as int) =~= Seq::<Chunk>::empty());
    }
    while src.len() > 0
        invariant
            src@.len() <= chunks0.len(),
            src@ == chunks0.take(src@.len() as int),
            sorted@ == sort_by_id(chunks0.skip(src@.len() as int)),
        decreases src@.len(),
    {
        let ghost k = src@.len() as int;
        let c = src.pop().unwrap();
        proof {
            assert(c == chunks0[k - 1]);
            assert(src@ =~= chunks0.take(k - 1));
            assert(chunks0.skip(k - 1)[0] == chunks0[k - 1]);
            assert(chunks0.skip(k - 1).drop_first() =~= chunks0.skip(k));
        }
        insert_sorted(&mut sorted, c);
    }
    proof {
        assert(chunks0.skip(0) =~= chunks0);
    }
    let mut out: Vec<u8> = Vec::new();
    let ghost sorted0 = sorted@;
    let mut rest = sorted;
    let mut taken: usize = 0;
    let total = rest.len();
    proof {
        assert(sorted0.len() == total as int);
        assert(rest@ =~= sorted0.skip(0));
        assert(Seq::<u8>::empty() + concat_data(sorted0) =~= concat_data(sorted0));
    }
    while rest.len() > 0
        invariant
            sorted0.len() <= usize::MAX,
            taken + rest@.len() == sorted0.len(),
            rest@ == sorted0.skip(taken as int),
            concat_data(sorted0) == out@ + concat_data(rest@),
        decreases rest@.len(),
    {
        let ghost rest_pre = rest@;
        let mut c = rest.remove(0);
        proof {
            assert(rest_pre[0] == c);
            assert(rest@ =~= rest_pre.drop_first());
            assert(rest@ =~= sorted0.skip(taken + 1));
            assert(concat_data(rest_pre) == c.data@ + concat_data(rest@));
            assert(out@ + (c.data@ + concat_data(rest@)) =~= (out@ + c.data@) + concat_data(
                rest@,
            ));
        }
        out.append(&mut c.data);
        taken = taken + 1;
    }
    proof {
        assert(concat_data(rest@) == Seq::<u8>::empty());
        assert(out@ + Seq::<u8>::empty() =~= out@);
        lemma_concat_data_len(sorted0);
        lemma_sum_len_sort(chunks0);
    }
    out
}

} // verus!
