//! Canonical object form: duplicate keys collapsed (the last occurrence
//! wins) and members ordered by key, byte-lexicographically. This is the
//! shape in which records are looked up, reshaped and written out.
use vstd::prelude::*;
use crate::bytes::{bytes_eq, lex_le, lex_le_exec};
use crate::json::{JsonV, JsonValue, jv, jv_list, jv_pairs, lemma_jv_pairs_len};

verus! {

/// Index of the first pair with key `k` at or after `i`.
pub open spec fn assoc_idx(ps: Seq<(Seq<u8>, JsonV)>, k: Seq<u8>, i: int) -> Option<int>
    decreases ps.len() - i,
{
    if i < 0 || i >= ps.len() {
        None
    } else if ps[i].0 == k {
        Some(i)
    } else {
        assoc_idx(ps, k, i + 1)
    }
}

pub proof fn lemma_assoc_idx(ps: Seq<(Seq<u8>, JsonV)>, k: Seq<u8>, i: int)
    requires
        0 <= i <= ps.len(),
    ensures
        match assoc_idx(ps, k, i) {
            Some(j) => i <= j < ps.len() && ps[j].0 == k,
            None => forall|m: int| i <= m < ps.len() ==> (#[trigger] ps[m]).0 != k,
        },
    decreases ps.len() - i,
{
    if i < ps.len() && ps[i].0 != k {
        lemma_assoc_idx(ps, k, i + 1);
    }
}

/// The value stored under key `k`, if any (after the first match).
pub open spec fn assoc_get(ps: Seq<(Seq<u8>, JsonV)>, k: Seq<u8>) -> Option<JsonV> {
    match assoc_idx(ps, k, 0) {
        Some(i) => Some(ps[i].1),
        None => None,
    }
}

/// Duplicate keys collapsed, in first-appearance order, the last value
/// winning.
pub open spec fn dedup_pairs(ps: Seq<(Seq<u8>, JsonV)>) -> Seq<(Seq<u8>, JsonV)>
    decreases ps.len(),
{
    if ps.len() == 0 {
        Seq::empty()
    } else {
        let p = dedup_pairs(ps.drop_last());
        match assoc_idx(p, ps.last().0, 0) {
            Some(i) => if 0 <= i < p.len() {
                p.update(i, ps.last())
            } else {
                p
            },
            None => p.push(ps.last()),
        }
    }
}

/// Insert a pair into a key-sorted list, before the first key it does
/// not exceed.
pub open spec fn insert_pair_sorted(l: Seq<(Seq<u8>, JsonV)>, pr: (Seq<u8>, JsonV)) -> Seq<
    (Seq<u8>, JsonV),
>
    decreases l.len(),
{
    if l.len() == 0 {
        seq![pr]
    } else if lex_le(pr.0, l[0].0) {
        seq![pr] + l
    } else {
        seq![l[0]] + insert_pair_sorted(l.drop_first(), pr)
    }
}

/// Sort pairs by key, byte-lexicographically, by insertion.
pub open spec fn sort_pairs(ps: Seq<(Seq<u8>, JsonV)>) -> Seq<(Seq<u8>, JsonV)>
    decreases ps.len(),
{
    if ps.len() == 0 {
        Seq::empty()
    } else {
        insert_pair_sorted(sort_pairs(ps.drop_last()), ps.last())
    }
}

/// The canonical form of an object's members.
pub open spec fn canon_obj(ps: Seq<(Seq<u8>, JsonV)>) -> Seq<(Seq<u8>, JsonV)> {
    sort_pairs(dedup_pairs(ps))
}

proof fn lemma_insert_pair_at(l: Seq<(Seq<u8>, JsonV)>, pr: (Seq<u8>, JsonV), k: int)
    requires
        0 <= k <= l.len(),
        forall|j: int| 0 <= j < k ==> !lex_le(pr.0, (#[trigger] l[j]).0),
        k < l.len() ==> lex_le(pr.0, l[k].0),
    ensures
        insert_pair_sorted(l, pr) == l.take(k) + seq![pr] + l.skip(k),
    decreases k,
{
    if l.len() == 0 {
        assert(insert_pair_sorted(l, pr) =~= l.take(k) + seq![pr] + l.skip(k));
    } else if k == 0 {
        assert(l.take(0) =~= Seq::<(Seq<u8>, JsonV)>::empty());
        assert(l.skip(0) =~= l);
        assert(insert_pair_sorted(l, pr) =~= l.take(0) + seq![pr] + l.skip(0));
    } else {
        assert(!lex_le(pr.0, l[0].0));
        lemma_insert_pair_at(l.drop_first(), pr, k - 1);
        assert(l.drop_first().take(k - 1) =~= l.take(k).drop_first());
        assert(l.drop_first().skip(k - 1) =~= l.skip(k));
        assert(seq![l[0]] + (l.take(k).drop_first() + seq![pr] + l.skip(k)) =~= l.take(k) + seq![
            pr,
        ] + l.skip(k));
    }
}

pub proof fn lemma_jv_pairs_update(s: Seq<(Vec<u8>, JsonValue)>, i: int, k: Vec<u8>, v: JsonValue)
    requires
        0 <= i < s.len(),
    ensures
        jv_pairs(s.update(i, (k, v))) == jv_pairs(s).update(i, (k@, jv(v))),
    decreases s.len(),
{
    lemma_jv_pairs_len(s);
    lemma_jv_pairs_len(s.update(i, (k, v)));
    assert(jv_pairs(s.update(i, (k, v))) =~= jv_pairs(s).update(i, (k@, jv(v))));
}

/// Deep copy of a JSON value.
pub fn clone_json(v: &JsonValue) -> (r: JsonValue)
    ensures
        jv(r) == jv(*v),
    decreases v,
{
    match v {
        JsonValue::Null => JsonValue::Null,
        JsonValue::Bool(b) => JsonValue::Bool(*b),
        JsonValue::Num(n) => {
            let mut c: Vec<u8> = Vec::new();
            crate::bytes::append_slice(&mut c, n.as_slice());
            proof {
                assert(c@ =~= n@);
            }
            JsonValue::Num(c)
        },
        JsonValue::Str(s) => {
            let mut c: Vec<u8> = Vec::new();
            crate::bytes::append_slice(&mut c, s.as_slice());
            proof {
                assert(c@ =~= s@);
            }
            JsonValue::Str(c)
        },
        JsonValue::Arr(xs) => {
            let mut out: Vec<JsonValue> = Vec::new();
            let mut i: usize = 0;
            proof {
                crate::json::lemma_jv_list_len(xs@);
                assert(jv_list(out@) =~= Seq::<JsonV>::empty());
                assert(jv_list(xs@).take(0) =~= Seq::<JsonV>::empty());
            }
            while i < xs.len()
                invariant
                    0 <= i <= xs@.len(),
                    *v == JsonValue::Arr(*xs),
                    jv_list(xs@).len() == xs@.len(),
                    forall|m: int| 0 <= m < xs@.len() ==> jv_list(xs@)[m] == jv(xs@[m]),
                    jv_list(out@) == jv_list(xs@).take(i as int),
                decreases xs@.len() - i,
            {
                proof {
                    assert(decreases_to!(*v => (*v)->Arr_0));
                    assert((*v)->Arr_0 == *xs);
                    assert(decreases_to!(*xs => xs@));
                    assert(decreases_to!(xs@ => xs@[i as int]));
                }
                let c = clone_json(&xs[i]);
                proof {
                    crate::json::lemma_jv_list_push(out@, c);
                }
                out.push(c);
                proof {
                    assert(jv_list(xs@).take(i + 1 as int) =~= jv_list(xs@).take(i as int).push(
                        jv_list(xs@)[i as int],
                    ));
                }
                i = i + 1;
            }
            proof {
                assert(jv_list(xs@).take(xs@.len() as int) =~= jv_list(xs@));
            }
            JsonValue::Arr(out)
        },
        JsonValue::Obj(ps) => {
            let mut out: Vec<(Vec<u8>, JsonValue)> = Vec::new();
            let mut i: usize = 0;
            proof {
                lemma_jv_pairs_len(ps@);
                assert(jv_pairs(out@) =~= Seq::<(Seq<u8>, JsonV)>::empty());
                assert(jv_pairs(ps@).take(0) =~= Seq::<(Seq<u8>, JsonV)>::empty());
            }
            while i < ps.len()
                invariant
                    0 <= i <= ps@.len(),
                    *v == JsonValue::Obj(*ps),
                    jv_pairs(ps@).len() == ps@.len(),
                    forall|m: int|
                        0 <= m < ps@.len() ==> jv_pairs(ps@)[m] == (ps@[m].0@, jv(ps@[m].1)),
                    jv_pairs(out@) == jv_pairs(ps@).take(i as int),
                decreases ps@.len() - i,
            {
                let mut key: Vec<u8> = Vec::new();
                crate::bytes::append_slice(&mut key, ps[i].0.as_slice());
                proof {
                    assert(key@ =~= ps@[i as int].0@);
                    assert(decreases_to!(*v => (*v)->Obj_0));
                    assert((*v)->Obj_0 == *ps);
                    assert(decreases_to!(*ps => ps@));
                    assert(decreases_to!(ps@ => ps@[i as int]));
                    assert(decreases_to!(ps@[i as int] => ps@[i as int].1));
                }
                let c = clone_json(&ps[i].1);
                proof {
                    crate::json::lemma_jv_pairs_push(out@, key, c);
                }
                out.push((key, c));
                proof {
                    assert(jv_pairs(ps@).take(i + 1 as int) =~= jv_pairs(ps@).take(i as int).push(
                        jv_pairs(ps@)[i as int],
                    ));
                }
                i = i + 1;
            }
            proof {
                assert(jv_pairs(ps@).take(ps@.len() as int) =~= jv_pairs(ps@));
            }
            JsonValue::Obj(out)
        },
    }
}

impl Clone for JsonValue {
    /// A deep copy that stands for the same value.
    fn clone(&self) -> (r: JsonValue)
        ensures
            jv(r) == jv(*self),
    {
        clone_json(self)
    }
}

/// Index of the first pair whose key is `k`.
pub fn assoc_find(ps: &Vec<(Vec<u8>, JsonValue)>, k: &[u8]) -> (r: Option<usize>)
    ensures
        match r {
            Some(j) => assoc_idx(jv_pairs(ps@), k@, 0) == Some(j as int) && j < ps@.len(),
            None => assoc_idx(jv_pairs(ps@), k@, 0) == None::<int>,
        },
{
    proof {
        lemma_jv_pairs_len(ps@);
    }
    let mut i: usize = 0;
    loop
        invariant
            0 <= i <= ps@.len(),
            jv_pairs(ps@).len() == ps@.len(),
            forall|m: int| 0 <= m < ps@.len() ==> jv_pairs(ps@)[m] == (ps@[m].0@, jv(ps@[m].1)),
            assoc_idx(jv_pairs(ps@), k@, 0) == assoc_idx(jv_pairs(ps@), k@, i as int),
        decreases ps@.len() - i,
    {
        if i >= ps.len() {
            return None;
        }
        if bytes_eq(ps[i].0.as_slice(), k) {
            return Some(i);
        }
        i = i + 1;
    }
}

/// Replace the value under `k`, or append the pair when absent: the
/// last write wins, first-appearance order kept.
pub fn upsert_pair(ps: &mut Vec<(Vec<u8>, JsonValue)>, k: Vec<u8>, v: JsonValue)
    ensures
        jv_pairs(final(ps)@) == ({
            let g = jv_pairs(old(ps)@);
            match assoc_idx(g, k@, 0) {
                Some(i) => if 0 <= i < g.len() {
                    g.update(i, (k@, jv(v)))
                } else {
                    g
                },
                None => g.push((k@, jv(v))),
            }
        }),
{
    proof {
        lemma_jv_pairs_len(ps@);
    }
    match assoc_find(ps, k.as_slice()) {
        Some(i) => {
            proof {
                lemma_jv_pairs_update(ps@, i as int, k, v);
            }
            ps.set(i, (k, v));
        },
        None => {
            proof {
                crate::json::lemma_jv_pairs_push(ps@, k, v);
            }
            ps.push((k, v));
        },
    }
}

/// Insert a pair into a key-sorted vector at its ordered position.
pub fn insert_pair_sorted_exec(ps: &mut Vec<(Vec<u8>, JsonValue)>, k: Vec<u8>, v: JsonValue)
    ensures
        jv_pairs(final(ps)@) == insert_pair_sorted(jv_pairs(old(ps)@), (k@, jv(v))),
{
    let ghost l = jv_pairs(ps@);
    proof {
        lemma_jv_pairs_len(ps@);
    }
    let mut idx: usize = 0;
    loop
        invariant_except_break
            ps@ == old(ps)@,
            l == jv_pairs(ps@),
            l.len() == ps@.len(),
            forall|m: int| 0 <= m < ps@.len() ==> l[m] == (ps@[m].0@, jv(ps@[m].1)),
            0 <= idx <= ps@.len(),
            forall|j: int| 0 <= j < idx ==> !lex_le(k@, (#[trigger] l[j]).0),
        ensures
            ps@ == old(ps)@,
            l == jv_pairs(ps@),
            0 <= idx <= ps@.len(),
            forall|j: int| 0 <= j < idx ==> !lex_le(k@, (#[trigger] l[j]).0),
            idx < ps@.len() ==> lex_le(k@, l[idx as int].0),
        decreases ps@.len() - idx,
    {
        if idx >= ps.len() {
            break;
        }
        if lex_le_exec(k.as_slice(), ps[idx].0.as_slice()) {
            proof {
                assert(l[idx as int] == (ps@[idx as int].0@, jv(ps@[idx as int].1)));
            }
            break;
        }
        proof {
            assert(l[idx as int] == (ps@[idx as int].0@, jv(ps@[idx as int].1)));
        }
        idx = idx + 1;
    }
    proof {
        lemma_insert_pair_at(l, (k@, jv(v)), idx as int);
    }
    ps.insert(idx, (k, v));
    proof {
        lemma_jv_pairs_len(ps@);
        assert(jv_pairs(ps@) =~= l.take(idx as int) + seq![(k@, jv(v))] + l.skip(idx as int));
    }
}

/// Bring an object's members into canonical form: duplicates collapsed
/// (last value wins), then sorted by key.
pub fn canon_pairs(ps: &Vec<(Vec<u8>, JsonValue)>) -> (r: Vec<(Vec<u8>, JsonValue)>)
    ensures
        jv_pairs(r@) == canon_obj(jv_pairs(ps@)),
{
    let ghost g = jv_pairs(ps@);
    proof {
        lemma_jv_pairs_len(ps@);
    }
    let mut d: Vec<(Vec<u8>, JsonValue)> = Vec::new();
    let mut i: usize = 0;
    proof {
        assert(jv_pairs(d@) =~= Seq::<(Seq<u8>, JsonV)>::empty());
        assert(g.take(0) =~= Seq::<(Seq<u8>, JsonV)>::empty());
        assert(dedup_pairs(g.take(0)) =~= Seq::<(Seq<u8>, JsonV)>::empty());
    }
    while i < ps.len()
        invariant
            0 <= i <= ps@.len(),
            g == jv_pairs(ps@),
            g.len() == ps@.len(),
            forall|m: int| 0 <= m < ps@.len() ==> g[m] == (ps@[m].0@, jv(ps@[m].1)),
            jv_pairs(d@) == dedup_pairs(g.take(i as int)),
        decreases ps@.len() - i,
    {
        let mut key: Vec<u8> = Vec::new();
        crate::bytes::append_slice(&mut key, ps[i].0.as_slice());
        proof {
            assert(key@ =~= ps@[i as int].0@);
        }
        let val = clone_json(&ps[i].1);
        proof {
            assert(g.take(i + 1 as int).drop_last() =~= g.take(i as int));
            assert(g.take(i + 1 as int).last() == g[i as int]);
        }
        upsert_pair(&mut d, key, val);
        i = i + 1;
    }
    proof {
        assert(g.take(g.len() as int) =~= g);
    }
    let ghost dd = jv_pairs(d@);
    let mut out: Vec<(Vec<u8>, JsonValue)> = Vec::new();
    let mut j: usize = 0;
    proof {
        lemma_jv_pairs_len(d@);
        assert(jv_pairs(out@) =~= Seq::<(Seq<u8>, JsonV)>::empty());
        assert(dd.take(0) =~= Seq::<(Seq<u8>, JsonV)>::empty());
        assert(sort_pairs(dd.take(0)) =~= Seq::<(Seq<u8>, JsonV)>::empty());
    }
    while j < d.len()
        invariant
            0 <= j <= d@.len(),
            dd == jv_pairs(d@),
            dd.len() == d@.len(),
            forall|m: int| 0 <= m < d@.len() ==> dd[m] == (d@[m].0@, jv(d@[m].1)),
            jv_pairs(out@) == sort_pairs(dd.take(j as int)),
        decreases d@.len() - j,
    {
        let mut key: Vec<u8> = Vec::new();
        crate::bytes::append_slice(&mut key, d[j].0.as_slice());
        proof {
            assert(key@ =~= d@[j as int].0@);
        }
        let val = clone_json(&d[j].1);
        proof {
            assert(dd.take(j + 1 as int).drop_last() =~= dd.take(j as int));
            assert(dd.take(j + 1 as int).last() == dd[j as int]);
        }
        insert_pair_sorted_exec(&mut out, key, val);
        j = j + 1;
    }
    proof {
        assert(dd.take(dd.len() as int) =~= dd);
    }
    out
}

} // verus!
