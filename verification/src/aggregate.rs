//! Aggregation of the latest snapshot under the active tab: for every
//! statistic key observed across matching connections, the set of distinct
//! values seen for it, as a table sorted by key.
use vstd::prelude::*;
use crate::pattern::{conn_matches, Tab, TabModel};
use crate::stats::{models_of, ConnectionStats, StatsItem, StatsValue, ValModel};
use crate::text::{lemma_lex_lt_irrefl, lemma_lex_lt_trans, lex_lt, str_compare, KeyOrder};

verus! {

broadcast use vstd::set::group_set_axioms;

/// The key/value pairs the matching connections contribute, in order: once
/// a connection passes the filter, its entire statistics are included.
pub open spec fn matched_pairs(t: TabModel, conns: Seq<Seq<(Seq<char>, ValModel)>>) -> Seq<
    (Seq<char>, ValModel),
>
    decreases conns.len(),
{
    if conns.len() == 0 {
        Seq::empty()
    } else {
        let rest = matched_pairs(t, conns.drop_last());
        if conn_matches(t, conns.last()) {
            rest + conns.last()
        } else {
            rest
        }
    }
}

/// The distinct values the contributed pairs hold for key `k`.
pub open spec fn key_values(pairs: Seq<(Seq<char>, ValModel)>, k: Seq<char>) -> Set<ValModel> {
    Set::new(|v: ValModel| pairs.contains((k, v)))
}

/// No two values of the row share a model: the row is a set.
pub open spec fn distinct_models(vs: Seq<StatsValue>) -> bool {
    forall|a: int, b: int| 0 <= a < b < vs.len() ==> vs[a]@ != vs[b]@
}

/// The rows carry exactly the contributed pairs: each row holds the
/// distinct values of its key, each row is nonempty and deduplicated, and
/// every contributed key has a row.
pub open spec fn rows_represent(rows: Seq<StatsItem>, pairs: Seq<(Seq<char>, ValModel)>) -> bool {
    &&& forall|i: int| 0 <= i < rows.len() ==> (#[trigger] rows[i]).val_set() == key_values(
        pairs,
        rows[i].key@,
    )
    &&& forall|i: int| 0 <= i < rows.len() ==> (#[trigger] rows[i]).values@.len() > 0
    &&& forall|i: int| 0 <= i < rows.len() ==> distinct_models((#[trigger] rows[i]).values@)
    &&& forall|p: (Seq<char>, ValModel)| #[trigger]
        pairs.contains(p) ==> exists|i: int| 0 <= i < rows.len() && (#[trigger] rows[i]).key@ == p.0
}

/// The rows are strictly ordered by key, ascending.
pub open spec fn sorted_rows(rows: Seq<StatsItem>) -> bool {
    forall|i: int, j: int| 0 <= i < j < rows.len() ==> lex_lt(
        (#[trigger] rows[i]).key@,
        (#[trigger] rows[j]).key@,
    )
}

proof fn lemma_contains_push<A>(s: Seq<A>, x: A, y: A)
    ensures
        s.push(x).contains(y) <==> (s.contains(y) || y == x),
{
    if s.push(x).contains(y) {
        let i = choose|i: int| 0 <= i < s.push(x).len() && s.push(x)[i] == y;
        if i < s.len() {
            assert(s[i] == y);
        }
    }
    if s.contains(y) {
        let i = choose|i: int| 0 <= i < s.len() && s[i] == y;
        assert(s.push(x)[i] == y);
    }
    assert(s.push(x)[s.len() as int] == x);
}

proof fn lemma_key_values_push(
    pairs: Seq<(Seq<char>, ValModel)>,
    kk: Seq<char>,
    vv: ValModel,
    k: Seq<char>,
)
    ensures
        kk == k ==> key_values(pairs.push((kk, vv)), k) == key_values(pairs, k).insert(vv),
        kk != k ==> key_values(pairs.push((kk, vv)), k) == key_values(pairs, k),
{
    if kk == k {
        assert forall|v: ValModel|
            key_values(pairs.push((kk, vv)), k).contains(v) == key_values(
                pairs,
                k,
            ).insert(vv).contains(v) by {
            lemma_contains_push(pairs, (kk, vv), (k, v));
        }
        assert(key_values(pairs.push((kk, vv)), k) =~= key_values(pairs, k).insert(vv));
    } else {
        assert forall|v: ValModel|
            key_values(pairs.push((kk, vv)), k).contains(v) == key_values(pairs, k).contains(
                v,
            ) by {
            lemma_contains_push(pairs, (kk, vv), (k, v));
        }
        assert(key_values(pairs.push((kk, vv)), k) =~= key_values(pairs, k));
    }
}

proof fn lemma_val_set_push(vs: Seq<StatsValue>, v: StatsValue)
    ensures
        models_of(vs.push(v)).to_set() == models_of(vs).to_set().insert(v@),
{
    assert(models_of(vs.push(v)) =~= models_of(vs).push(v@));
    assert forall|m: ValModel|
        models_of(vs.push(v)).to_set().contains(m) == models_of(vs).to_set().insert(v@).contains(
            m,
        ) by {
        lemma_contains_push(models_of(vs), v@, m);
    }
    assert(models_of(vs.push(v)).to_set() =~= models_of(vs).to_set().insert(v@));
}

/// Whether some value of `vs` has the model of `v`.
fn contains_model(vs: &Vec<StatsValue>, v: &StatsValue) -> (r: bool)
    ensures
        r == models_of(vs@).contains(v@),
{
    let ghost models = models_of(vs@);
    let mut i: usize = 0;
    while i < vs.len()
        invariant
            0 <= i <= vs.len(),
            models == models_of(vs@),
            models.len() == vs@.len(),
            forall|j: int| 0 <= j < i ==> models[j] != v@,
        decreases vs.len() - i,
    {
        if vs[i].model_eq(v) {
            assert(models[i as int] == v@);
            return true;
        }
        i = i + 1;
    }
    false
}

/// Adds one contributed pair to the sorted table: a new value joins its
/// key's row unless already present; a new key gets a fresh row at its
/// ordered position.
fn insert_value(
    rows: &mut Vec<StatsItem>,
    key: &String,
    value: &StatsValue,
    Ghost(pairs): Ghost<Seq<(Seq<char>, ValModel)>>,
)
    requires
        sorted_rows(old(rows)@),
        rows_represent(old(rows)@, pairs),
    ensures
        sorted_rows(final(rows)@),
        rows_represent(final(rows)@, pairs.push((key@, value@))),
{
    let mut lo: usize = 0;
    let mut found_greater = false;
    while lo < rows.len() && !found_greater
        invariant
            0 <= lo <= rows.len(),
            sorted_rows(rows@),
            rows_represent(rows@, pairs),
            rows@ == old(rows)@,
            forall|i: int| 0 <= i < lo ==> lex_lt((#[trigger] rows@[i]).key@, key@),
            found_greater ==> lo < rows@.len() && lex_lt(key@, rows@[lo as int].key@),
        decreases rows.len() - lo + (if found_greater { 0int } else { 1int }),
    {
        match str_compare(rows[lo].key.as_str(), key.as_str()) {
            KeyOrder::Less => {
                lo = lo + 1;
            },
            KeyOrder::Equal => {
                assert(rows@[lo as int].key@ == key@);
                let ghost old_rows = old(rows)@;
                let mut item = rows.remove(lo);
                assert(item == old_rows[lo as int]);
                let ghost pre_values = item.values@;
                if !contains_model(&item.values, value) {
                    let dup = value.clone();
                    proof {
                        lemma_val_set_push(item.values@, dup);
                    }
                    item.values.push(dup);
                    proof {
                        assert(distinct_models(item.values@)) by {
                            assert forall|a: int, b: int|
                                0 <= a < b < item.values@.len() implies item.values@[a]@
                                != item.values@[b]@ by {
                                assert(item.values@[a] == pre_values[a]);
                                if b == pre_values.len() {
                                    assert(models_of(pre_values)[a] == pre_values[a]@);
                                    if pre_values[a]@ == dup@ {
                                        assert(models_of(pre_values).contains(dup@));
                                    }
                                } else {
                                    assert(item.values@[b] == pre_values[b]);
                                    assert(distinct_models(pre_values));
                                }
                            }
                        }
                    }
                }
                rows.insert(lo, item);
                proof {
                    let nrows = rows@;
                    let npairs = pairs.push((key@, value@));
                    assert(nrows =~= old_rows.update(lo as int, nrows[lo as int]));
                    assert(nrows[lo as int].key@ == key@);
                    lemma_lex_lt_irrefl(key@);
                    assert(sorted_rows(nrows));
                    // Every row still holds exactly its key's distinct values.
                    assert forall|i: int| 0 <= i < nrows.len() implies (#[trigger] nrows[i]).val_set()
                        == key_values(npairs, nrows[i].key@) by {
                        lemma_key_values_push(pairs, key@, value@, nrows[i].key@);
                        if i != lo {
                            assert(nrows[i] == old_rows[i]);
                            if i < lo {
                                assert(lex_lt(old_rows[i].key@, key@));
                            } else {
                                assert(lex_lt(old_rows[lo as int].key@, old_rows[i].key@));
                            }
                            assert(nrows[i].key@ != key@);
                        } else {
                            assert(key_values(npairs, key@) == key_values(pairs, key@).insert(
                                value@,
                            ));
                            if old_rows[lo as int].val_set().contains(value@) {
                                assert(key_values(pairs, key@).contains(value@));
                                assert forall|m: ValModel|
                                    key_values(pairs, key@).insert(value@).contains(m)
                                        == key_values(pairs, key@).contains(m) by {}
                                assert(key_values(pairs, key@).insert(value@) =~= key_values(
                                    pairs,
                                    key@,
                                ));
                            }
                        }
                    }
                    // Every contributed key still has a row.
                    assert forall|q: (Seq<char>, ValModel)| #[trigger]
                        npairs.contains(q) implies exists|i: int|
                        0 <= i < nrows.len() && (#[trigger] nrows[i]).key@ == q.0 by {
                        lemma_contains_push(pairs, (key@, value@), q);
                        if pairs.contains(q) {
                            let i = choose|i: int|
                                0 <= i < old_rows.len() && (#[trigger] old_rows[i]).key@ == q.0;
                            assert(nrows[i].key@ == q.0);
                        } else {
                            assert(nrows[lo as int].key@ == q.0);
                        }
                    }
                }
                return ;
            },
            KeyOrder::Greater => {
                found_greater = true;
            },
        }
    }
    // No row holds this key yet: start one at the ordered position.
    let mut vs: Vec<StatsValue> = Vec::new();
    vs.push(value.clone());
    let item = StatsItem { key: key.clone(), values: vs };
    let ghost old_rows = old(rows)@;
    let ghost new_item = item;
    rows.insert(lo, item);
    proof {
        let nrows = rows@;
        let npairs = pairs.push((key@, value@));
        lemma_lex_lt_irrefl(key@);
        assert(lo == old_rows.len() || lex_lt(key@, old_rows[lo as int].key@));
        // The new key precedes every row from the scan position on.
        assert forall|m: int| lo <= m < old_rows.len() implies lex_lt(
            key@,
            (#[trigger] old_rows[m]).key@,
        ) by {
            if m > lo {
                assert(lex_lt(old_rows[lo as int].key@, old_rows[m].key@));
                lemma_lex_lt_trans(key@, old_rows[lo as int].key@, old_rows[m].key@);
            }
        }
        // No other row carries this key.
        assert forall|i: int| 0 <= i < old_rows.len() implies (#[trigger] old_rows[i]).key@
            != key@ by {
            if i < lo {
                assert(lex_lt(old_rows[i].key@, key@));
            } else {
                assert(lex_lt(key@, old_rows[i].key@));
            }
        }
        assert(nrows.len() == old_rows.len() + 1);
        assert(nrows[lo as int] == new_item);
        assert(forall|i: int| 0 <= i < lo ==> nrows[i] == old_rows[i]);
        assert(forall|i: int| lo < i < nrows.len() ==> nrows[i] == old_rows[i - 1]);
        assert(sorted_rows(nrows)) by {
            assert forall|i: int, j: int| 0 <= i < j < nrows.len() implies lex_lt(
                (#[trigger] nrows[i]).key@,
                (#[trigger] nrows[j]).key@,
            ) by {
                if j == lo {
                    assert(lex_lt(old_rows[i].key@, key@));
                } else if i == lo {
                    assert(lex_lt(key@, old_rows[j - 1].key@));
                }
            }
        }
        // The new key had no contributed values before this pair.
        assert forall|v: ValModel| !(#[trigger] key_values(pairs, key@).contains(v)) by {
            if pairs.contains((key@, v)) {
                let i = choose|i: int|
                    0 <= i < old_rows.len() && (#[trigger] old_rows[i]).key@ == key@;
            }
        }
        assert forall|i: int| 0 <= i < nrows.len() implies (#[trigger] nrows[i]).val_set()
            == key_values(npairs, nrows[i].key@) by {
            lemma_key_values_push(pairs, key@, value@, nrows[i].key@);
            if i == lo {
                assert(key_values(npairs, key@) == key_values(pairs, key@).insert(value@));
                assert forall|m: ValModel|
                    new_item.val_set().contains(m) == key_values(npairs, key@).contains(m) by {
                    assert(models_of(new_item.values@)[0] == value@);
                    if models_of(new_item.values@).contains(m) {
                        assert(m == value@);
                    }
                    if m == value@ {
                        assert(models_of(new_item.values@).contains(value@));
                    }
                    assert(!key_values(pairs, key@).contains(m));
                }
                assert(new_item.val_set() =~= key_values(npairs, key@));
            } else {
                let oi = if i < lo {
                    i
                } else {
                    i - 1
                };
                assert(nrows[i] == old_rows[oi]);
                assert(nrows[i].key@ != key@);
            }
        }
        assert forall|q: (Seq<char>, ValModel)| #[trigger] npairs.contains(q) implies exists|i: int|
            0 <= i < nrows.len() && (#[trigger] nrows[i]).key@ == q.0 by {
            lemma_contains_push(pairs, (key@, value@), q);
            if pairs.contains(q) {
                let i = choose|i: int|
                    0 <= i < old_rows.len() && (#[trigger] old_rows[i]).key@ == q.0;
                let ni = if i < lo {
                    i
                } else {
                    i + 1
                };
                assert(nrows[ni].key@ == q.0);
            } else {
                assert(nrows[lo as int].key@ == q.0);
            }
        }
    }
}

proof fn lemma_matched_pairs_push(
    t: TabModel,
    s: Seq<Seq<(Seq<char>, ValModel)>>,
    c: Seq<(Seq<char>, ValModel)>,
)
    ensures
        conn_matches(t, c) ==> matched_pairs(t, s.push(c)) == matched_pairs(t, s) + c,
        !conn_matches(t, c) ==> matched_pairs(t, s.push(c)) == matched_pairs(t, s),
{
    assert(s.push(c).drop_last() =~= s);
    assert(s.push(c).last() == c);
}

/// Builds the aggregated table for one snapshot's connections under `tab`:
/// rows sorted strictly by key, one row per contributed key, each holding
/// that key's distinct values across the matching connections.
pub fn aggregate(conns: &Vec<ConnectionStats>, tab: &Tab) -> (rows: Vec<StatsItem>)
    ensures
        sorted_rows(rows@),
        rows_represent(rows@, matched_pairs(tab@, conns@.map_values(|c: ConnectionStats| c@))),
{
    let ghost model = conns@.map_values(|c: ConnectionStats| c@);
    let mut rows: Vec<StatsItem> = Vec::new();
    let ghost mut pairs: Seq<(Seq<char>, ValModel)> = Seq::empty();
    proof {
        assert(model.take(0) =~= Seq::<Seq<(Seq<char>, ValModel)>>::empty());
        assert(matched_pairs(tab@, model.take(0)) =~= pairs);
    }
    let mut ci: usize = 0;
    while ci < conns.len()
        invariant
            0 <= ci <= conns.len(),
            model == conns@.map_values(|c: ConnectionStats| c@),
            model.len() == conns@.len(),
            sorted_rows(rows@),
            rows_represent(rows@, pairs),
            pairs == matched_pairs(tab@, model.take(ci as int)),
        decreases conns.len() - ci,
    {
        let conn = &conns[ci];
        assert(model[ci as int] == conn@);
        if tab.is_match(&conn.stats) {
            let ghost base = pairs;
            let mut pi: usize = 0;
            while pi < conn.stats.len()
                invariant
                    0 <= pi <= conn.stats.len(),
                    sorted_rows(rows@),
                    rows_represent(rows@, pairs),
                    conn@.len() == conn.stats@.len(),
                    pairs == base + conn@.take(pi as int),
                decreases conn.stats.len() - pi,
            {
                assert(conn@[pi as int] == (conn.stats@[pi as int].0@, conn.stats@[pi as int].1@));
                insert_value(&mut rows, &conn.stats[pi].0, &conn.stats[pi].1, Ghost(pairs));
                proof {
                    pairs = pairs.push(conn@[pi as int]);
                    assert(base + conn@.take(pi as int + 1) =~= (base + conn@.take(pi as int)).push(
                        conn@[pi as int],
                    ));
                }
                pi = pi + 1;
            }
            proof {
                assert(conn@.take(conn@.len() as int) =~= conn@);
                assert(pairs == base + conn@);
            }
        }
        proof {
            lemma_matched_pairs_push(tab@, model.take(ci as int), model[ci as int]);
            assert(model.take(ci as int + 1) =~= model.take(ci as int).push(model[ci as int]));
        }
        ci = ci + 1;
    }
    proof {
        assert(model.take(model.len() as int) =~= model);
    }
    rows
}

/// The contributed pairs are exactly those of some matching connection.
pub proof fn lemma_matched_pairs_contains(
    t: TabModel,
    s: Seq<Seq<(Seq<char>, ValModel)>>,
    p: (Seq<char>, ValModel),
)
    ensures
        matched_pairs(t, s).contains(p) <==> exists|i: int|
            0 <= i < s.len() && conn_matches(t, #[trigger] s[i]) && s[i].contains(p),
    decreases s.len(),
{
    if s.len() == 0 {
    } else {
        let prefix = s.drop_last();
        let c = s.last();
        lemma_matched_pairs_contains(t, prefix, p);
        let rest = matched_pairs(t, prefix);
        if conn_matches(t, c) {
            assert((rest + c).contains(p) <==> (rest.contains(p) || c.contains(p))) by {
                if (rest + c).contains(p) {
                    let i = choose|i: int| 0 <= i < (rest + c).len() && (rest + c)[i] == p;
                    if i < rest.len() {
                        assert(rest[i] == p);
                    } else {
                        assert(c[i - rest.len()] == p);
                    }
                }
                if rest.contains(p) {
                    let i = choose|i: int| 0 <= i < rest.len() && rest[i] == p;
                    assert((rest + c)[i] == p);
                }
                if c.contains(p) {
                    let i = choose|i: int| 0 <= i < c.len() && c[i] == p;
                    assert((rest + c)[i + rest.len()] == p);
                }
            }
        }
        assert(forall|i: int| 0 <= i < prefix.len() ==> #[trigger] prefix[i] == s[i]);
        if matched_pairs(t, s).contains(p) {
            if exists|i: int|
                0 <= i < prefix.len() && conn_matches(t, #[trigger] prefix[i])
                    && prefix[i].contains(p) {
                let i = choose|i: int|
                    0 <= i < prefix.len() && conn_matches(t, #[trigger] prefix[i])
                        && prefix[i].contains(p);
                assert(conn_matches(t, s[i]) && s[i].contains(p));
            } else {
                assert(s[s.len() - 1] == c);
            }
        }
        if exists|i: int| 0 <= i < s.len() && conn_matches(t, #[trigger] s[i]) && s[i].contains(p) {
            let i = choose|i: int|
                0 <= i < s.len() && conn_matches(t, #[trigger] s[i]) && s[i].contains(p);
            if i < prefix.len() {
                assert(conn_matches(t, prefix[i]) && prefix[i].contains(p));
            } else {
                assert(s[i] == c);
            }
        }
    }
}

/// Aggregation is order-independent: permuting the connections within a
/// snapshot leaves every key's set of distinct observed values unchanged.
pub proof fn lemma_aggregate_order_independent(
    t: TabModel,
    a: Seq<Seq<(Seq<char>, ValModel)>>,
    b: Seq<Seq<(Seq<char>, ValModel)>>,
    k: Seq<char>,
)
    requires
        a.to_multiset() == b.to_multiset(),
    ensures
        key_values(matched_pairs(t, a), k) == key_values(matched_pairs(t, b), k),
{
    broadcast use vstd::seq_lib::group_to_multiset_ensures;

    assert forall|v: ValModel|
        key_values(matched_pairs(t, a), k).contains(v) == key_values(
            matched_pairs(t, b),
            k,
        ).contains(v) by {
        lemma_matched_pairs_contains(t, a, (k, v));
        lemma_matched_pairs_contains(t, b, (k, v));
        if matched_pairs(t, a).contains((k, v)) {
            let i = choose|i: int|
                0 <= i < a.len() && conn_matches(t, #[trigger] a[i]) && a[i].contains((k, v));
            assert(a.contains(a[i]));
            assert(a.to_multiset().count(a[i]) > 0);
            assert(b.to_multiset().count(a[i]) > 0);
            assert(b.contains(a[i]));
            let j = choose|j: int| 0 <= j < b.len() && b[j] == a[i];
            assert(conn_matches(t, b[j]) && b[j].contains((k, v)));
        }
        if matched_pairs(t, b).contains((k, v)) {
            let i = choose|i: int|
                0 <= i < b.len() && conn_matches(t, #[trigger] b[i]) && b[i].contains((k, v));
            assert(b.contains(b[i]));
            assert(b.to_multiset().count(b[i]) > 0);
            assert(a.to_multiset().count(b[i]) > 0);
            assert(a.contains(b[i]));
            let j = choose|j: int| 0 <= j < a.len() && a[j] == b[i];
            assert(conn_matches(t, a[j]) && a[j].contains((k, v)));
        }
    }
    assert(key_values(matched_pairs(t, a), k) =~= key_values(matched_pairs(t, b), k));
}


/// Strictly ascending key sequences under `lex_lt`.
pub open spec fn strict_sorted_keys(ks: Seq<Seq<char>>) -> bool {
    forall|i: int, j: int| 0 <= i < j < ks.len() ==> lex_lt(#[trigger] ks[i], #[trigger] ks[j])
}

proof fn lemma_sorted_same_keys(ka: Seq<Seq<char>>, kb: Seq<Seq<char>>)
    requires
        strict_sorted_keys(ka),
        strict_sorted_keys(kb),
        forall|k: Seq<char>| ka.contains(k) <==> kb.contains(k),
    ensures
        ka == kb,
    decreases ka.len(),
{
    if ka.len() == 0 && kb.len() == 0 {
        assert(ka =~= kb);
    } else if ka.len() == 0 {
        assert(kb.contains(kb[0]));
        assert(false);
    } else if kb.len() == 0 {
        assert(ka.contains(ka[0]));
        assert(false);
    } else {
        assert(ka.contains(ka[0]));
        assert(kb.contains(kb[0]));
        let j = choose|j: int| 0 <= j < kb.len() && kb[j] == ka[0];
        let i = choose|i: int| 0 <= i < ka.len() && ka[i] == kb[0];
        lemma_lex_lt_irrefl(ka[0]);
        if j > 0 && i > 0 {
            assert(lex_lt(kb[0], kb[j]));
            assert(lex_lt(ka[0], ka[i]));
            lemma_lex_lt_trans(ka[0], kb[0], ka[0]);
            assert(false);
        }
        assert(ka[0] == kb[0]);
        let ta = ka.drop_first();
        let tb = kb.drop_first();
        assert(forall|m: int| 0 <= m < ta.len() ==> #[trigger] ta[m] == ka[m + 1]);
        assert(forall|m: int| 0 <= m < tb.len() ==> #[trigger] tb[m] == kb[m + 1]);
        assert(strict_sorted_keys(ta));
        assert(strict_sorted_keys(tb));
        assert forall|k: Seq<char>| ta.contains(k) <==> tb.contains(k) by {
            lemma_lex_lt_irrefl(k);
            if ta.contains(k) {
                let m = choose|m: int| 0 <= m < ta.len() && ta[m] == k;
                assert(ka[m + 1] == k);
                assert(lex_lt(ka[0], k));
                assert(ka.contains(k));
                assert(kb.contains(k));
                let n = choose|n: int| 0 <= n < kb.len() && kb[n] == k;
                assert(n > 0);
                assert(tb[n - 1] == k);
                assert(tb.contains(k));
            }
            if tb.contains(k) {
                let m = choose|m: int| 0 <= m < tb.len() && tb[m] == k;
                assert(kb[m + 1] == k);
                assert(lex_lt(kb[0], k));
                assert(kb.contains(k));
                assert(ka.contains(k));
                let n = choose|n: int| 0 <= n < ka.len() && ka[n] == k;
                assert(n > 0);
                assert(ta[n - 1] == k);
                assert(ta.contains(k));
            }
        }
        lemma_sorted_same_keys(ta, tb);
        assert forall|m: int| 0 <= m < ka.len() implies ka[m] == kb[m] by {
            if m > 0 {
                assert(ta[m - 1] == kb[m]);
            }
        }
        assert(ka =~= kb);
    }
}

/// A sorted table is determined by what it represents: two sorted tables
/// whose contributions hold the same values for every key are the same
/// table, key for key and value set for value set.
pub proof fn lemma_rows_determined(
    rows_a: Seq<StatsItem>,
    rows_b: Seq<StatsItem>,
    pa: Seq<(Seq<char>, ValModel)>,
    pb: Seq<(Seq<char>, ValModel)>,
)
    requires
        sorted_rows(rows_a),
        rows_represent(rows_a, pa),
        sorted_rows(rows_b),
        rows_represent(rows_b, pb),
        forall|k: Seq<char>| key_values(pa, k) == key_values(pb, k),
    ensures
        rows_a.len() == rows_b.len(),
        forall|i: int| 0 <= i < rows_a.len() ==> (#[trigger] rows_a[i]).key@ == rows_b[i].key@
            && rows_a[i].val_set() == rows_b[i].val_set(),
{
    let ka = rows_a.map_values(|r: StatsItem| r.key@);
    let kb = rows_b.map_values(|r: StatsItem| r.key@);
    assert(forall|m: int| 0 <= m < ka.len() ==> #[trigger] ka[m] == rows_a[m].key@);
    assert(forall|m: int| 0 <= m < kb.len() ==> #[trigger] kb[m] == rows_b[m].key@);
    assert(strict_sorted_keys(ka));
    assert(strict_sorted_keys(kb));
    assert forall|k: Seq<char>| ka.contains(k) <==> kb.contains(k) by {
        if ka.contains(k) {
            let i = choose|i: int| 0 <= i < ka.len() && ka[i] == k;
            assert(rows_a[i].key@ == k);
            assert(rows_a[i].values@.len() > 0);
            let v = models_of(rows_a[i].values@)[0];
            assert(models_of(rows_a[i].values@).contains(v));
            assert(rows_a[i].val_set().contains(v));
            assert(key_values(pa, k).contains(v));
            assert(key_values(pb, k).contains(v));
            assert(pb.contains((k, v)));
            let j = choose|j: int| 0 <= j < rows_b.len() && (#[trigger] rows_b[j]).key@ == k;
            assert(kb[j] == k);
            assert(kb.contains(k));
        }
        if kb.contains(k) {
            let i = choose|i: int| 0 <= i < kb.len() && kb[i] == k;
            assert(rows_b[i].key@ == k);
            assert(rows_b[i].values@.len() > 0);
            let v = models_of(rows_b[i].values@)[0];
            assert(models_of(rows_b[i].values@).contains(v));
            assert(rows_b[i].val_set().contains(v));
            assert(key_values(pb, k).contains(v));
            assert(key_values(pa, k).contains(v));
            assert(pa.contains((k, v)));
            let j = choose|j: int| 0 <= j < rows_a.len() && (#[trigger] rows_a[j]).key@ == k;
            assert(ka[j] == k);
            assert(ka.contains(k));
        }
    }
    lemma_sorted_same_keys(ka, kb);
    assert(rows_a.len() == rows_b.len());
    assert forall|i: int| 0 <= i < rows_a.len() implies (#[trigger] rows_a[i]).key@
        == rows_b[i].key@ && rows_a[i].val_set() == rows_b[i].val_set() by {
        assert(ka[i] == kb[i]);
        assert(rows_a[i].val_set() == key_values(pa, rows_a[i].key@));
        assert(rows_b[i].val_set() == key_values(pb, rows_b[i].key@));
    }
}

/// Permuting the connections within a snapshot does not change the
/// aggregated table: any two sorted tables built from permutations of the
/// same connections carry the same keys, in the same order, each with the
/// same set of distinct observed values.
pub proof fn lemma_aggregate_permutation(
    t: TabModel,
    conns_a: Seq<Seq<(Seq<char>, ValModel)>>,
    conns_b: Seq<Seq<(Seq<char>, ValModel)>>,
    rows_a: Seq<StatsItem>,
    rows_b: Seq<StatsItem>,
)
    requires
        conns_a.to_multiset() == conns_b.to_multiset(),
        sorted_rows(rows_a),
        rows_represent(rows_a, matched_pairs(t, conns_a)),
        sorted_rows(rows_b),
        rows_represent(rows_b, matched_pairs(t, conns_b)),
    ensures
        rows_a.len() == rows_b.len(),
        forall|i: int| 0 <= i < rows_a.len() ==> (#[trigger] rows_a[i]).key@ == rows_b[i].key@
            && rows_a[i].val_set() == rows_b[i].val_set(),
{
    assert forall|k: Seq<char>|
        key_values(matched_pairs(t, conns_a), k) == key_values(matched_pairs(t, conns_b), k) by {
        lemma_aggregate_order_independent(t, conns_a, conns_b, k);
    }
    lemma_rows_determined(
        rows_a,
        rows_b,
        matched_pairs(t, conns_a),
        matched_pairs(t, conns_b),
    );
}

} // verus!
