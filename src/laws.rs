use vstd::prelude::*;
use crate::combinator::{source_choices, tuples_of, column_choices, lemma_product_len};
use crate::doc::{TxState, index_step, maintained, extracted};
use crate::err::ErrorModel;
use crate::index::{
    DefineIndexStatement, Options, PutOutcome, btree_error, btree_outcome, deleted, delete_log,
    entry_key, index_tuples, new_keys, old_keys, put_outcome,
};
use crate::render::render_tuple;
use crate::value::{ValueModel, all_none_or_null};

verus! {

/// Maintenance with `force` off changes nothing, and issues no write, when
/// every index reads the same values before and after the mutation.
pub proof fn lemma_unchanged_is_noop(
    st: TxState,
    analyzers: Set<(Seq<char>, Seq<char>, Seq<char>)>,
    opt: Options,
    ixs: Seq<DefineIndexStatement>,
    rid: (Seq<char>, u64),
    initial: Option<Seq<(Seq<char>, ValueModel)>>,
    current: Option<Seq<(Seq<char>, ValueModel)>>,
    k: nat,
)
    requires
        !opt.force,
        k <= ixs.len(),
        forall|i: int| 0 <= i < ixs.len() ==> extracted((#[trigger] ixs[i]).cols@, initial) == extracted(ixs[i].cols@, current),
    ensures
        maintained(st, analyzers, opt, ixs, rid, initial, current, k) == (st, None::<ErrorModel>),
    decreases k,
{
    if k > 0 {
        lemma_unchanged_is_noop(st, analyzers, opt, ixs, rid, initial, current, (k - 1) as nat);
        assert(extracted(ixs[k - 1].cols@, initial) == extracted(ixs[k - 1].cols@, current));
    }
}

/// The tuples that the insert phase writes: all of them, but for a unique
/// index those that are all `NONE` or `NULL`.
pub open spec fn stored_tuples(ts: Seq<Seq<ValueModel>>, unique: bool) -> Seq<Seq<ValueModel>> {
    ts.filter(|t: Seq<ValueModel>| !(unique && all_none_or_null(t)))
}

proof fn lemma_put_log_len(
    m: Map<Seq<u8>, (Seq<char>, u64)>,
    opt: Options,
    ix: DefineIndexStatement,
    rid: (Seq<char>, u64),
    unique: bool,
    ts: Seq<Seq<ValueModel>>,
)
    requires
        put_outcome(m, ts.map_values(|t: Seq<ValueModel>|
            if unique && all_none_or_null(t) { None } else { Some(entry_key(opt, ix, rid.1, unique, t)) }), rid).conflict is None,
    ensures
        put_outcome(m, ts.map_values(|t: Seq<ValueModel>|
            if unique && all_none_or_null(t) { None } else { Some(entry_key(opt, ix, rid.1, unique, t)) }), rid).log.len()
            == stored_tuples(ts, unique).len(),
    decreases ts.len(),
{
    reveal(Seq::filter);
    let f = |t: Seq<ValueModel>|
        if unique && all_none_or_null(t) { None } else { Some(entry_key(opt, ix, rid.1, unique, t)) };
    if ts.len() > 0 {
        assert(ts.map_values(f).drop_last() =~= ts.drop_last().map_values(f));
        lemma_put_log_len(m, opt, ix, rid, unique, ts.drop_last());
    }
}

/// A forced rewrite of a B-tree index that succeeds issues one delete per
/// old tuple and one put per stored new tuple.
pub proof fn lemma_forced_write_count(
    st: TxState,
    analyzers: Set<(Seq<char>, Seq<char>, Seq<char>)>,
    opt: Options,
    ix: DefineIndexStatement,
    rid: (Seq<char>, u64),
    o: Option<Seq<ValueModel>>,
    n: Option<Seq<ValueModel>>,
)
    requires
        opt.force,
        ix.index is Uniq || ix.index is Idx,
        index_step(st, analyzers, opt, ix, rid, o, n).1 is None,
    ensures
        index_step(st, analyzers, opt, ix, rid, o, n).0.journal.len() == st.journal.len()
            + index_tuples(o, ix).len() + stored_tuples(index_tuples(n, ix), ix.index is Uniq).len(),
{
    let unique = ix.index is Uniq;
    let dks = old_keys(opt, ix, rid.1, unique, o);
    lemma_put_log_len(deleted(st.entries, dks, rid), opt, ix, rid, unique, index_tuples(n, ix));
    assert(new_keys(opt, ix, rid.1, unique, n) == index_tuples(n, ix).map_values(|t: Seq<ValueModel>|
        if unique && all_none_or_null(t) { None } else { Some(entry_key(opt, ix, rid.1, unique, t)) }));
}

/// How many tuple positions a column contributes: the length of a spread
/// array (at least one), otherwise one.
pub open spec fn cardinality(v: ValueModel, flatten: bool) -> nat {
    match v {
        ValueModel::Array(a) if !flatten => if a.len() == 0 { 1 } else { a.len() },
        _ => 1,
    }
}

/// The product of the columns' cardinalities.
pub open spec fn cardinality_product(source: Seq<(ValueModel, bool)>) -> nat
    decreases source.len(),
{
    if source.len() == 0 {
        1
    } else {
        cardinality(source[0].0, source[0].1) * cardinality_product(source.drop_first())
    }
}

/// The number of tuples is the product of the columns' cardinalities.
pub proof fn lemma_tuple_count(source: Seq<(ValueModel, bool)>)
    ensures
        tuples_of(source).len() == cardinality_product(source),
    decreases source.len(),
{
    lemma_product_len(source_choices(source));
    if source.len() > 0 {
        lemma_tuple_count(source.drop_first());
        assert(source_choices(source).drop_first() =~= source_choices(source.drop_first()));
        lemma_product_len(source_choices(source.drop_first()));
        assert(column_choices(source[0].0, source[0].1).len() == cardinality(source[0].0, source[0].1));
    }
}

proof fn lemma_no_puts(m: Map<Seq<u8>, (Seq<char>, u64)>, ks: Seq<Option<Seq<u8>>>, owner: (Seq<char>, u64))
    requires
        forall|j: int| 0 <= j < ks.len() ==> (#[trigger] ks[j]) is None,
    ensures
        put_outcome(m, ks, owner) == (PutOutcome { entries: m, conflict: None, log: Seq::empty() }),
    decreases ks.len(),
{
    if ks.len() > 0 {
        lemma_no_puts(m, ks.drop_last(), owner);
        assert(ks[ks.len() - 1] is None);
    }
}

/// On a unique index, new tuples that are all `NONE` or `NULL` are never
/// put, while the old tuples are still deleted.
pub proof fn lemma_all_null_suppressed(
    m: Map<Seq<u8>, (Seq<char>, u64)>,
    opt: Options,
    ix: DefineIndexStatement,
    rid: (Seq<char>, u64),
    o: Option<Seq<ValueModel>>,
    n: Option<Seq<ValueModel>>,
)
    requires
        forall|j: int| 0 <= j < index_tuples(n, ix).len() ==> all_none_or_null(#[trigger] index_tuples(n, ix)[j]),
    ensures
        ({
            let dks = old_keys(opt, ix, rid.1, true, o);
            let out = btree_outcome(m, opt, ix, rid, true, o, n);
            &&& out.entries == deleted(m, dks, rid)
            &&& out.log == delete_log(dks)
            &&& btree_error(m, opt, ix, rid, true, o, n) is None
        }),
{
    let ks = new_keys(opt, ix, rid.1, true, n);
    let dks = old_keys(opt, ix, rid.1, true, o);
    assert forall|j: int| 0 <= j < ks.len() implies (#[trigger] ks[j]) is None by {
        assert(all_none_or_null(index_tuples(n, ix)[j]));
    }
    lemma_no_puts(deleted(m, dks, rid), ks, rid);
    assert(delete_log(dks) + Seq::<(bool, Seq<u8>)>::empty() =~= delete_log(dks));
}

/// Deleting only touches keys held by the deleting record.
pub proof fn lemma_deleted_keeps_others(
    m: Map<Seq<u8>, (Seq<char>, u64)>,
    ks: Seq<Seq<u8>>,
    owner: (Seq<char>, u64),
    k: Seq<u8>,
)
    requires
        m.contains_key(k),
        m[k] != owner,
    ensures
        deleted(m, ks, owner).contains_key(k),
        deleted(m, ks, owner)[k] == m[k],
    decreases ks.len(),
{
    if ks.len() > 0 {
        lemma_deleted_keeps_others(m, ks.drop_last(), owner, k);
    }
}

proof fn lemma_deleted_removes_own(
    m: Map<Seq<u8>, (Seq<char>, u64)>,
    ks: Seq<Seq<u8>>,
    owner: (Seq<char>, u64),
    k: Seq<u8>,
)
    requires
        ks.len() == 1,
        ks[0] == k,
        m.contains_key(k),
        m[k] == owner,
    ensures
        deleted(m, ks, owner) == m.remove(k),
{
    assert(ks.drop_last() =~= Seq::<Seq<u8>>::empty());
    assert(deleted(m, ks.drop_last(), owner) == m);
    assert(ks.last() == k);
}

/// Moving a record's single tuple `ta` to `tb` on a unique index succeeds
/// when no other record holds `tb`: afterwards the record holds `tb`, and
/// `ta` (if different) is gone.
pub proof fn lemma_delete_before_insert(
    m: Map<Seq<u8>, (Seq<char>, u64)>,
    opt: Options,
    ix: DefineIndexStatement,
    rid: (Seq<char>, u64),
    o: Option<Seq<ValueModel>>,
    n: Option<Seq<ValueModel>>,
    ta: Seq<ValueModel>,
    tb: Seq<ValueModel>,
)
    requires
        index_tuples(o, ix) == seq![ta],
        index_tuples(n, ix) == seq![tb],
        !all_none_or_null(tb),
        m.contains_key(entry_key(opt, ix, rid.1, true, ta)),
        m[entry_key(opt, ix, rid.1, true, ta)] == rid,
        m.contains_key(entry_key(opt, ix, rid.1, true, tb)) ==> entry_key(opt, ix, rid.1, true, tb)
            == entry_key(opt, ix, rid.1, true, ta),
    ensures
        ({
            let ka = entry_key(opt, ix, rid.1, true, ta);
            let kb = entry_key(opt, ix, rid.1, true, tb);
            let out = btree_outcome(m, opt, ix, rid, true, o, n);
            &&& btree_error(m, opt, ix, rid, true, o, n) is None
            &&& out.entries.contains_key(kb) && out.entries[kb] == rid
            &&& ka != kb ==> !out.entries.contains_key(ka)
        }),
{
    let ka = entry_key(opt, ix, rid.1, true, ta);
    let kb = entry_key(opt, ix, rid.1, true, tb);
    let dks = old_keys(opt, ix, rid.1, true, o);
    let ks = new_keys(opt, ix, rid.1, true, n);
    assert(dks =~= seq![ka]);
    assert(ks =~= seq![Some(kb)]);
    lemma_deleted_removes_own(m, dks, rid, ka);
    let m1 = m.remove(ka);
    assert(ks.drop_last() =~= Seq::<Option<Seq<u8>>>::empty());
    assert(put_outcome(m1, ks.drop_last(), rid) == (PutOutcome { entries: m1, conflict: None, log: Seq::empty() }));
    assert(ks.last() == Some(kb));
    assert(!m1.contains_key(kb));
}

/// Two distinct records inserting the same tuple on a unique index: the
/// first succeeds where the tuple was free, and the second then fails with
/// a duplicate-key error that names the first.
pub proof fn lemma_uniqueness_enforced(
    m: Map<Seq<u8>, (Seq<char>, u64)>,
    opt: Options,
    ix: DefineIndexStatement,
    r1: (Seq<char>, u64),
    r2: (Seq<char>, u64),
    n: Option<Seq<ValueModel>>,
    t: Seq<ValueModel>,
)
    requires
        r1 != r2,
        index_tuples(n, ix) == seq![t],
        !all_none_or_null(t),
        !m.contains_key(entry_key(opt, ix, r1.1, true, t)),
    ensures
        btree_error(m, opt, ix, r1, true, None, n) is None,
        btree_error(btree_outcome(m, opt, ix, r1, true, None, n).entries, opt, ix, r2, true, None, n)
            == Some(ErrorModel::IndexExists { thing: r1, index: ix.name@, value: render_tuple(t) }),
{
    let k = entry_key(opt, ix, r1.1, true, t);
    assert(entry_key(opt, ix, r2.1, true, t) == k);
    let ks1 = new_keys(opt, ix, r1.1, true, n);
    let ks2 = new_keys(opt, ix, r2.1, true, n);
    assert(ks1 =~= seq![Some(k)]);
    assert(ks2 =~= seq![Some(k)]);
    assert(old_keys(opt, ix, r1.1, true, None) =~= Seq::<Seq<u8>>::empty());
    assert(ks1.drop_last() =~= Seq::<Option<Seq<u8>>>::empty());
    assert(deleted(m, Seq::<Seq<u8>>::empty(), r1) == m);
    assert(put_outcome(m, ks1.drop_last(), r1) == (PutOutcome { entries: m, conflict: None, log: Seq::empty() }));
    assert(ks1.last() == Some(k));
    let m1 = btree_outcome(m, opt, ix, r1, true, None, n).entries;
    assert(m1 == m.insert(k, r1));
    assert(old_keys(opt, ix, r2.1, true, None) =~= Seq::<Seq<u8>>::empty());
    assert(deleted(m1, Seq::<Seq<u8>>::empty(), r2) == m1);
    assert(ks2.drop_last() =~= Seq::<Option<Seq<u8>>>::empty());
    assert(put_outcome(m1, ks2.drop_last(), r2) == (PutOutcome { entries: m1, conflict: None, log: Seq::empty() }));
    assert(ks2.last() == Some(k));
    assert(index_tuples(n, ix)[0] == t);
}

} // verus!
