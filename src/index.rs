use vstd::prelude::*;
use crate::combinator::{Combinator, tuples_of, source_model};
use crate::err::{Error, ErrorModel};
use crate::key::{build_index_key, index_key};
use crate::kvs::Transaction;
use crate::render::{render_tuple, tuple_to_string};
use crate::value::{Thing, Value, ValueModel, values_model, all_none_or_null, is_all_none_or_null, copy_values};

verus! {

/// The options of the statement being run.
pub struct Options {
    pub ns: String,
    pub db: String,
    /// Whether indexes are maintained at all.
    pub indexes: bool,
    /// Whether index entries are rewritten even when nothing changed.
    pub force: bool,
}

/// One column of an index: the field it reads, and whether the field is
/// flattened.
pub struct Column {
    pub field: String,
    pub flatten: bool,
}

/// The parameters of a full-text index.
pub struct SearchParams {
    /// The name of the analyzer.
    pub az: String,
}

/// The parameters of a vector index.
pub struct MTreeParams {
    pub dimension: u64,
}

/// The kind of an index.
pub enum Index {
    Uniq,
    Idx,
    Search(SearchParams),
    MTree(MTreeParams),
}

/// An index definition: its name, its table, its columns and its kind.
pub struct DefineIndexStatement {
    pub name: String,
    pub what: String,
    pub cols: Vec<Column>,
    pub index: Index,
}

/// The flatten flags of the columns.
pub open spec fn flags(cols: Seq<Column>) -> Seq<bool> {
    cols.map_values(|c: Column| c.flatten)
}

/// Extracted values paired with the flatten flags of their columns.
pub open spec fn indexable(vals: Seq<ValueModel>, flags: Seq<bool>) -> Seq<(ValueModel, bool)> {
    let n = if vals.len() <= flags.len() { vals.len() } else { flags.len() };
    Seq::new(n, |i: int| (vals[i], flags[i]))
}

/// The tuples of an optional list of extracted values (none when absent).
pub open spec fn index_tuples(vals: Option<Seq<ValueModel>>, ix: DefineIndexStatement) -> Seq<Seq<ValueModel>> {
    match vals {
        Some(v) => tuples_of(indexable(v, flags(ix.cols@))),
        None => Seq::empty(),
    }
}

/// The number of tuples of each list can be counted in a `usize`.
pub open spec fn tuples_fit(vals: Option<Seq<ValueModel>>, ix: DefineIndexStatement) -> bool {
    index_tuples(vals, ix).len() <= usize::MAX
}

/// The key of a tuple: without the record id for a unique index, with it
/// otherwise.
pub open spec fn entry_key(opt: Options, ix: DefineIndexStatement, rid: u64, unique: bool, t: Seq<ValueModel>) -> Seq<u8> {
    index_key(opt.ns@, opt.db@, ix.what@, ix.name@, t, if unique { None } else { Some(rid) })
}

/// The keys that the delete phase visits.
pub open spec fn old_keys(opt: Options, ix: DefineIndexStatement, rid: u64, unique: bool, o: Option<Seq<ValueModel>>) -> Seq<Seq<u8>> {
    index_tuples(o, ix).map_values(|t: Seq<ValueModel>| entry_key(opt, ix, rid, unique, t))
}

/// The keys that the insert phase puts: `None` for a tuple that a unique
/// index skips because it is all `NONE` or `NULL`.
pub open spec fn new_keys(opt: Options, ix: DefineIndexStatement, rid: u64, unique: bool, n: Option<Seq<ValueModel>>) -> Seq<Option<Seq<u8>>> {
    index_tuples(n, ix).map_values(|t: Seq<ValueModel>|
        if unique && all_none_or_null(t) { None } else { Some(entry_key(opt, ix, rid, unique, t)) })
}

/// The entries after conditionally deleting each key held by `owner`, in turn.
pub open spec fn deleted(m: Map<Seq<u8>, (Seq<char>, u64)>, ks: Seq<Seq<u8>>, owner: (Seq<char>, u64)) -> Map<Seq<u8>, (Seq<char>, u64)>
    decreases ks.len(),
{
    if ks.len() == 0 {
        m
    } else {
        let p = deleted(m, ks.drop_last(), owner);
        let k = ks.last();
        if p.contains_key(k) && p[k] == owner { p.remove(k) } else { p }
    }
}

/// The journal entries of the delete phase.
pub open spec fn delete_log(ks: Seq<Seq<u8>>) -> Seq<(bool, Seq<u8>)> {
    ks.map_values(|k: Seq<u8>| (false, k))
}

/// What the insert phase leaves: the entries, the position of the first
/// key found taken (where it stopped), and its journal entries.
pub struct PutOutcome {
    pub entries: Map<Seq<u8>, (Seq<char>, u64)>,
    pub conflict: Option<int>,
    pub log: Seq<(bool, Seq<u8>)>,
}

/// Conditionally puts each key in turn for `owner`, stopping at the first
/// key that is already taken.
pub open spec fn put_outcome(m: Map<Seq<u8>, (Seq<char>, u64)>, ks: Seq<Option<Seq<u8>>>, owner: (Seq<char>, u64)) -> PutOutcome
    decreases ks.len(),
{
    if ks.len() == 0 {
        PutOutcome { entries: m, conflict: None, log: Seq::empty() }
    } else {
        let p = put_outcome(m, ks.drop_last(), owner);
        if p.conflict is Some {
            p
        } else {
            match ks.last() {
                None => p,
                Some(k) => if p.entries.contains_key(k) {
                    PutOutcome { entries: p.entries, conflict: Some(ks.len() - 1), log: p.log.push((true, k)) }
                } else {
                    PutOutcome { entries: p.entries.insert(k, owner), conflict: None, log: p.log.push((true, k)) }
                },
            }
        }
    }
}

proof fn lemma_put_outcome_stops(m: Map<Seq<u8>, (Seq<char>, u64)>, ks: Seq<Option<Seq<u8>>>, owner: (Seq<char>, u64), a: int, b: int)
    requires
        0 <= a <= b <= ks.len(),
        put_outcome(m, ks.take(a), owner).conflict is Some,
    ensures
        put_outcome(m, ks.take(b), owner) == put_outcome(m, ks.take(a), owner),
    decreases b - a,
{
    if b > a {
        lemma_put_outcome_stops(m, ks, owner, a, b - 1);
        assert(ks.take(b).drop_last() =~= ks.take(b - 1));
    }
}

/// The error that a conflict at position `j` of the insert phase reports.
pub open spec fn conflict_error(out: PutOutcome, ks: Seq<Option<Seq<u8>>>, ts: Seq<Seq<ValueModel>>, ix: DefineIndexStatement, j: int) -> ErrorModel {
    ErrorModel::IndexExists {
        thing: out.entries[ks[j]->Some_0],
        index: ix.name@,
        value: render_tuple(ts[j]),
    }
}

/// The outcome of a B-tree writer: the delete phase, then the insert phase;
/// the journal entries of both phases in `log`.
pub open spec fn btree_outcome(
    m: Map<Seq<u8>, (Seq<char>, u64)>,
    opt: Options,
    ix: DefineIndexStatement,
    rid: (Seq<char>, u64),
    unique: bool,
    o: Option<Seq<ValueModel>>,
    n: Option<Seq<ValueModel>>,
) -> PutOutcome {
    let dks = old_keys(opt, ix, rid.1, unique, o);
    let out = put_outcome(deleted(m, dks, rid), new_keys(opt, ix, rid.1, unique, n), rid);
    PutOutcome { entries: out.entries, conflict: out.conflict, log: delete_log(dks) + out.log }
}

/// The error of a B-tree writer, if any.
pub open spec fn btree_error(
    m: Map<Seq<u8>, (Seq<char>, u64)>,
    opt: Options,
    ix: DefineIndexStatement,
    rid: (Seq<char>, u64),
    unique: bool,
    o: Option<Seq<ValueModel>>,
    n: Option<Seq<ValueModel>>,
) -> Option<ErrorModel> {
    let out = btree_outcome(m, opt, ix, rid, unique, o, n);
    match out.conflict {
        None => None,
        Some(j) => Some(conflict_error(out, new_keys(opt, ix, rid.1, unique, n), index_tuples(n, ix), ix, j)),
    }
}

/// The key of a record's full-text document in an index.
pub open spec fn document_key(opt: Options, ix: DefineIndexStatement, rid: u64) -> Seq<u8> {
    index_key(opt.ns@, opt.db@, ix.what@, ix.name@, Seq::empty(), Some(rid))
}

/// The value list of an index operation.
struct Indexable(Vec<(Value, bool)>);

impl Indexable {
    fn new(vals: Vec<Value>, ix: &DefineIndexStatement) -> (r: Self)
        ensures
            source_model(r.0@) == indexable(values_model(vals@), flags(ix.cols@)),
    {
        let n = if vals.len() <= ix.cols.len() { vals.len() } else { ix.cols.len() };
        let mut source: Vec<(Value, bool)> = Vec::with_capacity(n);
        let mut i: usize = 0;
        while i < n
            invariant
                n <= vals@.len(),
                n <= ix.cols@.len(),
                n == if vals@.len() <= ix.cols@.len() { vals@.len() } else { ix.cols@.len() },
                i <= n,
                source@.len() == i,
                forall|j: int| 0 <= j < i ==> (#[trigger] source@[j]).0@ == vals@[j]@ && source@[j].1 == ix.cols@[j].flatten,
            decreases n - i,
        {
            source.push((vals[i].copied(), ix.cols[i].flatten));
            i = i + 1;
        }
        assert(source_model(source@) =~= indexable(values_model(vals@), flags(ix.cols@)));
        Indexable(source)
    }

    fn into_iter(self) -> (r: Combinator)
        requires
            tuples_of(source_model(self.0@)).len() <= usize::MAX,
        ensures
            r.wf(),
            r.tuples() == tuples_of(source_model(self.0@)),
            r.position() == 0,
    {
        Combinator::new(self.0)
    }
}

/// One index definition's maintenance for one record: the old and the new
/// extracted values, consumed by the writer.
pub struct IndexOperation<'a> {
    opt: &'a Options,
    ix: &'a DefineIndexStatement,
    /// The old values (if existing)
    o: Option<Vec<Value>>,
    /// The new values (if existing)
    n: Option<Vec<Value>>,
    rid: &'a Thing,
}

impl<'a> IndexOperation<'a> {
    /// The statement options.
    pub closed spec fn options(&self) -> Options {
        *self.opt
    }

    /// The index definition being maintained.
    pub closed spec fn definition(&self) -> DefineIndexStatement {
        *self.ix
    }

    /// The record being indexed.
    pub closed spec fn record(&self) -> Thing {
        *self.rid
    }

    /// The old extracted values, until the delete phase consumes them.
    pub closed spec fn old_values(&self) -> Option<Seq<ValueModel>> {
        match self.o {
            Some(v) => Some(values_model(v@)),
            None => None,
        }
    }

    /// The new extracted values, until the insert phase consumes them.
    pub closed spec fn new_values(&self) -> Option<Seq<ValueModel>> {
        match self.n {
            Some(v) => Some(values_model(v@)),
            None => None,
        }
    }

    /// Gathers what one index operation needs.
    pub fn new(
        opt: &'a Options,
        ix: &'a DefineIndexStatement,
        o: Option<Vec<Value>>,
        n: Option<Vec<Value>>,
        rid: &'a Thing,
    ) -> (r: Self)
        ensures
            r.options() == *opt,
            r.definition() == *ix,
            r.record() == *rid,
            r.old_values() == match o { Some(v) => Some(values_model(v@)), None => None::<Seq<ValueModel>> },
            r.new_values() == match n { Some(v) => Some(values_model(v@)), None => None::<Seq<ValueModel>> },
    {
        IndexOperation { opt, ix, o, n, rid }
    }

    /// The key of a tuple in a unique index: no record id.
    pub fn get_unique_index_key(&self, v: &Vec<Value>) -> (r: Vec<u8>)
        ensures
            r@ == entry_key(self.options(), self.definition(), self.record().id, true, values_model(v@)),
    {
        build_index_key(&self.opt.ns, &self.opt.db, &self.ix.what, &self.ix.name, v, None)
    }

    /// The key of a tuple in a non-unique index: the record id last.
    pub fn get_non_unique_index_key(&self, v: &Vec<Value>) -> (r: Vec<u8>)
        ensures
            r@ == entry_key(self.options(), self.definition(), self.record().id, false, values_model(v@)),
    {
        build_index_key(&self.opt.ns, &self.opt.db, &self.ix.what, &self.ix.name, v, Some(self.rid.id))
    }

    fn get_index_key(&self, v: &Vec<Value>, unique: bool) -> (r: Vec<u8>)
        ensures
            r@ == entry_key(self.options(), self.definition(), self.record().id, unique, values_model(v@)),
    {
        if unique {
            self.get_unique_index_key(v)
        } else {
            self.get_non_unique_index_key(v)
        }
    }

    /// The duplicate-key error for tuple `n`, owned by `rid`.
    pub fn err_index_exists(&self, rid: Thing, n: Vec<Value>) -> (r: Result<(), Error>)
        ensures
            r matches Err(e) && e@ == (ErrorModel::IndexExists {
                thing: rid@,
                index: self.definition().name@,
                value: render_tuple(values_model(n@)),
            }),
    {
        Err(Error::IndexExists { thing: rid, index: self.ix.name.clone(), value: tuple_to_string(&n) })
    }

    /// The delete phase: each old tuple's key is deleted if this record
    /// still holds it.
    fn delete_old(&mut self, run: &mut Transaction, unique: bool)
        requires
            old(run).wf(),
            tuples_fit(old(self).old_values(), old(self).definition()),
        ensures
            final(run).wf(),
            final(self).options() == old(self).options(),
            final(self).definition() == old(self).definition(),
            final(self).record() == old(self).record(),
            final(self).new_values() == old(self).new_values(),
            final(self).old_values() is None,
            ({
                let ks = old_keys(old(self).options(), old(self).definition(), old(self).record().id, unique, old(self).old_values());
                &&& final(run).entries() == deleted(old(run).entries(), ks, old(self).record()@)
                &&& final(run).journal() == old(run).journal() + delete_log(ks)
            }),
            final(run).documents() == old(run).documents(),
            final(run).analyzers() == old(run).analyzers(),
    {
        let ghost ks = old_keys(self.options(), self.definition(), self.record().id, unique, self.old_values());
        let ghost ov = self.old_values();
        if let Some(o) = self.o.take() {
            let i = Indexable::new(o, self.ix);
            let mut it = i.into_iter();
            let ghost m0 = run.entries();
            let ghost j0 = run.journal();
            loop
                invariant
                    run.wf(),
                    it.wf(),
                    ov is Some,
                    it.tuples() == index_tuples(ov, *self.ix),
                    ks == old_keys(*self.opt, *self.ix, self.rid.id, unique, ov),
                    it.position() <= ks.len(),
                    run.entries() == deleted(m0, ks.take(it.position() as int), self.rid@),
                    run.journal() == j0 + delete_log(ks.take(it.position() as int)),
                    run.documents() == old(run).documents(),
                    run.analyzers() == old(run).analyzers(),
                ensures
                    run.wf(),
                    run.entries() == deleted(m0, ks, self.rid@),
                    run.journal() == j0 + delete_log(ks),
                    run.documents() == old(run).documents(),
                    run.analyzers() == old(run).analyzers(),
                decreases ks.len() - it.position(),
            {
                let ghost p = it.position() as int;
                match it.next() {
                    None => {
                        proof {
                            assert(ks.take(p) =~= ks);
                        }
                        break;
                    },
                    Some(t) => {
                        let key = self.get_index_key(&t, unique);
                        proof {
                            assert(ks.take(p + 1).drop_last() =~= ks.take(p));
                            assert(ks[p] == key@);
                            assert(delete_log(ks.take(p + 1)) =~= delete_log(ks.take(p)).push((false, key@)));
                        }
                        // A failed condition means the entry no longer belongs
                        // to this record: another write legitimately replaced
                        // it, so there is nothing to undo.
                        let _ = run.delc(key, Some(self.rid));
                        proof {
                            assert(run.journal() =~= j0 + delete_log(ks.take(p + 1)));
                        }
                    },
                }
            }
            proof {
                assert(m0 == old(run).entries());
            }
        } else {
            proof {
                assert(ks =~= Seq::<Seq<u8>>::empty());
                assert(old(run).journal() + delete_log(ks) =~= old(run).journal());
            }
        }
    }

    /// The insert phase: each new tuple's key is put for this record, unless
    /// a unique index skips it as all `NONE` or `NULL`; the first key found
    /// taken ends the phase with a duplicate-key error naming its owner.
    fn insert_new(&mut self, run: &mut Transaction, unique: bool) -> (r: Result<(), Error>)
        requires
            old(run).wf(),
            tuples_fit(old(self).new_values(), old(self).definition()),
        ensures
            final(run).wf(),
            final(self).options() == old(self).options(),
            final(self).definition() == old(self).definition(),
            final(self).record() == old(self).record(),
            final(self).old_values() == old(self).old_values(),
            final(self).new_values() is None,
            final(run).documents() == old(run).documents(),
            final(run).analyzers() == old(run).analyzers(),
            ({
                let ks = new_keys(old(self).options(), old(self).definition(), old(self).record().id, unique, old(self).new_values());
                let ts = index_tuples(old(self).new_values(), old(self).definition());
                let out = put_outcome(old(run).entries(), ks, old(self).record()@);
                &&& final(run).entries() == out.entries
                &&& final(run).journal() == old(run).journal() + out.log
            }),
            ({
                let ks = new_keys(old(self).options(), old(self).definition(), old(self).record().id, unique, old(self).new_values());
                let ts = index_tuples(old(self).new_values(), old(self).definition());
                let out = put_outcome(old(run).entries(), ks, old(self).record()@);
                match out.conflict {
                    None => r is Ok,
                    Some(j) => r matches Err(e) && e@ == conflict_error(out, ks, ts, old(self).definition(), j),
                }
            }),
    {
        let ghost ks = new_keys(self.options(), self.definition(), self.record().id, unique, self.new_values());
        let ghost ts = index_tuples(self.new_values(), self.definition());
        let ghost nv = self.new_values();
        let ghost m0 = run.entries();
        let ghost j0 = run.journal();
        if let Some(n) = self.n.take() {
            let i = Indexable::new(n, self.ix);
            let mut it = i.into_iter();
            loop
                invariant
                    run.wf(),
                    it.wf(),
                    nv is Some,
                    nv == old(self).new_values(),
                    *self.opt == old(self).options(),
                    *self.ix == old(self).definition(),
                    *self.rid == old(self).record(),
                    self.o == old(self).o,
                    self.n is None,
                    it.tuples() == ts,
                    ts == index_tuples(nv, *self.ix),
                    ks == new_keys(*self.opt, *self.ix, self.rid.id, unique, nv),
                    m0 == old(run).entries(),
                    j0 == old(run).journal(),
                    it.position() <= ks.len(),
                    put_outcome(m0, ks.take(it.position() as int), self.rid@).conflict is None,
                    run.entries() == put_outcome(m0, ks.take(it.position() as int), self.rid@).entries,
                    run.journal() == j0 + put_outcome(m0, ks.take(it.position() as int), self.rid@).log,
                    run.documents() == old(run).documents(),
                    run.analyzers() == old(run).analyzers(),
                ensures
                    run.wf(),
                    run.entries() == put_outcome(m0, ks, self.rid@).entries,
                    run.journal() == j0 + put_outcome(m0, ks, self.rid@).log,
                    put_outcome(m0, ks, self.rid@).conflict is None,
                    run.documents() == old(run).documents(),
                    run.analyzers() == old(run).analyzers(),
                decreases ks.len() - it.position(),
            {
                let ghost p = it.position() as int;
                match it.next() {
                    None => {
                        proof {
                            assert(ks.take(p) =~= ks);
                        }
                        break;
                    },
                    Some(t) => {
                        proof {
                            assert(ks.take(p + 1).drop_last() =~= ks.take(p));
                            assert(ts[p] == values_model(t@));
                        }
                        if !(unique && is_all_none_or_null(&t)) {
                            let key = self.get_index_key(&t, unique);
                            proof {
                                assert(ks[p] == Some(key@));
                            }
                            if run.putc(key, self.rid, None).is_err() {
                                let key = self.get_index_key(&t, unique);
                                let owner = run.get(&key);
                                proof {
                                    let a = put_outcome(m0, ks.take(p), self.rid@);
                                    let b = put_outcome(m0, ks.take(p + 1), self.rid@);
                                    assert(ks.take(p + 1).last() == Some(key@));
                                    assert(a.entries.contains_key(key@));
                                    assert(b.conflict == Some(p));
                                    assert(b.entries == a.entries);
                                    assert(run.journal() =~= j0 + b.log);
                                    lemma_put_outcome_stops(m0, ks, self.rid@, p + 1, ks.len() as int);
                                    assert(ks.take(ks.len() as int) =~= ks);
                                }
                                match owner {
                                    Some(rid) => {
                                        proof {
                                            let out = put_outcome(m0, ks, self.rid@);
                                            assert(out.conflict == Some(p));
                                            assert(ks[p]->Some_0 == key@);
                                            assert(out.entries[key@] == rid@);
                                            assert(ts[p] == values_model(t@));
                                            assert(conflict_error(out, ks, ts, *self.ix, p) == (ErrorModel::IndexExists {
                                                thing: rid@,
                                                index: self.ix.name@,
                                                value: render_tuple(values_model(t@)),
                                            }));
                                        }
                                        return self.err_index_exists(rid, t);
                                    },
                                    None => {
                                        proof {
                                            assert(false);
                                        }
                                        return Ok(());
                                    },
                                }
                            }
                            proof {
                                let a = put_outcome(m0, ks.take(p), self.rid@);
                                assert(run.journal() =~= j0 + a.log.push((true, key@)));
                            }
                        } else {
                            proof {
                                assert(ks[p] is None);
                            }
                        }
                    },
                }
            }
            Ok(())
        } else {
            proof {
                assert(ks =~= Seq::<Option<Seq<u8>>>::empty());
                assert(j0 + Seq::<(bool, Seq<u8>)>::empty() =~= j0);
            }
            Ok(())
        }
    }

    fn index_btree(&mut self, run: &mut Transaction, unique: bool) -> (r: Result<(), Error>)
        requires
            old(run).wf(),
            tuples_fit(old(self).old_values(), old(self).definition()),
            tuples_fit(old(self).new_values(), old(self).definition()),
        ensures
            final(run).wf(),
            final(run).documents() == old(run).documents(),
            final(run).analyzers() == old(run).analyzers(),
            ({
                let out = btree_outcome(old(run).entries(), old(self).options(), old(self).definition(),
                    old(self).record()@, unique, old(self).old_values(), old(self).new_values());
                &&& final(run).entries() == out.entries
                &&& final(run).journal() == old(run).journal() + out.log
            }),
            match btree_error(old(run).entries(), old(self).options(), old(self).definition(),
                old(self).record()@, unique, old(self).old_values(), old(self).new_values()) {
                None => r is Ok,
                Some(x) => r matches Err(e) && e@ == x,
            },
    {
        self.delete_old(run, unique);
        let ghost mid = run.journal();
        let r = self.insert_new(run, unique);
        proof {
            let dks = old_keys(old(self).options(), old(self).definition(), old(self).record().id, unique, old(self).old_values());
            let out = put_outcome(deleted(old(run).entries(), dks, old(self).record()@),
                new_keys(old(self).options(), old(self).definition(), old(self).record().id, unique, old(self).new_values()),
                old(self).record()@);
            assert(run.journal() =~= old(run).journal() + (delete_log(dks) + out.log));
        }
        r
    }

    /// Maintains a unique index: old keys are released, then new keys are
    /// claimed, all-`NONE`/`NULL` tuples excepted.
    pub fn index_unique(&mut self, run: &mut Transaction) -> (r: Result<(), Error>)
        requires
            old(run).wf(),
            tuples_fit(old(self).old_values(), old(self).definition()),
            tuples_fit(old(self).new_values(), old(self).definition()),
        ensures
            final(run).wf(),
            final(run).documents() == old(run).documents(),
            final(run).analyzers() == old(run).analyzers(),
            ({
                let out = btree_outcome(old(run).entries(), old(self).options(), old(self).definition(),
                    old(self).record()@, true, old(self).old_values(), old(self).new_values());
                &&& final(run).entries() == out.entries
                &&& final(run).journal() == old(run).journal() + out.log
            }),
            match btree_error(old(run).entries(), old(self).options(), old(self).definition(),
                old(self).record()@, true, old(self).old_values(), old(self).new_values()) {
                None => r is Ok,
                Some(x) => r matches Err(e) && e@ == x,
            },
    {
        self.index_btree(run, true)
    }

    /// Maintains a non-unique index: keys carry the record id.
    pub fn index_non_unique(&mut self, run: &mut Transaction) -> (r: Result<(), Error>)
        requires
            old(run).wf(),
            tuples_fit(old(self).old_values(), old(self).definition()),
            tuples_fit(old(self).new_values(), old(self).definition()),
        ensures
            final(run).wf(),
            final(run).documents() == old(run).documents(),
            final(run).analyzers() == old(run).analyzers(),
            ({
                let out = btree_outcome(old(run).entries(), old(self).options(), old(self).definition(),
                    old(self).record()@, false, old(self).old_values(), old(self).new_values());
                &&& final(run).entries() == out.entries
                &&& final(run).journal() == old(run).journal() + out.log
            }),
            match btree_error(old(run).entries(), old(self).options(), old(self).definition(),
                old(self).record()@, false, old(self).old_values(), old(self).new_values()) {
                None => r is Ok,
                Some(x) => r matches Err(e) && e@ == x,
            },
    {
        self.index_btree(run, false)
    }

    /// Maintains a full-text index: the record's document is replaced by
    /// the new values, or removed when there are none.
    pub fn index_full_text(&self, run: &mut Transaction, p: &SearchParams) -> (r: Result<(), Error>)
        requires
            old(run).wf(),
        ensures
            final(run).wf(),
            final(run).entries() == old(run).entries(),
            final(run).analyzers() == old(run).analyzers(),
            final(run).journal() == old(run).journal(),
            ({
                let opt = self.options();
                let k = document_key(opt, self.definition(), self.record().id);
                if old(run).analyzers().contains((opt.ns@, opt.db@, p.az@)) {
                    &&& r is Ok
                    &&& final(run).documents() == match self.new_values() {
                        Some(n) => old(run).documents().insert(k, n),
                        None => old(run).documents().remove(k),
                    }
                } else {
                    &&& r matches Err(e) && e@ == (ErrorModel::AnalyzerNotFound { name: p.az@ })
                    &&& final(run).documents() == old(run).documents()
                }
            }),
    {
        match run.get_db_analyzer(&self.opt.ns, &self.opt.db, &p.az) {
            Ok(_) => {},
            Err(e) => return Err(e),
        }
        let empty: Vec<Value> = Vec::new();
        proof {
            assert(values_model(empty@) =~= Seq::<ValueModel>::empty());
        }
        let key = build_index_key(&self.opt.ns, &self.opt.db, &self.ix.what, &self.ix.name, &empty, Some(self.rid.id));
        match &self.n {
            Some(n) => run.index_document(key, copy_values(n)),
            None => run.remove_document(&key),
        }
        Ok(())
    }
}

} // verus!
