use vstd::prelude::*;
use vstd::string::StringExecFns;
use crate::err::{Error, ErrorModel};
use crate::index::{
    Column, DefineIndexStatement, Index, IndexOperation, Options, btree_outcome, btree_error,
    document_key, tuples_fit,
};
use crate::kvs::Transaction;
use crate::value::{Scalar, Thing, Value, ScalarModel, ValueModel, values_model, opt_values_model, same_opt_values};

verus! {

/// A record's fields: each name with its value.
pub type Object = Vec<(String, Value)>;

/// The model of a record's fields.
pub open spec fn object_model(d: Seq<(String, Value)>) -> Seq<(Seq<char>, ValueModel)> {
    d.map_values(|f: (String, Value)| (f.0@, f.1@))
}

/// The model of an optional record view.
pub open spec fn view_model(d: Option<Object>) -> Option<Seq<(Seq<char>, ValueModel)>> {
    match d {
        Some(o) => Some(object_model(o@)),
        None => None,
    }
}

/// The value of the first field named `f`, or `NONE` when there is none.
pub open spec fn field_value(d: Seq<(Seq<char>, ValueModel)>, f: Seq<char>) -> ValueModel
    decreases d.len(),
{
    if d.len() == 0 {
        ValueModel::Scalar(ScalarModel::Absent)
    } else if d[0].0 == f {
        d[0].1
    } else {
        field_value(d.drop_first(), f)
    }
}

/// The values that an index's columns read from a record view, in column
/// order; none when the view is absent.
pub open spec fn extracted(cols: Seq<Column>, d: Option<Seq<(Seq<char>, ValueModel)>>) -> Option<Seq<ValueModel>> {
    match d {
        Some(fields) => Some(cols.map_values(|c: Column| field_value(fields, c.field@))),
        None => None,
    }
}

/// The metadata of a table: whether it is a view, and its indexes.
pub struct Table {
    pub drop: bool,
    pub indexes: Vec<DefineIndexStatement>,
}

/// A record under mutation: its id, and its state before and after.
pub struct Document {
    pub id: Option<Thing>,
    pub initial: Option<Object>,
    pub current: Option<Object>,
}

/// What index maintenance touches in a transaction.
pub struct TxState {
    pub entries: Map<Seq<u8>, (Seq<char>, u64)>,
    pub documents: Map<Seq<u8>, Seq<ValueModel>>,
    pub journal: Seq<(bool, Seq<u8>)>,
}

/// The state of a transaction.
pub open spec fn tx_state(t: Transaction) -> TxState {
    TxState { entries: t.entries(), documents: t.documents(), journal: t.journal() }
}

/// One index definition's maintenance for a record with old values `o` and
/// new values `n`: the state after, and the error if it failed.
pub open spec fn index_step(
    st: TxState,
    analyzers: Set<(Seq<char>, Seq<char>, Seq<char>)>,
    opt: Options,
    ix: DefineIndexStatement,
    rid: (Seq<char>, u64),
    o: Option<Seq<ValueModel>>,
    n: Option<Seq<ValueModel>>,
) -> (TxState, Option<ErrorModel>) {
    if !(opt.force || o != n) {
        (st, None)
    } else {
        match ix.index {
            Index::Uniq => {
                let out = btree_outcome(st.entries, opt, ix, rid, true, o, n);
                (TxState { entries: out.entries, documents: st.documents, journal: st.journal + out.log },
                 btree_error(st.entries, opt, ix, rid, true, o, n))
            },
            Index::Idx => {
                let out = btree_outcome(st.entries, opt, ix, rid, false, o, n);
                (TxState { entries: out.entries, documents: st.documents, journal: st.journal + out.log },
                 btree_error(st.entries, opt, ix, rid, false, o, n))
            },
            Index::Search(p) => if analyzers.contains((opt.ns@, opt.db@, p.az@)) {
                let k = document_key(opt, ix, rid.1);
                (TxState {
                    entries: st.entries,
                    documents: match n {
                        Some(v) => st.documents.insert(k, v),
                        None => st.documents.remove(k),
                    },
                    journal: st.journal,
                }, None)
            } else {
                (st, Some(ErrorModel::AnalyzerNotFound { name: p.az@ }))
            },
            Index::MTree(_) => (st, Some(ErrorModel::FeatureNotYetImplemented { feature: "MTree indexing"@ })),
        }
    }
}

/// The maintenance of the first `k` index definitions in turn, stopping at
/// the first that fails.
pub open spec fn maintained(
    st: TxState,
    analyzers: Set<(Seq<char>, Seq<char>, Seq<char>)>,
    opt: Options,
    ixs: Seq<DefineIndexStatement>,
    rid: (Seq<char>, u64),
    initial: Option<Seq<(Seq<char>, ValueModel)>>,
    current: Option<Seq<(Seq<char>, ValueModel)>>,
    k: nat,
) -> (TxState, Option<ErrorModel>)
    decreases k,
{
    if k == 0 {
        (st, None)
    } else {
        let p = maintained(st, analyzers, opt, ixs, rid, initial, current, (k - 1) as nat);
        if p.1 is Some {
            p
        } else {
            let ix = ixs[k - 1];
            index_step(p.0, analyzers, opt, ix, rid, extracted(ix.cols@, initial), extracted(ix.cols@, current))
        }
    }
}

proof fn lemma_maintained_stops(
    st: TxState,
    analyzers: Set<(Seq<char>, Seq<char>, Seq<char>)>,
    opt: Options,
    ixs: Seq<DefineIndexStatement>,
    rid: (Seq<char>, u64),
    initial: Option<Seq<(Seq<char>, ValueModel)>>,
    current: Option<Seq<(Seq<char>, ValueModel)>>,
    a: nat,
    b: nat,
)
    requires
        a <= b,
        maintained(st, analyzers, opt, ixs, rid, initial, current, a).1 is Some,
    ensures
        maintained(st, analyzers, opt, ixs, rid, initial, current, b)
            == maintained(st, analyzers, opt, ixs, rid, initial, current, a),
    decreases b - a,
{
    if b > a {
        lemma_maintained_stops(st, analyzers, opt, ixs, rid, initial, current, a, (b - 1) as nat);
    }
}

/// Every index definition's tuples, old and new, can be counted in a `usize`.
pub open spec fn all_tuples_fit(
    ixs: Seq<DefineIndexStatement>,
    initial: Option<Seq<(Seq<char>, ValueModel)>>,
    current: Option<Seq<(Seq<char>, ValueModel)>>,
) -> bool {
    forall|i: int| 0 <= i < ixs.len() ==> tuples_fit(extracted((#[trigger] ixs[i]).cols@, initial), ixs[i])
        && tuples_fit(extracted(ixs[i].cols@, current), ixs[i])
}

/// Whether the index gates let maintenance run.
pub open spec fn gates_open(opt: Options, tb: Table, changed: bool) -> bool {
    opt.indexes && (opt.force || changed) && !tb.drop
}

fn lookup(fields: &Object, f: &String) -> (r: Value)
    ensures
        r@ == field_value(object_model(fields@), f@),
{
    let ghost d = object_model(fields@);
    let mut i: usize = 0;
    assert(d.skip(0) =~= d);
    while i < fields.len()
        invariant
            i <= fields@.len(),
            d == object_model(fields@),
            field_value(d, f@) == field_value(d.skip(i as int), f@),
        decreases fields@.len() - i,
    {
        proof {
            assert(d.skip(i as int)[0] == (fields@[i as int].0@, fields@[i as int].1@));
            assert(d.skip(i as int).drop_first() =~= d.skip(i + 1));
        }
        if fields[i].0 == *f {
            return fields[i].1.copied();
        }
        i = i + 1;
    }
    Value::Scalar(Scalar::Absent)
}

/// Extracts from a record view the values that the index reads, one per
/// column, or `None` when the view is absent.
pub fn build_opt_values(ix: &DefineIndexStatement, doc: &Option<Object>) -> (r: Option<Vec<Value>>)
    ensures
        opt_values_model(r) == extracted(ix.cols@, view_model(*doc)),
{
    match doc {
        None => None,
        Some(fields) => {
            let mut o: Vec<Value> = Vec::with_capacity(ix.cols.len());
            let mut i: usize = 0;
            while i < ix.cols.len()
                invariant
                    i <= ix.cols@.len(),
                    o@.len() == i,
                    forall|j: int| 0 <= j < i ==> (#[trigger] o@[j])@ == field_value(object_model(fields@), ix.cols@[j].field@),
                decreases ix.cols@.len() - i,
            {
                o.push(lookup(fields, &ix.cols[i].field));
                i = i + 1;
            }
            proof {
                assert(values_model(o@) =~= ix.cols@.map_values(|c: Column| field_value(object_model(fields@), c.field@)));
            }
            Some(o)
        },
    }
}

fn same_objects(a: &Object, b: &Object) -> (r: bool)
    ensures
        r == (object_model(a@) == object_model(b@)),
{
    if a.len() != b.len() {
        proof {
            assert(object_model(a@).len() != object_model(b@).len());
        }
        return false;
    }
    let mut i: usize = 0;
    while i < a.len()
        invariant
            i <= a@.len() == b@.len(),
            forall|j: int| 0 <= j < i ==> object_model(a@)[j] == object_model(b@)[j],
        decreases a@.len() - i,
    {
        if !(a[i].0 == b[i].0) || !a[i].1.same_as(&b[i].1) {
            proof {
                assert(object_model(a@)[i as int] != object_model(b@)[i as int]);
            }
            return false;
        }
        i = i + 1;
    }
    proof {
        assert(object_model(a@) =~= object_model(b@));
    }
    true
}

impl Document {
    /// Whether the record differs between its state before and after.
    pub fn changed(&self) -> (r: bool)
        ensures
            r == (view_model(self.initial) != view_model(self.current)),
    {
        match (&self.initial, &self.current) {
            (Some(a), Some(b)) => !same_objects(a, b),
            (None, None) => false,
            _ => true,
        }
    }

    /// Brings the table's indexes in step with this record's mutation.
    ///
    /// Nothing is done when indexing is off, when the record is unchanged
    /// and not forced, or when the table is a view. Otherwise each index
    /// definition whose extracted values changed (or every one, when forced)
    /// is maintained in turn, stopping at the first failure.
    pub fn index(&self, opt: &Options, txn: &mut Transaction, tb: &Table) -> (r: Result<(), Error>)
        requires
            old(txn).wf(),
            gates_open(*opt, *tb, view_model(self.initial) != view_model(self.current)) ==> self.id is Some,
            all_tuples_fit(tb.indexes@, view_model(self.initial), view_model(self.current)),
        ensures
            final(txn).wf(),
            final(txn).analyzers() == old(txn).analyzers(),
            !gates_open(*opt, *tb, view_model(self.initial) != view_model(self.current)) ==> r is Ok
                && tx_state(*final(txn)) == tx_state(*old(txn)),
            gates_open(*opt, *tb, view_model(self.initial) != view_model(self.current)) ==> ({
                let m = maintained(tx_state(*old(txn)), old(txn).analyzers(), *opt, tb.indexes@,
                    self.id->Some_0@, view_model(self.initial), view_model(self.current), tb.indexes@.len());
                &&& tx_state(*final(txn)) == m.0
                &&& match m.1 {
                    None => r is Ok,
                    Some(x) => r matches Err(e) && e@ == x,
                }
            }),
    {
        // Check indexes
        if !opt.indexes {
            return Ok(());
        }
        // Check if forced
        if !opt.force && !self.changed() {
            return Ok(());
        }
        // Check if the table is a view
        if tb.drop {
            return Ok(());
        }
        // Get the record id (present once the gates are open, by the
        // precondition)
        let rid = match &self.id {
            Some(rid) => rid,
            None => return Ok(()),
        };
        let ghost st0 = tx_state(*txn);
        let ghost az = txn.analyzers();
        let ghost initial = view_model(self.initial);
        let ghost current = view_model(self.current);
        let mut i: usize = 0;
        while i < tb.indexes.len()
            invariant
                txn.wf(),
                txn.analyzers() == az,
                az == old(txn).analyzers(),
                st0 == tx_state(*old(txn)),
                initial == view_model(self.initial),
                current == view_model(self.current),
                all_tuples_fit(tb.indexes@, initial, current),
                gates_open(*opt, *tb, initial != current),
                self.id == Some(*rid),
                i <= tb.indexes@.len(),
                maintained(st0, az, *opt, tb.indexes@, rid@, initial, current, i as nat).1 is None,
                tx_state(*txn) == maintained(st0, az, *opt, tb.indexes@, rid@, initial, current, i as nat).0,
            decreases tb.indexes@.len() - i,
        {
            let ix = &tb.indexes[i];
            // Calculate old values
            let o = build_opt_values(ix, &self.initial);
            // Calculate new values
            let n = build_opt_values(ix, &self.current);
            proof {
                assert(tuples_fit(extracted(tb.indexes@[i as int].cols@, initial), tb.indexes@[i as int]));
            }
            // Update the index entries
            if opt.force || !same_opt_values(&o, &n) {
                let mut ic = IndexOperation::new(opt, ix, o, n, rid);
                let res = match &ix.index {
                    Index::Uniq => ic.index_unique(txn),
                    Index::Idx => ic.index_non_unique(txn),
                    Index::Search(p) => ic.index_full_text(txn, p),
                    Index::MTree(_) => {
                        let feature = String::from_str("MTree indexing");
                        proof {
                            reveal_strlit("MTree indexing");
                        }
                        Err(Error::FeatureNotYetImplemented { feature })
                    },
                };
                proof {
                    assert(tx_state(*txn) =~= maintained(st0, az, *opt, tb.indexes@, rid@, initial, current, (i + 1) as nat).0);
                }
                match res {
                    Ok(_) => {},
                    Err(e) => {
                        proof {
                            lemma_maintained_stops(st0, az, *opt, tb.indexes@, rid@, initial, current,
                                (i + 1) as nat, tb.indexes@.len());
                        }
                        return Err(e);
                    },
                }
            }
            i = i + 1;
        }
        proof {
            assert(tb.indexes@.len() == i);
        }
        Ok(())
    }
}

} // verus!
