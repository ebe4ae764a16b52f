use docindex::doc::{Document, Table};
use docindex::err::Error;
use docindex::index::{Column, DefineIndexStatement, Index, MTreeParams, Options, SearchParams};
use docindex::key::build_index_key;
use docindex::kvs::Transaction;
use docindex::value::{Scalar, Thing, Value};

fn opts(force: bool) -> Options {
    Options { ns: "test".to_string(), db: "test".to_string(), indexes: true, force }
}

fn def(name: &str, cols: &[(&str, bool)], index: Index) -> DefineIndexStatement {
    DefineIndexStatement {
        name: name.to_string(),
        what: "person".to_string(),
        cols: cols.iter().map(|(f, fl)| Column { field: f.to_string(), flatten: *fl }).collect(),
        index,
    }
}

fn s(x: &str) -> Value {
    Value::Scalar(Scalar::Strand(x.to_string()))
}

fn null() -> Value {
    Value::Scalar(Scalar::Null)
}

fn rid(id: u64) -> Thing {
    Thing { tb: "person".to_string(), id }
}

fn obj(fields: Vec<(&str, Value)>) -> Option<Vec<(String, Value)>> {
    Some(fields.into_iter().map(|(k, v)| (k.to_string(), v)).collect())
}

fn doc(id: u64, initial: Option<Vec<(String, Value)>>, current: Option<Vec<(String, Value)>>) -> Document {
    Document { id: Some(rid(id)), initial, current }
}

fn table(ix: DefineIndexStatement) -> Table {
    Table { drop: false, indexes: vec![ix] }
}

fn ukey(opt: &Options, tb: &Table, vals: Vec<Value>) -> Vec<u8> {
    let ix = &tb.indexes[0];
    build_index_key(&opt.ns, &opt.db, &ix.what, &ix.name, &vals, None)
}

fn nkey(opt: &Options, tb: &Table, vals: Vec<Value>, id: u64) -> Vec<u8> {
    let ix = &tb.indexes[0];
    build_index_key(&opt.ns, &opt.db, &ix.what, &ix.name, &vals, Some(id))
}

fn owner(txn: &Transaction, key: &Vec<u8>) -> Option<u64> {
    txn.get(key).map(|t| t.id)
}

#[test]
fn unique_insert_stores_key() {
    let opt = opts(false);
    let tb = table(def("uniq_name", &[("name", false)], Index::Uniq));
    let mut txn = Transaction::new();
    let d = doc(1, None, obj(vec![("name", s("Tobie"))]));
    assert!(d.index(&opt, &mut txn, &tb).is_ok());
    assert_eq!(owner(&txn, &ukey(&opt, &tb, vec![s("Tobie")])), Some(1));
    assert_eq!(txn.writes(), 1);
}

#[test]
fn unique_duplicate_fails_with_first_owner() {
    let opt = opts(false);
    let tb = table(def("uniq_name", &[("name", false)], Index::Uniq));
    let mut txn = Transaction::new();
    let d1 = doc(1, None, obj(vec![("name", s("Tobie"))]));
    assert!(d1.index(&opt, &mut txn, &tb).is_ok());
    let d2 = doc(2, None, obj(vec![("name", s("Tobie"))]));
    match d2.index(&opt, &mut txn, &tb) {
        Err(Error::IndexExists { thing, index, value }) => {
            assert_eq!(thing.id, 1);
            assert_eq!(thing.tb, "person");
            assert_eq!(index, "uniq_name");
            assert_eq!(value, "'Tobie'");
        }
        other => panic!("unexpected: {:?}", other),
    }
    assert_eq!(owner(&txn, &ukey(&opt, &tb, vec![s("Tobie")])), Some(1));
}

#[test]
fn non_unique_spreads_array_column() {
    let opt = opts(false);
    let tb = table(def("idx_ni", &[("name", false), ("instrument", false)], Index::Idx));
    let mut txn = Transaction::new();
    let instruments = Value::Array(vec![
        Scalar::Strand("piano".to_string()),
        Scalar::Strand("violin".to_string()),
    ]);
    let d = doc(7, None, obj(vec![("name", s("Tobie")), ("instrument", instruments)]));
    assert!(d.index(&opt, &mut txn, &tb).is_ok());
    assert_eq!(owner(&txn, &nkey(&opt, &tb, vec![s("Tobie"), s("piano")], 7)), Some(7));
    assert_eq!(owner(&txn, &nkey(&opt, &tb, vec![s("Tobie"), s("violin")], 7)), Some(7));
    assert_eq!(txn.writes(), 2);
}

#[test]
fn unique_update_moves_key() {
    let opt = opts(false);
    let tb = table(def("uniq_name", &[("name", false)], Index::Uniq));
    let mut txn = Transaction::new();
    let d0 = doc(1, None, obj(vec![("name", s("Old"))]));
    assert!(d0.index(&opt, &mut txn, &tb).is_ok());
    let d1 = doc(1, obj(vec![("name", s("Old"))]), obj(vec![("name", s("New"))]));
    assert!(d1.index(&opt, &mut txn, &tb).is_ok());
    assert_eq!(owner(&txn, &ukey(&opt, &tb, vec![s("Old")])), None);
    assert_eq!(owner(&txn, &ukey(&opt, &tb, vec![s("New")])), Some(1));
    assert_eq!(txn.writes(), 3);
}

#[test]
fn unique_all_null_is_not_stored() {
    let opt = opts(true);
    let tb = table(def("uniq_ab", &[("a", false), ("b", false)], Index::Uniq));
    let mut txn = Transaction::new();
    let d = doc(1, obj(vec![("a", null()), ("b", null())]), obj(vec![("a", null()), ("b", null())]));
    assert!(d.index(&opt, &mut txn, &tb).is_ok());
    assert_eq!(owner(&txn, &ukey(&opt, &tb, vec![null(), null()])), None);
    // one delete attempt, no put
    assert_eq!(txn.writes(), 1);
}

#[test]
fn all_null_old_tuple_is_still_deleted() {
    let opt = opts(false);
    let tb = table(def("uniq_a", &[("a", false)], Index::Uniq));
    let mut txn = Transaction::new();
    let d0 = doc(1, None, obj(vec![("a", s("x"))]));
    assert!(d0.index(&opt, &mut txn, &tb).is_ok());
    let d1 = doc(1, obj(vec![("a", s("x"))]), obj(vec![("a", null())]));
    assert!(d1.index(&opt, &mut txn, &tb).is_ok());
    assert_eq!(owner(&txn, &ukey(&opt, &tb, vec![s("x")])), None);
    assert_eq!(owner(&txn, &ukey(&opt, &tb, vec![null()])), None);
    assert_eq!(txn.writes(), 2);
}

#[test]
fn mtree_is_not_implemented() {
    let opt = opts(false);
    let tb = table(def("mt", &[("v", false)], Index::MTree(MTreeParams { dimension: 3 })));
    let mut txn = Transaction::new();
    let d = doc(1, None, obj(vec![("v", s("x"))]));
    match d.index(&opt, &mut txn, &tb) {
        Err(Error::FeatureNotYetImplemented { feature }) => assert_eq!(feature, "MTree indexing"),
        other => panic!("unexpected: {:?}", other),
    }
    assert_eq!(txn.writes(), 0);
}

#[test]
fn unchanged_columns_issue_no_writes() {
    let opt = opts(false);
    let tb = table(def("uniq_name", &[("name", false)], Index::Uniq));
    let mut txn = Transaction::new();
    let d = doc(
        1,
        obj(vec![("name", s("Tobie")), ("age", Value::Scalar(Scalar::Number(30)))]),
        obj(vec![("name", s("Tobie")), ("age", Value::Scalar(Scalar::Number(31)))]),
    );
    assert!(d.changed());
    assert!(d.index(&opt, &mut txn, &tb).is_ok());
    assert_eq!(txn.writes(), 0);
}

#[test]
fn forced_replay_counts_writes() {
    let opt = opts(true);
    let tb = table(def("uniq_tags", &[("tags", false)], Index::Uniq));
    let mut txn = Transaction::new();
    let old_tags = Value::Array(vec![Scalar::Strand("a".to_string()), Scalar::Strand("b".to_string())]);
    let new_tags = Value::Array(vec![
        Scalar::Strand("c".to_string()),
        Scalar::Null,
        Scalar::Strand("d".to_string()),
    ]);
    let d = doc(1, obj(vec![("tags", old_tags)]), obj(vec![("tags", new_tags)]));
    assert!(d.index(&opt, &mut txn, &tb).is_ok());
    // two deletes, then two puts: the NULL tuple is skipped
    assert_eq!(txn.writes(), 4);
    assert_eq!(owner(&txn, &ukey(&opt, &tb, vec![s("c")])), Some(1));
    assert_eq!(owner(&txn, &ukey(&opt, &tb, vec![s("d")])), Some(1));
}

#[test]
fn indexing_off_does_nothing() {
    let mut opt = opts(true);
    opt.indexes = false;
    let tb = table(def("uniq_name", &[("name", false)], Index::Uniq));
    let mut txn = Transaction::new();
    let d = doc(1, None, obj(vec![("name", s("Tobie"))]));
    assert!(d.index(&opt, &mut txn, &tb).is_ok());
    assert_eq!(txn.writes(), 0);
}

#[test]
fn view_table_is_skipped() {
    let opt = opts(true);
    let mut tb = table(def("uniq_name", &[("name", false)], Index::Uniq));
    tb.drop = true;
    let mut txn = Transaction::new();
    let d = doc(1, None, obj(vec![("name", s("Tobie"))]));
    assert!(d.index(&opt, &mut txn, &tb).is_ok());
    assert_eq!(txn.writes(), 0);
}

#[test]
fn unchanged_record_is_skipped() {
    let opt = opts(false);
    let tb = table(def("uniq_name", &[("name", false)], Index::Uniq));
    let mut txn = Transaction::new();
    let d = doc(1, obj(vec![("name", s("Tobie"))]), obj(vec![("name", s("Tobie"))]));
    assert!(!d.changed());
    assert!(d.index(&opt, &mut txn, &tb).is_ok());
    assert_eq!(txn.writes(), 0);
}

#[test]
fn delete_record_releases_key() {
    let opt = opts(false);
    let tb = table(def("uniq_name", &[("name", false)], Index::Uniq));
    let mut txn = Transaction::new();
    assert!(doc(1, None, obj(vec![("name", s("Tobie"))])).index(&opt, &mut txn, &tb).is_ok());
    assert!(doc(1, obj(vec![("name", s("Tobie"))]), None).index(&opt, &mut txn, &tb).is_ok());
    assert_eq!(owner(&txn, &ukey(&opt, &tb, vec![s("Tobie")])), None);
    // the released key can be claimed by another record
    assert!(doc(2, None, obj(vec![("name", s("Tobie"))])).index(&opt, &mut txn, &tb).is_ok());
    assert_eq!(owner(&txn, &ukey(&opt, &tb, vec![s("Tobie")])), Some(2));
}

#[test]
fn missing_field_is_none() {
    let opt = opts(false);
    let tb = table(def("idx_name", &[("name", false)], Index::Idx));
    let mut txn = Transaction::new();
    let d = doc(3, None, obj(vec![("other", s("x"))]));
    assert!(d.index(&opt, &mut txn, &tb).is_ok());
    let none = Value::Scalar(Scalar::Absent);
    assert_eq!(owner(&txn, &nkey(&opt, &tb, vec![none], 3)), Some(3));
}

#[test]
fn non_unique_repeated_put_is_reported() {
    let opt = opts(true);
    let tb = table(def("idx_name", &[("name", false)], Index::Idx));
    let mut txn = Transaction::new();
    let d = doc(5, None, obj(vec![("name", s("Tobie"))]));
    assert!(d.index(&opt, &mut txn, &tb).is_ok());
    match d.index(&opt, &mut txn, &tb) {
        Err(Error::IndexExists { thing, index, value }) => {
            assert_eq!(thing.id, 5);
            assert_eq!(index, "idx_name");
            assert_eq!(value, "'Tobie'");
        }
        other => panic!("unexpected: {:?}", other),
    }
}

#[test]
fn full_text_needs_analyzer() {
    let opt = opts(false);
    let tb = table(def("ft", &[("title", false)], Index::Search(SearchParams { az: "english".to_string() })));
    let mut txn = Transaction::new();
    let d = doc(1, None, obj(vec![("title", s("hello"))]));
    match d.index(&opt, &mut txn, &tb) {
        Err(Error::AnalyzerNotFound { name }) => assert_eq!(name, "english"),
        other => panic!("unexpected: {:?}", other),
    }
}

#[test]
fn full_text_indexes_and_removes_document() {
    let opt = opts(false);
    let tb = table(def("ft", &[("title", false)], Index::Search(SearchParams { az: "english".to_string() })));
    let mut txn = Transaction::new();
    txn.define_analyzer("test".to_string(), "test".to_string(), "english".to_string());
    let key = nkey(&opt, &tb, vec![], 1);
    assert!(doc(1, None, obj(vec![("title", s("hello"))])).index(&opt, &mut txn, &tb).is_ok());
    let terms = txn.get_document(&key).unwrap();
    assert_eq!(docindex::render::tuple_to_string(&terms), "'hello'");
    assert!(doc(1, obj(vec![("title", s("hello"))]), None).index(&opt, &mut txn, &tb).is_ok());
    assert!(txn.get_document(&key).is_none());
    assert_eq!(txn.writes(), 0);
}

#[test]
fn conditional_put_and_delete() {
    let mut txn = Transaction::new();
    let k = vec![1u8, 2, 3];
    assert!(txn.putc(k.clone(), &rid(1), None).is_ok());
    assert!(matches!(txn.putc(k.clone(), &rid(2), None), Err(Error::TxConditionNotMet)));
    assert!(matches!(txn.delc(k.clone(), Some(&rid(2))), Err(Error::TxConditionNotMet)));
    assert_eq!(owner(&txn, &k), Some(1));
    assert!(txn.putc(k.clone(), &rid(2), Some(&rid(1))).is_ok());
    assert_eq!(owner(&txn, &k), Some(2));
    assert!(txn.delc(k.clone(), Some(&rid(2))).is_ok());
    assert_eq!(owner(&txn, &k), None);
    assert_eq!(txn.writes(), 5);
}

#[test]
fn key_shapes() {
    let opt = opts(false);
    let tb = table(def("i", &[("n", false)], Index::Uniq));
    let u = ukey(&opt, &tb, vec![Value::Scalar(Scalar::Bool(true))]);
    let expected: Vec<u8> = vec![
        b'/', b'*', 1, 0, 0, 0, b't', 1, 0, 0, 0, b'e', 1, 0, 0, 0, b's', 1, 0, 0, 0, b't', 0, b'*', 1, 0,
        0, 0, b't', 1, 0, 0, 0, b'e', 1, 0, 0, 0, b's', 1, 0, 0, 0, b't', 0, b'*', 1, 0, 0, 0, b'p', 1, 0,
        0, 0, b'e', 1, 0, 0, 0, b'r', 1, 0, 0, 0, b's', 1, 0, 0, 0, b'o', 1, 0, 0, 0, b'n', 0, b'+', 1, 0,
        0, 0, b'i', 0, b'*', 3, 1,
    ];
    assert_eq!(u, expected);
    let n = nkey(&opt, &tb, vec![Value::Scalar(Scalar::Bool(true))], 258);
    let mut with_id = expected.clone();
    with_id.extend_from_slice(&[0, 0, 0, 0, 0, 0, 1, 2]);
    assert_eq!(n, with_id);
}

#[test]
fn number_keys_follow_numeric_order() {
    let opt = opts(false);
    let tb = table(def("i", &[("n", false)], Index::Uniq));
    let a = ukey(&opt, &tb, vec![Value::Scalar(Scalar::Number(-5))]);
    let b = ukey(&opt, &tb, vec![Value::Scalar(Scalar::Number(3))]);
    let c = ukey(&opt, &tb, vec![Value::Scalar(Scalar::Number(300))]);
    assert!(a < b && b < c);
}
