use vstd::prelude::*;
use crate::value::{Thing, Value, ValueModel, values_model, copy_values};
use crate::store::KeyValues;
use crate::err::Error;

verus! {

/// A conditional write issued against a transaction, as recorded in its
/// journal.
#[derive(Debug)]
pub enum WriteOp {
    Put(Vec<u8>),
    Delete(Vec<u8>),
}

/// What a journal entry records: whether it was a put, and its key.
pub open spec fn write_op_model(w: WriteOp) -> (bool, Seq<u8>) {
    match w {
        WriteOp::Put(k) => (true, k@),
        WriteOp::Delete(k) => (false, k@),
    }
}

/// An in-memory transaction over index entries (key to owning record),
/// full-text documents (key to the indexed terms) and the analyzers that
/// are defined, with a journal of the conditional writes issued.
pub struct Transaction {
    entries: KeyValues<Thing>,
    documents: KeyValues<Vec<Value>>,
    analyzers: Vec<(String, String, String)>,
    journal: Vec<WriteOp>,
}

impl Transaction {
    pub closed spec fn wf(&self) -> bool {
        self.entries.wf() && self.documents.wf()
    }

    /// The index entries: each key with the record that owns it.
    pub closed spec fn entries(&self) -> Map<Seq<u8>, (Seq<char>, u64)> {
        self.entries.view().map_values(|t: Thing| t@)
    }

    /// The full-text documents: each key with its terms.
    pub closed spec fn documents(&self) -> Map<Seq<u8>, Seq<ValueModel>> {
        self.documents.view().map_values(|d: Vec<Value>| values_model(d@))
    }

    /// The analyzers defined, as (namespace, database, name).
    pub closed spec fn analyzers(&self) -> Set<(Seq<char>, Seq<char>, Seq<char>)> {
        Set::new(|a: (Seq<char>, Seq<char>, Seq<char>)| exists|i: int|
            0 <= i < self.analyzers@.len() && (
            #[trigger] self.analyzers@[i]).0@ == a.0 && self.analyzers@[i].1@ == a.1
                && self.analyzers@[i].2@ == a.2)
    }

    /// The conditional writes issued so far, in order.
    pub closed spec fn journal(&self) -> Seq<(bool, Seq<u8>)> {
        self.journal@.map_values(|w: WriteOp| write_op_model(w))
    }

    /// An empty transaction.
    pub fn new() -> (r: Self)
        ensures
            r.wf(),
            r.entries() == Map::<Seq<u8>, (Seq<char>, u64)>::empty(),
            r.documents() == Map::<Seq<u8>, Seq<ValueModel>>::empty(),
            r.analyzers() == Set::<(Seq<char>, Seq<char>, Seq<char>)>::empty(),
            r.journal() == Seq::<(bool, Seq<u8>)>::empty(),
    {
        let r = Transaction {
            entries: KeyValues::new(),
            documents: KeyValues::new(),
            analyzers: Vec::new(),
            journal: Vec::new(),
        };
        assert(r.entries() =~= Map::<Seq<u8>, (Seq<char>, u64)>::empty());
        assert(r.documents() =~= Map::<Seq<u8>, Seq<ValueModel>>::empty());
        assert(r.analyzers() =~= Set::<(Seq<char>, Seq<char>, Seq<char>)>::empty());
        assert(r.journal() =~= Seq::<(bool, Seq<u8>)>::empty());
        r
    }

    /// Defines an analyzer in a database.
    pub fn define_analyzer(&mut self, ns: String, db: String, name: String)
        ensures
            final(self).wf() == old(self).wf(),
            final(self).entries() == old(self).entries(),
            final(self).documents() == old(self).documents(),
            final(self).analyzers() == old(self).analyzers().insert((ns@, db@, name@)),
            final(self).journal() == old(self).journal(),
    {
        let ghost a = (ns@, db@, name@);
        self.analyzers.push((ns, db, name));
        proof {
            let post = self.analyzers();
            let want = old(self).analyzers().insert(a);
            assert forall|x| post.contains(x) == want.contains(x) by {
                if post.contains(x) && x != a {
                    let i = choose|i: int| 0 <= i < self.analyzers@.len() && (
                        #[trigger] self.analyzers@[i]).0@ == x.0 && self.analyzers@[i].1@ == x.1
                            && self.analyzers@[i].2@ == x.2;
                    assert(i < old(self).analyzers@.len());
                    assert(self.analyzers@[i] == old(self).analyzers@[i]);
                }
                if want.contains(x) && x != a {
                    let i = choose|i: int| 0 <= i < old(self).analyzers@.len() && (
                        #[trigger] old(self).analyzers@[i]).0@ == x.0 && old(self).analyzers@[i].1@ == x.1
                            && old(self).analyzers@[i].2@ == x.2;
                    assert(self.analyzers@[i] == old(self).analyzers@[i]);
                }
                if x == a {
                    let n = old(self).analyzers@.len() as int;
                    assert(self.analyzers@[n].0@ == x.0);
                }
            }
            assert(post =~= want);
        }
    }

    /// The record that owns an index entry, if the key is held.
    pub fn get(&self, key: &Vec<u8>) -> (r: Option<Thing>)
        requires
            self.wf(),
        ensures
            match r {
                Some(t) => self.entries().contains_key(key@) && self.entries()[key@] == t@,
                None => !self.entries().contains_key(key@),
            },
    {
        match self.entries.get(key) {
            Some(t) => Some(t.copied()),
            None => None,
        }
    }

    /// The terms of the full-text document under `key`, if there is one.
    pub fn get_document(&self, key: &Vec<u8>) -> (r: Option<Vec<Value>>)
        requires
            self.wf(),
        ensures
            match r {
                Some(d) => self.documents().contains_key(key@) && self.documents()[key@] == values_model(d@),
                None => !self.documents().contains_key(key@),
            },
    {
        match self.documents.get(key) {
            Some(d) => Some(copy_values(d)),
            None => None,
        }
    }

    /// Puts `val` under `key` when what is held there matches `chk`: nothing
    /// for `None`, that record for `Some`. Otherwise fails with
    /// `TxConditionNotMet` and changes no entry. The write is journaled
    /// either way.
    pub fn putc(&mut self, key: Vec<u8>, val: &Thing, chk: Option<&Thing>) -> (r: Result<(), Error>)
        requires
            old(self).wf(),
        ensures
            final(self).wf(),
            final(self).documents() == old(self).documents(),
            final(self).analyzers() == old(self).analyzers(),
            final(self).journal() == old(self).journal().push((true, key@)),
            ({
                let held = old(self).entries().contains_key(key@);
                let met = match chk {
                    None => !held,
                    Some(c) => held && old(self).entries()[key@] == c@,
                };
                &&& met ==> r is Ok && final(self).entries() == old(self).entries().insert(key@, val@)
                &&& !met ==> r == Err::<(), Error>(Error::TxConditionNotMet) && final(self).entries() == old(self).entries()
            }),
    {
        let ghost k = key@;
        self.journal.push(WriteOp::Put(key.clone()));
        proof {
            assert(self.journal() =~= old(self).journal().push((true, k)));
        }
        let met = match (self.entries.get(&key), chk) {
            (None, None) => true,
            (Some(t), Some(c)) => t.same_as(c),
            _ => false,
        };
        if met {
            self.entries.insert(key, val.copied());
            proof {
                assert(self.entries() =~= old(self).entries().insert(k, val@));
            }
            Ok(())
        } else {
            Err(Error::TxConditionNotMet)
        }
    }

    /// Deletes the entry under `key` when it is held by the record `chk`, or
    /// in any case for `None`. Otherwise fails with `TxConditionNotMet` and
    /// changes no entry. The write is journaled either way.
    pub fn delc(&mut self, key: Vec<u8>, chk: Option<&Thing>) -> (r: Result<(), Error>)
        requires
            old(self).wf(),
        ensures
            final(self).wf(),
            final(self).documents() == old(self).documents(),
            final(self).analyzers() == old(self).analyzers(),
            final(self).journal() == old(self).journal().push((false, key@)),
            ({
                let met = match chk {
                    None => true,
                    Some(c) => old(self).entries().contains_key(key@) && old(self).entries()[key@] == c@,
                };
                &&& met ==> r is Ok && final(self).entries() == old(self).entries().remove(key@)
                &&& !met ==> r == Err::<(), Error>(Error::TxConditionNotMet) && final(self).entries() == old(self).entries()
            }),
    {
        let ghost k = key@;
        self.journal.push(WriteOp::Delete(key.clone()));
        proof {
            assert(self.journal() =~= old(self).journal().push((false, k)));
        }
        let met = match chk {
            None => true,
            Some(c) => match self.entries.get(&key) {
                Some(t) => t.same_as(c),
                None => false,
            },
        };
        if met {
            self.entries.remove(&key);
            proof {
                assert(self.entries() =~= old(self).entries().remove(k));
            }
            Ok(())
        } else {
            Err(Error::TxConditionNotMet)
        }
    }

    /// Looks up an analyzer of a database by name.
    pub fn get_db_analyzer(&self, ns: &String, db: &String, name: &String) -> (r: Result<(), Error>)
        ensures
            r is Ok <==> self.analyzers().contains((ns@, db@, name@)),
            match r {
                Err(Error::AnalyzerNotFound { name: n }) => n@ == name@,
                Err(_) => false,
                Ok(_) => true,
            },
    {
        let mut i: usize = 0;
        while i < self.analyzers.len()
            invariant
                i <= self.analyzers@.len(),
                forall|j: int| 0 <= j < i ==> !((#[trigger] self.analyzers@[j]).0@ == ns@
                    && self.analyzers@[j].1@ == db@ && self.analyzers@[j].2@ == name@),
            decreases self.analyzers@.len() - i,
        {
            let a = &self.analyzers[i];
            if a.0 == *ns && a.1 == *db && a.2 == *name {
                proof {
                    assert(self.analyzers().contains((ns@, db@, name@)));
                }
                return Ok(());
            }
            i = i + 1;
        }
        Err(Error::AnalyzerNotFound { name: name.clone() })
    }

    /// Stores the terms of a full-text document under `key`.
    pub fn index_document(&mut self, key: Vec<u8>, terms: Vec<Value>)
        requires
            old(self).wf(),
        ensures
            final(self).wf(),
            final(self).entries() == old(self).entries(),
            final(self).analyzers() == old(self).analyzers(),
            final(self).journal() == old(self).journal(),
            final(self).documents() == old(self).documents().insert(key@, values_model(terms@)),
    {
        let ghost k = key@;
        let ghost m = values_model(terms@);
        self.documents.insert(key, terms);
        proof {
            assert(self.documents() =~= old(self).documents().insert(k, m));
        }
    }

    /// Removes the full-text document under `key`, if there is one.
    pub fn remove_document(&mut self, key: &Vec<u8>)
        requires
            old(self).wf(),
        ensures
            final(self).wf(),
            final(self).entries() == old(self).entries(),
            final(self).analyzers() == old(self).analyzers(),
            final(self).journal() == old(self).journal(),
            final(self).documents() == old(self).documents().remove(key@),
    {
        self.documents.remove(key);
        proof {
            assert(self.documents() =~= old(self).documents().remove(key@));
        }
    }

    /// The number of conditional writes issued so far.
    pub fn writes(&self) -> (r: usize)
        ensures
            r == self.journal().len(),
    {
        self.journal.len()
    }
}

} // verus!
