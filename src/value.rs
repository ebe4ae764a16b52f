use vstd::prelude::*;

verus! {

/// A single (non-array) value as it appears in a record.
#[derive(Debug)]
pub enum Scalar {
    Absent,
    Null,
    Bool(bool),
    Number(i64),
    Strand(String),
}

/// What an index column evaluates to: a scalar, or an array of scalars.
#[derive(Debug)]
pub enum Value {
    Scalar(Scalar),
    Array(Vec<Scalar>),
}

/// A record's identity: its table and its id within the table.
#[derive(Debug)]
pub struct Thing {
    pub tb: String,
    pub id: u64,
}

impl View for Thing {
    type V = (Seq<char>, u64);

    open spec fn view(&self) -> (Seq<char>, u64) {
        (self.tb@, self.id)
    }
}

impl Thing {
    /// A copy of this record id.
    pub fn copied(&self) -> (r: Thing)
        ensures
            r@ == self@,
    {
        Thing { tb: self.tb.clone(), id: self.id }
    }

    /// Whether two record ids name the same record.
    pub fn same_as(&self, other: &Thing) -> (r: bool)
        ensures
            r == (self@ == other@),
    {
        self.id == other.id && self.tb == other.tb
    }
}

/// The mathematical content of a [`Scalar`].
pub enum ScalarModel {
    Absent,
    Null,
    Bool(bool),
    Number(i64),
    Strand(Seq<char>),
}

/// The mathematical content of a [`Value`].
pub enum ValueModel {
    Scalar(ScalarModel),
    Array(Seq<ScalarModel>),
}

impl View for Scalar {
    type V = ScalarModel;

    open spec fn view(&self) -> ScalarModel {
        match self {
            Scalar::Absent => ScalarModel::Absent,
            Scalar::Null => ScalarModel::Null,
            Scalar::Bool(b) => ScalarModel::Bool(*b),
            Scalar::Number(n) => ScalarModel::Number(*n),
            Scalar::Strand(s) => ScalarModel::Strand(s@),
        }
    }
}

/// The models of a sequence of scalars.
pub open spec fn scalars_model(s: Seq<Scalar>) -> Seq<ScalarModel> {
    s.map_values(|x: Scalar| x@)
}

impl View for Value {
    type V = ValueModel;

    open spec fn view(&self) -> ValueModel {
        match self {
            Value::Scalar(s) => ValueModel::Scalar(s@),
            Value::Array(a) => ValueModel::Array(scalars_model(a@)),
        }
    }
}

/// The models of a sequence of values (a tuple, or a list of extracted values).
pub open spec fn values_model(s: Seq<Value>) -> Seq<ValueModel> {
    s.map_values(|x: Value| x@)
}

/// The models of an optional list of extracted values.
pub open spec fn opt_values_model(o: Option<Vec<Value>>) -> Option<Seq<ValueModel>> {
    match o {
        Some(v) => Some(values_model(v@)),
        None => None,
    }
}

/// `NONE` or `NULL`.
pub open spec fn none_or_null(v: ValueModel) -> bool {
    v == ValueModel::Scalar(ScalarModel::Absent) || v == ValueModel::Scalar(ScalarModel::Null)
}

/// Every component of the tuple is `NONE` or `NULL`.
pub open spec fn all_none_or_null(t: Seq<ValueModel>) -> bool {
    forall|i: int| 0 <= i < t.len() ==> none_or_null(#[trigger] t[i])
}

impl Scalar {
    /// A copy of this scalar.
    pub fn copied(&self) -> (r: Scalar)
        ensures
            r@ == self@,
    {
        match self {
            Scalar::Absent => Scalar::Absent,
            Scalar::Null => Scalar::Null,
            Scalar::Bool(b) => Scalar::Bool(*b),
            Scalar::Number(n) => Scalar::Number(*n),
            Scalar::Strand(s) => Scalar::Strand(s.clone()),
        }
    }

    /// Whether two scalars hold the same value.
    pub fn same_as(&self, other: &Scalar) -> (r: bool)
        ensures
            r == (self@ == other@),
    {
        match (self, other) {
            (Scalar::Absent, Scalar::Absent) => true,
            (Scalar::Null, Scalar::Null) => true,
            (Scalar::Bool(a), Scalar::Bool(b)) => *a == *b,
            (Scalar::Number(a), Scalar::Number(b)) => *a == *b,
            (Scalar::Strand(a), Scalar::Strand(b)) => *a == *b,
            _ => false,
        }
    }
}

impl Value {
    /// A copy of this value.
    pub fn copied(&self) -> (r: Value)
        ensures
            r@ == self@,
    {
        match self {
            Value::Scalar(s) => Value::Scalar(s.copied()),
            Value::Array(a) => {
                let mut out: Vec<Scalar> = Vec::new();
                let mut i: usize = 0;
                while i < a.len()
                    invariant
                        i <= a@.len(),
                        out@.len() == i,
                        forall|j: int| 0 <= j < i ==> out@[j]@ == a@[j]@,
                    decreases a@.len() - i,
                {
                    out.push(a[i].copied());
                    i = i + 1;
                }
                proof {
                    assert(scalars_model(out@) =~= scalars_model(a@));
                }
                Value::Array(out)
            },
        }
    }

    /// Whether two values hold the same value.
    pub fn same_as(&self, other: &Value) -> (r: bool)
        ensures
            r == (self@ == other@),
    {
        match (self, other) {
            (Value::Scalar(a), Value::Scalar(b)) => a.same_as(b),
            (Value::Array(a), Value::Array(b)) => {
                if a.len() != b.len() {
                    proof {
                        assert(scalars_model(a@).len() != scalars_model(b@).len());
                    }
                    return false;
                }
                let mut i: usize = 0;
                while i < a.len()
                    invariant
                        i <= a@.len() == b@.len(),
                        self@ == ValueModel::Array(scalars_model(a@)),
                        other@ == ValueModel::Array(scalars_model(b@)),
                        forall|j: int| 0 <= j < i ==> a@[j]@ == b@[j]@,
                    decreases a@.len() - i,
                {
                    if !a[i].same_as(&b[i]) {
                        proof {
                            assert(scalars_model(a@)[i as int] == a@[i as int]@);
                            assert(scalars_model(b@)[i as int] == b@[i as int]@);
                            assert(scalars_model(a@)[i as int] != scalars_model(b@)[i as int]);
                        }
                        return false;
                    }
                    i = i + 1;
                }
                proof {
                    assert(scalars_model(a@) =~= scalars_model(b@));
                }
                true
            },
            _ => false,
        }
    }

    /// `NONE` or `NULL`.
    pub fn is_none_or_null(&self) -> (r: bool)
        ensures
            r == none_or_null(self@),
    {
        match self {
            Value::Scalar(Scalar::Absent) => true,
            Value::Scalar(Scalar::Null) => true,
            _ => false,
        }
    }
}

/// Whether two lists of values hold the same values, position by position.
pub fn same_values(a: &Vec<Value>, b: &Vec<Value>) -> (r: bool)
    ensures
        r == (values_model(a@) == values_model(b@)),
{
    if a.len() != b.len() {
        proof {
            assert(values_model(a@).len() != values_model(b@).len());
        }
        return false;
    }
    let mut i: usize = 0;
    while i < a.len()
        invariant
            i <= a@.len() == b@.len(),
            forall|j: int| 0 <= j < i ==> a@[j]@ == b@[j]@,
        decreases a@.len() - i,
    {
        if !a[i].same_as(&b[i]) {
            proof {
                assert(values_model(a@)[i as int] != values_model(b@)[i as int]);
            }
            return false;
        }
        i = i + 1;
    }
    proof {
        assert(values_model(a@) =~= values_model(b@));
    }
    true
}

/// Whether two optional lists of extracted values are the same.
pub fn same_opt_values(a: &Option<Vec<Value>>, b: &Option<Vec<Value>>) -> (r: bool)
    ensures
        r == (opt_values_model(*a) == opt_values_model(*b)),
{
    match (a, b) {
        (Some(x), Some(y)) => same_values(x, y),
        (None, None) => true,
        _ => false,
    }
}

/// Whether every component of the tuple is `NONE` or `NULL`.
pub fn is_all_none_or_null(t: &Vec<Value>) -> (r: bool)
    ensures
        r == all_none_or_null(values_model(t@)),
{
    let mut i: usize = 0;
    while i < t.len()
        invariant
            i <= t@.len(),
            forall|j: int| 0 <= j < i ==> none_or_null(#[trigger] t@[j]@),
        decreases t@.len() - i,
    {
        if !t[i].is_none_or_null() {
            proof {
                assert(!none_or_null(values_model(t@)[i as int]));
            }
            return false;
        }
        i = i + 1;
    }
    proof {
        assert forall|j: int| 0 <= j < values_model(t@).len() implies none_or_null(
            #[trigger] values_model(t@)[j],
        ) by {
            assert(none_or_null(t@[j]@));
        }
    }
    true
}

} // verus!

verus! {

/// A copy of a list of values.
pub fn copy_values(v: &Vec<Value>) -> (r: Vec<Value>)
    ensures
        values_model(r@) == values_model(v@),
{
    let mut out: Vec<Value> = Vec::new();
    let mut i: usize = 0;
    while i < v.len()
        invariant
            i <= v@.len(),
            out@.len() == i,
            forall|j: int| 0 <= j < i ==> (#[trigger] out@[j])@ == v@[j]@,
        decreases v@.len() - i,
    {
        out.push(v[i].copied());
        i = i + 1;
    }
    assert(values_model(out@) =~= values_model(v@));
    out
}

} // verus!
