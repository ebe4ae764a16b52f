use vstd::prelude::*;
use crate::value::{Scalar, Value, ScalarModel, ValueModel, values_model, scalars_model};

verus! {

/// The values that one column contributes to the tuples, in order.
///
/// An array in a column that is not flattened is spread out, one tuple
/// position per element; an empty array still contributes a single `NULL`.
/// Any other value, and an array in a flattened column, is used as it is.
pub open spec fn column_choices(v: ValueModel, flatten: bool) -> Seq<ValueModel> {
    match v {
        ValueModel::Array(a) if !flatten => if a.len() == 0 {
            seq![ValueModel::Scalar(ScalarModel::Null)]
        } else {
            a.map_values(|s: ScalarModel| ValueModel::Scalar(s))
        },
        _ => seq![v],
    }
}

/// The models of a source list: each extracted value with whether its
/// column is flattened.
pub open spec fn source_model(source: Seq<(Value, bool)>) -> Seq<(ValueModel, bool)> {
    source.map_values(|p: (Value, bool)| (p.0@, p.1))
}

/// The choices of every column of a source list.
pub open spec fn source_choices(source: Seq<(ValueModel, bool)>) -> Seq<Seq<ValueModel>> {
    source.map_values(|p: (ValueModel, bool)| column_choices(p.0, p.1))
}

/// The Cartesian product of the columns' choices, in lexicographic order:
/// the leftmost column varies slowest.
pub open spec fn product(cols: Seq<Seq<ValueModel>>) -> Seq<Seq<ValueModel>>
    decreases cols.len(),
{
    if cols.len() == 0 {
        seq![Seq::empty()]
    } else {
        let rest = product(cols.drop_first());
        Seq::new(
            (cols[0].len() * rest.len()) as nat,
            |r: int| seq![cols[0][r / rest.len() as int]] + rest[r % rest.len() as int],
        )
    }
}

/// The product of the sizes of the columns.
pub open spec fn size_product(cols: Seq<Seq<ValueModel>>) -> nat
    decreases cols.len(),
{
    if cols.len() == 0 {
        1
    } else {
        cols[0].len() * size_product(cols.drop_first())
    }
}

/// The tuples that a source list expands to.
pub open spec fn tuples_of(source: Seq<(ValueModel, bool)>) -> Seq<Seq<ValueModel>> {
    product(source_choices(source))
}

/// The number of tuples is the product of the numbers of choices.
pub proof fn lemma_product_len(cols: Seq<Seq<ValueModel>>)
    ensures
        product(cols).len() == size_product(cols),
    decreases cols.len(),
{
    if cols.len() > 0 {
        lemma_product_len(cols.drop_first());
    }
}

/// Every column offers at least one choice.
pub proof fn lemma_choices_nonempty(v: ValueModel, flatten: bool)
    ensures
        column_choices(v, flatten).len() >= 1,
{
}

proof fn lemma_suffix_product_bounded(cols: Seq<Seq<ValueModel>>, i: int)
    requires
        0 <= i <= cols.len(),
        forall|j: int| 0 <= j < cols.len() ==> (#[trigger] cols[j]).len() >= 1,
    ensures
        1 <= product(cols.subrange(i, cols.len() as int)).len() <= product(cols).len(),
    decreases cols.len(),
{
    lemma_product_len(cols);
    lemma_product_len(cols.subrange(i, cols.len() as int));
    if cols.len() > 0 {
        let rest = cols.drop_first();
        assert forall|j: int| 0 <= j < rest.len() implies (#[trigger] rest[j]).len() >= 1 by {
            assert(rest[j] == cols[j + 1]);
        }
        lemma_product_len(rest);
        if i == 0 {
            assert(cols.subrange(0, cols.len() as int) =~= cols);
            lemma_suffix_product_bounded(rest, 0);
            assert(rest.subrange(0, rest.len() as int) =~= rest);
            let a = cols[0].len();
            let b = size_product(rest);
            assert(a * b >= b) by (nonlinear_arith)
                requires a >= 1, b >= 1;
        } else {
            lemma_suffix_product_bounded(rest, i - 1);
            assert(rest.subrange(i - 1, rest.len() as int) =~= cols.subrange(i, cols.len() as int));
            let a = cols[0].len();
            let b = size_product(rest);
            assert(a * b >= b) by (nonlinear_arith)
                requires a >= 1, b >= 1;
        }
    }
}

/// One step of the product: splitting off the first column.
proof fn lemma_product_step(cols: Seq<Seq<ValueModel>>, i: int, r: int)
    requires
        0 <= i < cols.len(),
        forall|j: int| 0 <= j < cols.len() ==> (#[trigger] cols[j]).len() >= 1,
        0 <= r < product(cols.subrange(i, cols.len() as int)).len(),
    ensures
        ({
            let sub = cols.subrange(i, cols.len() as int);
            let next = product(cols.subrange(i + 1, cols.len() as int));
            &&& next.len() >= 1
            &&& product(sub).len() == cols[i].len() * next.len()
            &&& 0 <= r / (next.len() as int) < cols[i].len()
            &&& product(sub)[r] == seq![cols[i][r / next.len() as int]] + next[r % next.len() as int]
        }),
{
    let sub = cols.subrange(i, cols.len() as int);
    assert(sub.drop_first() =~= cols.subrange(i + 1, cols.len() as int));
    lemma_suffix_product_bounded(cols, i + 1);
    let next = product(cols.subrange(i + 1, cols.len() as int));
    let n = next.len() as int;
    let c = cols[i].len() as int;
    assert(r < c * n);
    assert(0 <= r / n < c) by (nonlinear_arith)
        requires 0 <= r < c * n, n >= 1;
}

/// A lazy enumeration of the indexable tuples of a list of extracted
/// values: one column of choices per value, and the rank of the next tuple.
pub struct Combinator {
    columns: Vec<Vec<Value>>,
    /// `sizes[i]` is the number of tuples over the columns after `i`.
    sizes: Vec<usize>,
    total: usize,
    position: usize,
}

impl Combinator {
    /// The choices of each column.
    pub closed spec fn columns(&self) -> Seq<Seq<ValueModel>> {
        self.columns@.map_values(|c: Vec<Value>| values_model(c@))
    }

    /// Every tuple that this combinator enumerates, in order.
    pub closed spec fn tuples(&self) -> Seq<Seq<ValueModel>> {
        product(self.columns())
    }

    /// How many tuples have been handed out.
    pub closed spec fn position(&self) -> nat {
        self.position as nat
    }

    /// Every column has a choice, the sizes are the suffix products, and the
    /// position is within the enumeration.
    pub closed spec fn wf(&self) -> bool {
        let k = self.columns@.len();
        &&& self.sizes@.len() == k
        &&& forall|j: int| 0 <= j < k ==> (#[trigger] self.columns()[j]).len() >= 1
        &&& forall|j: int| 0 <= j < k ==> #[trigger] self.sizes@[j] == product(
            self.columns().subrange(j + 1, k as int),
        ).len()
        &&& self.total == product(self.columns()).len()
        &&& self.position <= self.total
    }

    /// Builds the combinator over `source`: each extracted value paired
    /// with whether its column is flattened.
    pub fn new(source: Vec<(Value, bool)>) -> (r: Self)
        requires
            tuples_of(source_model(source@)).len() <= usize::MAX,
        ensures
            r.wf(),
            r.tuples() == tuples_of(source_model(source@)),
            r.position() == 0,
    {
        let k = source.len();
        let mut columns: Vec<Vec<Value>> = Vec::new();
        let mut i: usize = 0;
        while i < k
            invariant
                k == source@.len(),
                i <= k,
                columns@.len() == i,
                forall|j: int| 0 <= j < i ==> values_model((#[trigger] columns@[j])@)
                    == column_choices(source@[j].0@, source@[j].1),
            decreases k - i,
        {
            let col = column_values(&source[i].0, source[i].1);
            columns.push(col);
            i = i + 1;
        }
        let ghost cols = columns@.map_values(|c: Vec<Value>| values_model(c@));
        assert(cols =~= source_choices(source_model(source@)));
        assert forall|j: int| 0 <= j < k implies (#[trigger] cols[j]).len() >= 1 by {
            lemma_choices_nonempty(source@[j].0@, source@[j].1);
        }
        let mut sizes: Vec<usize> = vec![1usize; k];
        let mut acc: usize = 1;
        proof {
            assert(cols.subrange(k as int, k as int) =~= Seq::<Seq<ValueModel>>::empty());
        }
        let mut i: usize = k;
        while i > 0
            invariant
                k == columns@.len(),
                cols == columns@.map_values(|c: Vec<Value>| values_model(c@)),
                cols == source_choices(source_model(source@)),
                product(cols).len() <= usize::MAX,
                forall|j: int| 0 <= j < k ==> (#[trigger] cols[j]).len() >= 1,
                i <= k,
                sizes@.len() == k,
                acc == product(cols.subrange(i as int, k as int)).len(),
                forall|j: int| i <= j < k ==> #[trigger] sizes@[j] == product(
                    cols.subrange(j + 1, k as int),
                ).len(),
            decreases i,
        {
            proof {
                lemma_suffix_product_bounded(cols, i - 1);
                lemma_product_step(cols, i - 1, 0);
            }
            sizes.set(i - 1, acc);
            acc = columns[i - 1].len() * acc;
            i = i - 1;
        }
        proof {
            assert(cols.subrange(0, k as int) =~= cols);
        }
        Combinator { columns, sizes, total: acc, position: 0 }
    }

    /// Hands out the next tuple, or `None` once every tuple has been.
    pub fn next(&mut self) -> (r: Option<Vec<Value>>)
        requires
            old(self).wf(),
        ensures
            final(self).wf(),
            final(self).tuples() == old(self).tuples(),
            match r {
                Some(t) => {
                    &&& old(self).position() < old(self).tuples().len()
                    &&& values_model(t@) == old(self).tuples()[old(self).position() as int]
                    &&& final(self).position() == old(self).position() + 1
                },
                None => {
                    &&& old(self).position() == old(self).tuples().len()
                    &&& final(self).position() == old(self).position()
                },
            },
    {
        let k = self.columns.len();
        let ghost cols = self.columns();
        proof {
            assert(cols.subrange(0, k as int) =~= cols);
        }
        if self.position >= self.total {
            return None;
        }
        let mut out: Vec<Value> = Vec::new();
        let mut rem: usize = self.position;
        let mut i: usize = 0;
        while i < k
            invariant
                self.wf(),
                cols == self.columns(),
                k == self.columns@.len(),
                i <= k,
                self.position < self.total,
                rem < product(cols.subrange(i as int, k as int)).len(),
                product(cols)[self.position as int] == values_model(out@) + product(
                    cols.subrange(i as int, k as int),
                )[rem as int],
            decreases k - i,
        {
            proof {
                lemma_product_step(cols, i as int, rem as int);
            }
            let s = self.sizes[i];
            let d = rem / s;
            let v = self.columns[i][d].copied();
            proof {
                assert(cols[i as int][d as int] == v@);
            }
            let ghost before = out@;
            out.push(v);
            proof {
                assert(values_model(out@) =~= values_model(before).push(v@));
                assert(values_model(out@) + product(cols.subrange(i + 1, k as int))[(rem % s) as int]
                    =~= values_model(before) + (seq![v@] + product(cols.subrange(i + 1, k as int))[(rem % s) as int]));
            }
            rem = rem % s;
            i = i + 1;
        }
        proof {
            assert(cols.subrange(k as int, k as int) =~= Seq::<Seq<ValueModel>>::empty());
            assert(values_model(out@) + Seq::<ValueModel>::empty() =~= values_model(out@));
        }
        self.position = self.position + 1;
        Some(out)
    }
}

/// The choices of one column, as values.
fn column_values(v: &Value, flatten: bool) -> (r: Vec<Value>)
    ensures
        values_model(r@) == column_choices(v@, flatten),
{
    match v {
        Value::Array(a) if !flatten => {
            if a.len() == 0 {
                let r = vec![Value::Scalar(Scalar::Null)];
                proof {
                    assert(values_model(r@) =~= column_choices(v@, flatten));
                }
                return r;
            }
            let mut r: Vec<Value> = Vec::new();
            let mut i: usize = 0;
            while i < a.len()
                invariant
                    i <= a@.len(),
                    r@.len() == i,
                    forall|j: int| 0 <= j < i ==> (#[trigger] r@[j])@ == ValueModel::Scalar(a@[j]@),
                decreases a@.len() - i,
            {
                r.push(Value::Scalar(a[i].copied()));
                i = i + 1;
            }
            proof {
                assert(values_model(r@) =~= scalars_model(a@).map_values(
                    |s: ScalarModel| ValueModel::Scalar(s),
                ));
            }
            r
        },
        _ => {
            let r = vec![v.copied()];
            proof {
                assert(values_model(r@) =~= column_choices(v@, flatten));
            }
            r
        },
    }
}

} // verus!
