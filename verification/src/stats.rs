//! Per-connection statistics values and the aggregated table rows.
use vstd::prelude::*;
use crate::text::{int_text, i64_text};

verus! {

/// Mathematical model of one statistic value: a number, or an opaque text
/// compared by its canonical string form.
pub enum ValModel {
    Num(i64),
    Text(Seq<char>),
}

/// One statistic value reported for a connection. Non-numeric
/// representations are opaque: they only take part in distinct counts.
pub enum StatsValue {
    Number(i64),
    Other(String),
}

impl View for StatsValue {
    type V = ValModel;

    open spec fn view(&self) -> ValModel {
        match self {
            StatsValue::Number(n) => ValModel::Num(*n),
            StatsValue::Other(s) => ValModel::Text(s@),
        }
    }
}

impl Clone for StatsValue {
    /// A clone carries the same model.
    fn clone(&self) -> (r: Self)
        ensures
            r@ == self@,
    {
        match self {
            StatsValue::Number(n) => StatsValue::Number(*n),
            StatsValue::Other(s) => StatsValue::Other(s.clone()),
        }
    }
}

/// The string form a value is displayed and pattern-matched under: the
/// decimal text of a number, the text itself otherwise.
pub open spec fn val_text(v: ValModel) -> Seq<char> {
    match v {
        ValModel::Num(n) => int_text(n as int),
        ValModel::Text(s) => s,
    }
}

impl StatsValue {
    /// Equality of the models: numbers by value, opaque values by their
    /// canonical string form.
    pub fn model_eq(&self, other: &StatsValue) -> (r: bool)
        ensures
            r == (self@ == other@),
    {
        match (self, other) {
            (StatsValue::Number(a), StatsValue::Number(b)) => *a == *b,
            (StatsValue::Other(a), StatsValue::Other(b)) => a.eq(b),
            _ => false,
        }
    }

    /// The display text of the value.
    pub fn to_text(&self) -> (r: String)
        ensures
            r@ == val_text(self@),
    {
        match self {
            StatsValue::Number(n) => i64_text(*n),
            StatsValue::Other(s) => s.clone(),
        }
    }
}

/// The statistics one connection reported at one instant: a mapping, given
/// as key/value pairs whose order carries no meaning.
pub type Stats = Vec<(String, StatsValue)>;

/// The model of such a mapping.
pub open spec fn stats_model(s: Seq<(String, StatsValue)>) -> Seq<(Seq<char>, ValModel)> {
    s.map_values(|p: (String, StatsValue)| (p.0@, p.1@))
}

/// One monitored connection's statistics.
pub struct ConnectionStats {
    pub stats: Stats,
}

impl View for ConnectionStats {
    type V = Seq<(Seq<char>, ValModel)>;

    open spec fn view(&self) -> Seq<(Seq<char>, ValModel)> {
        stats_model(self.stats@)
    }
}

/// Sum of the numeric values in a sequence of models; non-numeric entries
/// contribute nothing.
pub open spec fn num_sum(s: Seq<ValModel>) -> int
    decreases s.len(),
{
    if s.len() == 0 {
        0
    } else {
        num_sum(s.drop_last()) + match s.last() {
            ValModel::Num(n) => n as int,
            ValModel::Text(_) => 0,
        }
    }
}

/// Whether every value in the sequence is numeric.
pub open spec fn all_numeric(s: Seq<ValModel>) -> bool {
    forall|i: int| 0 <= i < s.len() ==> s[i] is Num
}

/// A partial numeric sum of `n` 64-bit values stays well within `i128`.
proof fn lemma_num_sum_bound(s: Seq<ValModel>)
    ensures
        -(s.len() * 0x8000_0000_0000_0000) <= num_sum(s) <= s.len() * 0x8000_0000_0000_0000,
    decreases s.len(),
{
    if s.len() == 0 {
    } else {
        lemma_num_sum_bound(s.drop_last());
        assert((s.len() - 1) * 0x8000_0000_0000_0000 + 0x8000_0000_0000_0000 == s.len()
            * 0x8000_0000_0000_0000) by (nonlinear_arith);
    }
}

/// The models of a sequence of values.
pub open spec fn models_of(vs: Seq<StatsValue>) -> Seq<ValModel> {
    vs.map_values(|v: StatsValue| v@)
}

/// One row of the aggregated view: a statistic key and the distinct values
/// observed for it across the connections matching the active tab.
pub struct StatsItem {
    pub key: String,
    pub values: Vec<StatsValue>,
}

impl StatsItem {
    /// The distinct value models this row holds.
    pub open spec fn val_set(&self) -> Set<ValModel> {
        models_of(self.values@).to_set()
    }

    /// The aggregate of the row, per the strict either/or rule: the sum of
    /// the values when every one of them is numeric, else the count of the
    /// distinct values (the row's values are already deduplicated, so that
    /// count is their number).
    pub fn aggregated_value(&self) -> (r: Result<i128, usize>)
        ensures
            all_numeric(models_of(self.values@)) ==> r == Ok::<i128, usize>(
                num_sum(models_of(self.values@)) as i128,
            ),
            !all_numeric(models_of(self.values@)) ==> r == Err::<i128, usize>(
                self.values@.len() as usize,
            ),
    {
        let ghost models = models_of(self.values@);
        let mut sum: i128 = 0;
        let mut i: usize = 0;
        proof {
            assert(models.take(0) =~= Seq::<ValModel>::empty());
        }
        while i < self.values.len()
            invariant
                0 <= i <= self.values.len(),
                models == models_of(self.values@),
                models.len() == self.values@.len(),
                sum == num_sum(models.take(i as int)),
                all_numeric(models.take(i as int)),
            decreases self.values.len() - i,
        {
            proof {
                lemma_num_sum_bound(models.take(i as int));
                assert(models.take(i + 1).drop_last() =~= models.take(i as int));
            }
            match &self.values[i] {
                StatsValue::Number(n) => {
                    sum = sum + (*n as i128);
                },
                StatsValue::Other(_) => {
                    assert(!(models[i as int] is Num));
                    return Err(self.values.len());
                },
            }
            i = i + 1;
        }
        proof {
            assert(models.take(models.len() as int) =~= models);
        }
        Ok(sum)
    }
}

} // verus!
