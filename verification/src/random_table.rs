//! The weighted spawn table: a list of named entries with relative
//! weights. A draw takes a uniform number below the total weight and
//! walks the table, subtracting each entry's weight until the remainder
//! falls inside the current entry.

use vstd::prelude::*;

verus! {

/// One table entry: a name and its relative weight.
pub struct RandomEntry {
    pub name: String,
    pub weight: i32,
}

impl RandomEntry {
    /// An entry from a name and a weight.
    pub fn new(name: &str, weight: i32) -> (r: RandomEntry)
        ensures
            r.name@ == name@,
            r.weight == weight,
    {
        RandomEntry { name: name.to_owned(), weight }
    }
}

/// Sum of the weights of a list of entries.
pub open spec fn weights_sum(s: Seq<RandomEntry>) -> int
    decreases s.len(),
{
    if s.len() == 0 {
        0
    } else {
        s[0].weight + weights_sum(s.drop_first())
    }
}

/// The entry a draw selects: subtract each weight in table order until
/// the remainder is less than the current entry's weight, and return that
/// entry's name; an exhausted table yields the sentinel.
pub open spec fn spec_roll_result(s: Seq<RandomEntry>, roll: int) -> Seq<char>
    decreases s.len(),
{
    if s.len() == 0 {
        "None"@
    } else if roll < s[0].weight {
        s[0].name@
    } else {
        spec_roll_result(s.drop_first(), roll - s[0].weight)
    }
}

/// A weighted spawn table.
pub struct RandomTable {
    pub entries: Vec<RandomEntry>,
    pub total_weight: i32,
}

impl RandomTable {
    /// Structural invariant: the cached total is the sum of the weights,
    /// and every stored weight is positive.
    pub open spec fn wf(self) -> bool {
        &&& self.total_weight == weights_sum(self.entries@)
        &&& forall|i: int| 0 <= i < self.entries@.len() ==> #[trigger] self.entries@[i].weight > 0
    }

    /// An empty table.
    pub fn new() -> (r: RandomTable)
        ensures
            r.wf(),
            r.entries@.len() == 0,
            r.total_weight == 0,
    {
        RandomTable { entries: Vec::new(), total_weight: 0 }
    }

    /// Add an entry; one with a non-positive weight is ignored.
    pub fn add(self, name: &str, weight: i32) -> (r: RandomTable)
        requires
            self.wf(),
            self.total_weight + weight <= i32::MAX,
        ensures
            r.wf(),
            weight > 0 ==> {
                &&& r.entries@.len() == self.entries@.len() + 1
                &&& forall|i: int|
                    0 <= i < self.entries@.len() ==> r.entries@[i] == #[trigger] self.entries@[i]
                &&& r.entries@[self.entries@.len() as int].name@ == name@
                &&& r.entries@[self.entries@.len() as int].weight == weight
                &&& r.total_weight == self.total_weight + weight
            },
            weight <= 0 ==> r == self,
    {
        if weight > 0 {
            let mut s = self;
            let entry = RandomEntry::new(name, weight);
            let ghost olds = s.entries@;
            s.total_weight = s.total_weight + weight;
            s.entries.push(entry);
            proof {
                lemma_weights_sum_snoc(olds, s.entries@[olds.len() as int]);
            }
            s
        } else {
            self
        }
    }

    /// The name a given draw selects. The draw must lie below the total
    /// weight; with all weights positive it then always lands on an entry.
    pub fn select(&self, roll: i32) -> (r: String)
        requires
            self.wf(),
            0 <= roll < self.total_weight,
        ensures
            r@ == spec_roll_result(self.entries@, roll as int),
    {
        let mut roll_left = roll;
        let mut index: usize = 0;
        proof {
            assert(self.entries@.skip(0) =~= self.entries@);
        }
        while index < self.entries.len() && roll_left >= self.entries[index].weight
            invariant
                self.wf(),
                0 <= index <= self.entries@.len(),
                0 <= roll_left,
                roll_left < weights_sum(self.entries@.skip(index as int)),
                spec_roll_result(self.entries@, roll as int) == spec_roll_result(
                    self.entries@.skip(index as int),
                    roll_left as int,
                ),
            decreases self.entries@.len() - index,
        {
            roll_left = roll_left - self.entries[index].weight;
            index = index + 1;
            proof {
                assert(self.entries@.skip(index as int - 1).drop_first() =~= self.entries@.skip(
                    index as int,
                ));
            }
        }
        if index < self.entries.len() {
            proof {
                assert(self.entries@.skip(index as int)[0] == self.entries@[index as int]);
            }
            self.entries[index].name.clone()
        } else {
            proof {
                assert(self.entries@.skip(index as int).len() == 0);
                assert(false);
            }
            String::from_str("None")
        }
    }

    /// Draw one name: uniform below the total weight, then walk the
    /// table. An empty or zero-weight table yields the sentinel; any
    /// other outcome is the selection of some draw below the total.
    pub fn roll(&self, rng: &mut rltk::RandomNumberGenerator) -> (r: String)
        requires
            self.wf(),
            self.total_weight < i32::MAX,
        ensures
            self.total_weight == 0 ==> r@ == "None"@,
            self.total_weight > 0 ==> exists|roll: int|
                0 <= roll < self.total_weight && r@ == #[trigger] spec_roll_result(
                    self.entries@,
                    roll,
                ),
    {
        if self.total_weight <= 0 {
            proof {
                if self.total_weight < 0 {
                    lemma_weights_sum_nonneg(self.entries@);
                }
            }
            return String::from_str("None");
        }
        let draw = crate::rng::rng_roll_dice(rng, self.total_weight) - 1;
        let r = self.select(draw);
        proof {
            assert(0 <= draw < self.total_weight && r@ == spec_roll_result(
                self.entries@,
                draw as int,
            ));
        }
        r
    }
}

proof fn lemma_weights_sum_nonneg(s: Seq<RandomEntry>)
    requires
        forall|i: int| 0 <= i < s.len() ==> #[trigger] s[i].weight > 0,
    ensures
        weights_sum(s) >= 0,
    decreases s.len(),
{
    if s.len() > 0 {
        lemma_weights_sum_nonneg(s.drop_first());
    }
}

proof fn lemma_weights_sum_snoc(s: Seq<RandomEntry>, e: RandomEntry)
    ensures
        weights_sum(s.push(e)) == weights_sum(s) + e.weight,
    decreases s.len(),
{
    reveal_with_fuel(weights_sum, 3);
    if s.len() == 0 {
        assert(s.push(e)[0] == e);
        assert(s.push(e).drop_first() =~= Seq::<RandomEntry>::empty());
    } else {
        assert(s.push(e)[0] == s[0]);
        assert(s.push(e).drop_first() =~= s.drop_first().push(e));
        lemma_weights_sum_snoc(s.drop_first(), e);
    }
}

} // verus!
