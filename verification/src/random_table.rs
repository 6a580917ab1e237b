//! A weighted random table: entries are added with weights, and a roll
//! partitions the total weight into chunks, returning the entry whose chunk
//! the roll falls into, or "None" when it falls outside every chunk.

use vstd::prelude::*;
use crate::rng::GameRng;

verus! {

pub struct RandomEntry {
    name: String,
    weight: i32,
}

impl RandomEntry {
    pub closed spec fn spec_name(&self) -> Seq<char> {
        self.name@
    }

    pub closed spec fn spec_weight(&self) -> int {
        self.weight as int
    }

    pub fn new(name: &str, weight: i32) -> (r: RandomEntry)
        ensures
            r.spec_name() == name@,
            r.spec_weight() == weight,
    {
        RandomEntry { name: String::from_str(name), weight }
    }
}

pub struct RandomTable {
    entries: Vec<RandomEntry>,
    total_weight: i32,
}

/// The guarded weight walk: starting at entry `i` with `roll` left, return
/// the entry whose chunk the roll lands in; "None" when the roll is spent
/// or the entries run out.
pub open spec fn table_pick(s: Seq<(Seq<char>, int)>, i: int, roll: int) -> Seq<char>
    decreases s.len() - i,
{
    if roll <= 0 || i < 0 || i >= s.len() {
        "None"@
    } else if roll < s[i].1 {
        s[i].0
    } else {
        table_pick(s, i + 1, roll - s[i].1)
    }
}

impl RandomTable {
    /// The entries as (name, weight) pairs.
    pub closed spec fn spec_entries(&self) -> Seq<(Seq<char>, int)> {
        self.entries@.map_values(|e: RandomEntry| (e.spec_name(), e.spec_weight()))
    }

    pub closed spec fn spec_total(&self) -> int {
        self.total_weight as int
    }

    pub fn new() -> (r: RandomTable)
        ensures
            r.spec_entries().len() == 0,
            r.spec_total() == 0,
    {
        RandomTable { entries: Vec::new(), total_weight: 0 }
    }

    /// Add one weighted entry, accumulating the total weight.
    pub fn add(self, name: &str, weight: i32) -> (r: RandomTable)
        requires
            i32::MIN <= self.spec_total() + weight <= i32::MAX,
        ensures
            r.spec_entries() == self.spec_entries().push((name@, weight as int)),
            r.spec_total() == self.spec_total() + weight,
    {
        let mut entries = self.entries;
        let total = self.total_weight + weight;
        let ghost pre = entries@;
        entries.push(RandomEntry::new(name, weight));
        let r = RandomTable { entries, total_weight: total };
        proof {
            assert(r.spec_entries() =~= self.spec_entries().push((name@, weight as int)));
        }
        r
    }

    /// Roll against the table: a die roll in [1, total] picks a chunk; the
    /// result is the picked entry's name, or "None" when the total is not
    /// positive or the roll spends itself before landing.
    pub fn roll(&self, rng: &mut GameRng) -> (r: String)
        requires
            self.spec_total() < i32::MAX,
            self.spec_entries().len() <= 1000000000,
        ensures
            self.spec_total() <= 0 ==> r@ == "None"@,
            self.spec_total() > 0 ==> exists|rv: int|
                1 <= rv <= self.spec_total() && r@ == #[trigger] table_pick(
                    self.spec_entries(),
                    0,
                    rv - 1,
                ),
    {
        if self.total_weight <= 0 {
            return String::from_str("None");
        }
        let rv = rng.roll_dice(1, self.total_weight);
        let mut roll: i64 = (rv as i64) - 1;
        let mut index: usize = 0;
        let n = self.entries.len();
        while roll > 0 && index < n
            invariant
                self.spec_total() > 0,
                1 <= rv <= self.spec_total(),
                n == self.entries@.len(),
                n == self.spec_entries().len(),
                n <= 1000000000,
                0 <= index <= n,
                -2147483648 * ((index as i64) + 1) <= roll <= 2147483647 + 2147483648 * (
                index as i64),
                table_pick(self.spec_entries(), 0, rv - 1) == table_pick(
                    self.spec_entries(),
                    index as int,
                    roll as int,
                ),
                forall|k: int| 0 <= k < n ==> self.spec_entries()[k] == ((
                #[trigger] self.entries@[k]).spec_name(), self.entries@[k].spec_weight()),
            decreases n - index,
        {
            let w = self.entries[index].weight;
            proof {
                assert(self.spec_entries()[index as int].1 == w);
            }
            if roll < (w as i64) {
                let picked = self.entries[index].name.clone();
                proof {
                    assert(picked@ == self.spec_entries()[index as int].0);
                    assert(picked@ == table_pick(self.spec_entries(), 0, rv - 1));
                }
                return picked;
            }
            let ghost roll0 = roll;
            roll = roll - (w as i64);
            proof {
                assert(-2147483648 * ((index as i64) + 2) <= roll <= 2147483647 + 2147483648 * ((
                index as i64) + 1)) by (nonlinear_arith)
                    requires
                        -2147483648 * ((index as i64) + 1) <= roll0 <= 2147483647 + 2147483648 * (
                        index as i64),
                        roll0 - 2147483648 <= roll <= roll0 + 2147483648,
                        0 <= index < 1000000000,
                ;
            }
            index = index + 1;
        }
        proof {
            assert(table_pick(self.spec_entries(), index as int, roll as int) == "None"@);
            assert("None"@ == table_pick(self.spec_entries(), 0, rv - 1));
        }
        String::from_str("None")
    }
}

} // verus!
