//! Level-scaled step tables: ordered (threshold, value) pairs looked up
//! by dungeon depth.

use vstd::prelude::*;

verus! {

/// After depth `level`, the table yields `value`.
#[derive(Clone, Copy, Debug, PartialEq, Eq, Structural)]
pub struct Transition {
    pub level: u32,
    pub value: u32,
}

/// The value of the last entry whose threshold is at or below `level`,
/// scanning from the back; 0 when no entry qualifies.
pub open spec fn spec_lookup(table: Seq<Transition>, level: u32) -> u32
    decreases table.len(),
{
    if table.len() == 0 {
        0
    } else if table.last().level <= level {
        table.last().value
    } else {
        spec_lookup(table.drop_last(), level)
    }
}

/// Returns a value that depends on the dungeon level. The table gives the
/// value that applies from each threshold level on; the default is 0.
pub fn from_dungeon_level(table: &Vec<Transition>, level: u32) -> (r: u32)
    ensures
        r == spec_lookup(table@, level),
{
    proof {
        assert(table@.take(table@.len() as int) =~= table@);
    }
    let mut i: usize = table.len();
    while i > 0
        invariant
            i <= table@.len(),
            spec_lookup(table@, level) == spec_lookup(table@.take(i as int), level),
        decreases i,
    {
        i = i - 1;
        if table[i].level <= level {
            proof {
                assert(table@.take(i + 1).last() == table@[i as int]);
            }
            return table[i].value;
        }
        proof {
            assert(table@.take(i + 1).drop_last() =~= table@.take(i as int));
            assert(table@.take(i + 1).last() == table@[i as int]);
        }
    }
    0
}

/// Thresholds strictly increase along the table.
pub open spec fn table_sorted(table: Seq<Transition>) -> bool {
    forall|i: int, j: int|
        0 <= i < j < table.len() ==> table[i].level < table[j].level
}

/// On a sorted table the lookup is the entry with the highest qualifying
/// threshold: if entry `k` qualifies and no later entry does, its value
/// is returned.
pub proof fn lemma_lookup_sorted(table: Seq<Transition>, level: u32, k: int)
    requires
        0 <= k < table.len(),
        table[k].level <= level,
        forall|j: int| k < j < table.len() ==> table[j].level > level,
    ensures
        spec_lookup(table, level) == table[k].value,
    decreases table.len(),
{
    if k == table.len() - 1 {
        assert(table.last() == table[k]);
    } else {
        assert(table.last() == table[table.len() - 1]);
        assert(table.last().level > level);
        assert(forall|j: int|
            k < j < table.drop_last().len() ==> table.drop_last()[j].level > level);
        lemma_lookup_sorted(table.drop_last(), level, k);
    }
}

/// When no threshold is at or below `level`, the lookup falls back to 0.
pub proof fn lemma_lookup_default(table: Seq<Transition>, level: u32)
    requires
        forall|j: int| 0 <= j < table.len() ==> table[j].level > level,
    ensures
        spec_lookup(table, level) == 0,
    decreases table.len(),
{
    if table.len() > 0 {
        assert(table.last() == table[table.len() - 1]);
        lemma_lookup_default(table.drop_last(), level);
    }
}

/// A lookup never invents a value: it returns 0 or the value of some
/// qualifying entry.
pub proof fn lemma_lookup_in_values(table: Seq<Transition>, level: u32)
    ensures
        spec_lookup(table, level) == 0 || exists|i: int|
            0 <= i < table.len() && table[i].value == spec_lookup(table, level) && table[i].level
                <= level,
    decreases table.len(),
{
    if table.len() > 0 {
        if table.last().level <= level {
            assert(table.last() == table[table.len() - 1]);
        } else {
            lemma_lookup_in_values(table.drop_last(), level);
            if spec_lookup(table, level) != 0 {
                let i = choose|i: int|
                    0 <= i < table.drop_last().len() && table.drop_last()[i].value == spec_lookup(
                        table.drop_last(),
                        level,
                    ) && table.drop_last()[i].level <= level;
                assert(table[i] == table.drop_last()[i]);
            }
        }
    }
}

} // verus!
