//! The share balances that the pool keeps, one row for each account.

use vstd::prelude::*;

use crate::address::Address;

verus! {

#[derive(Copy, Clone, Debug, PartialEq, Eq)]
struct Row {
    id: Address,
    amount: i128,
}

/// No account has two rows.
spec fn distinct(rows: Seq<Row>) -> bool {
    forall|i: int, j: int|
        0 <= i < j < rows.len() ==> (#[trigger] rows[i]).id != (#[trigger] rows[j]).id
}

/// The rows as a map from account to balance.
spec fn tabulate(rows: Seq<Row>) -> Map<Address, i128>
    decreases rows.len(),
{
    if rows.len() == 0 {
        Map::empty()
    } else {
        tabulate(rows.drop_last()).insert(rows.last().id, rows.last().amount)
    }
}

proof fn lemma_tabulate(rows: Seq<Row>)
    requires
        distinct(rows),
    ensures
        forall|i: int|
            0 <= i < rows.len() ==> tabulate(rows).contains_key((#[trigger] rows[i]).id) && tabulate(
                rows,
            )[rows[i].id] == rows[i].amount,
        forall|id: Address| #[trigger]
            tabulate(rows).contains_key(id) ==> exists|i: int|
                0 <= i < rows.len() && (#[trigger] rows[i]).id == id,
    decreases rows.len(),
{
    if rows.len() > 0 {
        let front = rows.drop_last();
        assert(distinct(front)) by {
            assert forall|i: int, j: int| 0 <= i < j < front.len() implies (#[trigger] front[i]).id
                != (#[trigger] front[j]).id by {
                assert(front[i] == rows[i] && front[j] == rows[j]);
            }
        }
        lemma_tabulate(front);
        assert forall|i: int| 0 <= i < rows.len() implies tabulate(rows).contains_key(
            (#[trigger] rows[i]).id,
        ) && tabulate(rows)[rows[i].id] == rows[i].amount by {
            if i < front.len() {
                assert(front[i] == rows[i]);
                assert(rows[i].id != rows[rows.len() - 1].id);
            }
        }
        assert forall|id: Address| #[trigger] tabulate(rows).contains_key(id) implies exists|i: int|
            0 <= i < rows.len() && (#[trigger] rows[i]).id == id by {
            if id == rows.last().id {
                assert(rows[rows.len() - 1].id == id);
            } else {
                assert(tabulate(front).contains_key(id));
                let i = choose|i: int| 0 <= i < front.len() && (#[trigger] front[i]).id == id;
                assert(rows[i].id == id);
            }
        }
    }
}

/// Share balances by account. An account that was never credited, or that has
/// given everything away, has no row at all.
#[derive(Debug)]
pub struct ShareBook {
    rows: Vec<Row>,
}

impl View for ShareBook {
    type V = Map<Address, i128>;

    closed spec fn view(&self) -> Map<Address, i128> {
        tabulate(self.rows@)
    }
}

impl ShareBook {
    #[verifier::type_invariant]
    spec fn well_formed(self) -> bool {
        distinct(self.rows@)
    }

    /// A book without any row.
    pub fn new() -> (book: Self)
        ensures
            book@ == Map::<Address, i128>::empty(),
    {
        ShareBook { rows: Vec::new() }
    }

    /// The index of the row of `id`.
    fn position(rows: &Vec<Row>, id: Address) -> (found: Option<usize>)
        ensures
            match found {
                Some(i) => i < rows.len() && rows[i as int].id == id,
                None => forall|i: int| 0 <= i < rows.len() ==> (#[trigger] rows[i]).id != id,
            },
    {
        let mut i: usize = 0;
        while i < rows.len()
            invariant
                i <= rows.len(),
                forall|j: int| 0 <= j < i ==> (#[trigger] rows[j]).id != id,
            decreases rows.len() - i,
        {
            if rows[i].id == id {
                return Some(i);
            }
            i += 1;
        }
        None
    }

    /// The balance in the row of `id`, if there is one.
    pub fn get(&self, id: Address) -> (amount: Option<i128>)
        ensures
            amount == if self@.contains_key(id) {
                Some(self@[id])
            } else {
                None
            },
    {
        proof {
            use_type_invariant(&*self);
            lemma_tabulate(self.rows@);
        }
        match Self::position(&self.rows, id) {
            Some(i) => Some(self.rows[i].amount),
            None => None,
        }
    }

    /// Makes `amount` the balance of `id`, in a new row if it had none.
    pub fn set(&mut self, id: Address, amount: i128)
        ensures
            final(self)@ == old(self)@.insert(id, amount),
    {
        proof {
            use_type_invariant(&*self);
            lemma_tabulate(self.rows@);
        }
        let mut rows: Vec<Row> = Vec::new();
        std::mem::swap(&mut rows, &mut self.rows);
        let ghost before = rows@;
        match Self::position(&rows, id) {
            Some(i) => {
                rows.set(i, Row { id, amount });
                proof {
                    assert(distinct(rows@)) by {
                        assert forall|k: int, j: int| 0 <= k < j < rows@.len() implies (
                        #[trigger] rows@[k]).id != (#[trigger] rows@[j]).id by {
                            assert(before[k].id == rows@[k].id && before[j].id == rows@[j].id);
                        }
                    }
                    lemma_tabulate(rows@);
                    assert(tabulate(rows@) =~= tabulate(before).insert(id, amount)) by {
                        assert forall|k: Address|
                            tabulate(rows@).contains_key(k) <==> tabulate(before).insert(
                                id,
                                amount,
                            ).contains_key(k) by {
                            if tabulate(rows@).contains_key(k) {
                                let j = choose|j: int|
                                    0 <= j < rows@.len() && (#[trigger] rows@[j]).id == k;
                                assert(before[j].id == k);
                            }
                            if tabulate(before).contains_key(k) {
                                let j = choose|j: int|
                                    0 <= j < before.len() && (#[trigger] before[j]).id == k;
                                assert(rows@[j].id == k);
                            }
                            assert(rows@[i as int].id == id);
                        }
                        assert forall|k: Address| tabulate(rows@).contains_key(k) implies tabulate(
                            rows@,
                        )[k] == tabulate(before).insert(id, amount)[k] by {
                            let j = choose|j: int|
                                0 <= j < rows@.len() && (#[trigger] rows@[j]).id == k;
                            assert(before[j].id == k);
                            if j != i {
                                assert(before[j].id != before[i as int].id);
                            }
                        }
                    }
                }
            },
            None => {
                rows.push(Row { id, amount });
                proof {
                    assert(rows@.drop_last() =~= before);
                }
            },
        }
        self.rows = rows;
    }

    /// Drops the row of `id`, if there is one.
    pub fn remove(&mut self, id: Address)
        ensures
            final(self)@ == old(self)@.remove(id),
    {
        proof {
            use_type_invariant(&*self);
            lemma_tabulate(self.rows@);
        }
        let mut rows: Vec<Row> = Vec::new();
        std::mem::swap(&mut rows, &mut self.rows);
        let ghost before = rows@;
        match Self::position(&rows, id) {
            Some(i) => {
                rows.remove(i);
                proof {
                    let at = i as int;
                    assert(forall|k: int| 0 <= k < rows@.len() ==> #[trigger] rows@[k] == before[if k < at {
                        k
                    } else {
                        k + 1
                    }]);
                    assert(distinct(rows@));
                    lemma_tabulate(rows@);
                    assert(tabulate(rows@) =~= tabulate(before).remove(id)) by {
                        assert forall|k: Address|
                            tabulate(rows@).contains_key(k) <==> tabulate(before).remove(
                                id,
                            ).contains_key(k) by {
                            if tabulate(rows@).contains_key(k) {
                                let j = choose|j: int|
                                    0 <= j < rows@.len() && (#[trigger] rows@[j]).id == k;
                                let b = if j < at {
                                    j
                                } else {
                                    j + 1
                                };
                                assert(before[b].id == k);
                                assert(before[at].id == id);
                                assert(k != id);
                            }
                            if tabulate(before).contains_key(k) && k != id {
                                let b = choose|b: int|
                                    0 <= b < before.len() && (#[trigger] before[b]).id == k;
                                let j = if b < at {
                                    b
                                } else {
                                    b - 1
                                };
                                assert(rows@[j].id == k);
                            }
                        }
                        assert forall|k: Address| tabulate(rows@).contains_key(k) implies tabulate(
                            rows@,
                        )[k] == tabulate(before).remove(id)[k] by {
                            let j = choose|j: int|
                                0 <= j < rows@.len() && (#[trigger] rows@[j]).id == k;
                            let b = if j < at {
                                j
                            } else {
                                j + 1
                            };
                            assert(before[b].id == k);
                        }
                    }
                }
            },
            None => {
                assert(tabulate(before) =~= tabulate(before).remove(id));
            },
        }
        self.rows = rows;
    }
}

} // verus!
