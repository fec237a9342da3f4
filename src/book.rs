//! Balance books: one amount per holder, with their sums.

use vstd::prelude::*;

use crate::ids::Address;

verus! {

/// One holder's amount in a balance book.
///
/// A book is a `Vec<Balance>` with at most one entry per holder and no zero entries:
/// a holder whose amount drops to zero loses the entry.
#[derive(Clone, Copy, Debug, PartialEq, Eq)]
pub struct Balance {
    pub holder: Address,
    pub amount: u128,
}

/// The sum of all amounts in a book.
pub open spec fn total(s: Seq<Balance>) -> int
    decreases s.len(),
{
    if s.len() == 0 {
        0
    } else {
        total(s.drop_last()) + s.last().amount
    }
}

/// What `who` holds in a book (zero when absent).
pub open spec fn balance_of(s: Seq<Balance>, who: Address) -> int
    decreases s.len(),
{
    if s.len() == 0 {
        0
    } else {
        balance_of(s.drop_last(), who) + if s.last().holder == who {
            s.last().amount as int
        } else {
            0
        }
    }
}

/// One entry per holder, and no zero entries.
pub open spec fn book_wf(s: Seq<Balance>) -> bool {
    &&& forall|i: int| 0 <= i < s.len() ==> #[trigger] s[i].amount > 0
    &&& forall|i: int, j: int|
        0 <= i < j < s.len() ==> #[trigger] s[i].holder != #[trigger] s[j].holder
}

pub proof fn lemma_push(s: Seq<Balance>, e: Balance)
    ensures
        total(s.push(e)) == total(s) + e.amount,
        forall|w: Address|
            #[trigger] balance_of(s.push(e), w) == balance_of(s, w) + if e.holder == w {
                e.amount as int
            } else {
                0
            },
{
    assert(s.push(e).drop_last() =~= s);
}

pub proof fn lemma_update(s: Seq<Balance>, i: int, e: Balance)
    requires
        0 <= i < s.len(),
    ensures
        total(s.update(i, e)) == total(s) - s[i].amount + e.amount,
        forall|w: Address|
            #[trigger] balance_of(s.update(i, e), w) == balance_of(s, w) - (if s[i].holder == w {
                s[i].amount as int
            } else {
                0
            }) + (if e.holder == w {
                e.amount as int
            } else {
                0
            }),
    decreases s.len(),
{
    let u = s.update(i, e);
    if i == s.len() - 1 {
        assert(u.drop_last() =~= s.drop_last());
    } else {
        assert(u.drop_last() =~= s.drop_last().update(i, e));
        lemma_update(s.drop_last(), i, e);
    }
    assert forall|w: Address|
        #[trigger] balance_of(u, w) == balance_of(s, w) - (if s[i].holder == w {
            s[i].amount as int
        } else {
            0
        }) + (if e.holder == w {
            e.amount as int
        } else {
            0
        }) by {
        assert(balance_of(u, w) == balance_of(u.drop_last(), w) + if u.last().holder == w {
            u.last().amount as int
        } else {
            0
        });
    }
}

pub proof fn lemma_remove(s: Seq<Balance>, i: int)
    requires
        0 <= i < s.len(),
    ensures
        total(s.remove(i)) == total(s) - s[i].amount,
        forall|w: Address|
            #[trigger] balance_of(s.remove(i), w) == balance_of(s, w) - if s[i].holder == w {
                s[i].amount as int
            } else {
                0
            },
    decreases s.len(),
{
    let r = s.remove(i);
    if i == s.len() - 1 {
        assert(r =~= s.drop_last());
    } else {
        assert(r.drop_last() =~= s.drop_last().remove(i));
        lemma_remove(s.drop_last(), i);
        assert(r.last() == s.last());
    }
    assert forall|w: Address|
        #[trigger] balance_of(r, w) == balance_of(s, w) - if s[i].holder == w {
            s[i].amount as int
        } else {
            0
        } by {
        if i < s.len() - 1 {
            assert(balance_of(r, w) == balance_of(r.drop_last(), w) + if r.last().holder == w {
                r.last().amount as int
            } else {
                0
            });
        }
    }
}

pub proof fn lemma_absent(s: Seq<Balance>, w: Address)
    requires
        forall|i: int| 0 <= i < s.len() ==> #[trigger] s[i].holder != w,
    ensures
        balance_of(s, w) == 0,
    decreases s.len(),
{
    if s.len() > 0 {
        lemma_absent(s.drop_last(), w);
    }
}

pub proof fn lemma_nonneg(s: Seq<Balance>, w: Address)
    ensures
        0 <= balance_of(s, w) <= total(s),
        0 <= total(s),
    decreases s.len(),
{
    if s.len() > 0 {
        lemma_nonneg(s.drop_last(), w);
    }
}

/// In a well-formed book, the entry of a holder is all that holder has.
pub proof fn lemma_entry(s: Seq<Balance>, i: int)
    requires
        book_wf(s),
        0 <= i < s.len(),
    ensures
        balance_of(s, s[i].holder) == s[i].amount,
    decreases s.len(),
{
    let d = s.drop_last();
    if i == s.len() - 1 {
        assert forall|j: int| 0 <= j < d.len() implies #[trigger] d[j].holder != s[i].holder by {
            assert(s[j].holder != s[i].holder);
        }
        lemma_absent(d, s[i].holder);
    } else {
        assert(s[i].holder != s[s.len() - 1].holder);
        assert(book_wf(d)) by {
            assert forall|a: int, b: int| 0 <= a < b < d.len() implies #[trigger] d[a].holder
                != #[trigger] d[b].holder by {
                assert(s[a].holder != s[b].holder);
            }
        }
        lemma_entry(d, i);
    }
}

/// The index of `who`'s entry, if any.
pub fn find(book: &Vec<Balance>, who: Address) -> (r: Option<usize>)
    ensures
        match r {
            Some(i) => i < book@.len() && book@[i as int].holder == who,
            None => forall|i: int| 0 <= i < book@.len() ==> #[trigger] book@[i].holder != who,
        },
{
    let mut i: usize = 0;
    while i < book.len()
        invariant
            i <= book@.len(),
            forall|j: int| 0 <= j < i ==> #[trigger] book@[j].holder != who,
        decreases book@.len() - i,
    {
        if book[i].holder == who {
            return Some(i);
        }
        i = i + 1;
    }
    None
}

/// What `who` holds.
pub fn balance(book: &Vec<Balance>, who: Address) -> (r: u128)
    requires
        book_wf(book@),
    ensures
        r == balance_of(book@, who),
{
    match find(book, who) {
        Some(i) => {
            proof {
                lemma_entry(book@, i as int);
            }
            book[i].amount
        },
        None => {
            proof {
                lemma_absent(book@, who);
            }
            0
        },
    }
}

/// Adds `amount` to what `who` holds.
pub fn credit(book: &mut Vec<Balance>, who: Address, amount: u128)
    requires
        book_wf(old(book)@),
        balance_of(old(book)@, who) + amount <= u128::MAX,
    ensures
        book_wf(final(book)@),
        total(final(book)@) == total(old(book)@) + amount,
        forall|w: Address|
            #[trigger] balance_of(final(book)@, w) == balance_of(old(book)@, w) + if w == who {
                amount as int
            } else {
                0
            },
{
    if amount == 0 {
        return ;
    }
    match find(book, who) {
        Some(i) => {
            proof {
                lemma_entry(book@, i as int);
            }
            let e = Balance { holder: who, amount: book[i].amount + amount };
            proof {
                lemma_update(book@, i as int, e);
            }
            book.set(i, e);
        },
        None => {
            let e = Balance { holder: who, amount };
            proof {
                lemma_push(book@, e);
            }
            book.push(e);
        },
    }
}

/// Takes `amount` from what `who` holds, dropping the entry when it reaches zero.
pub fn debit(book: &mut Vec<Balance>, who: Address, amount: u128)
    requires
        book_wf(old(book)@),
        amount <= balance_of(old(book)@, who),
    ensures
        book_wf(final(book)@),
        total(final(book)@) == total(old(book)@) - amount,
        forall|w: Address|
            #[trigger] balance_of(final(book)@, w) == balance_of(old(book)@, w) - if w == who {
                amount as int
            } else {
                0
            },
{
    if amount == 0 {
        return ;
    }
    match find(book, who) {
        Some(i) => {
            proof {
                lemma_entry(book@, i as int);
            }
            let held = book[i].amount;
            if held == amount {
                proof {
                    lemma_remove(book@, i as int);
                }
                book.remove(i);
            } else {
                let e = Balance { holder: who, amount: held - amount };
                proof {
                    lemma_update(book@, i as int, e);
                }
                book.set(i, e);
            }
        },
        None => {
            proof {
                lemma_absent(book@, who);
            }
        },
    }
}

} // verus!
