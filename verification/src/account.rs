//! Account identifiers and their order.

use crate::sorted::{Order, SortKey};
use vstd::prelude::*;

verus! {

/// Byte strings of one length compared byte by byte from index `from` on: `a`
/// is smaller at the first index where the two differ.
pub open spec fn bytes_precede_from(a: Seq<u8>, b: Seq<u8>, from: int) -> bool
    decreases a.len() - from,
{
    if from < 0 || from >= a.len() || from >= b.len() {
        false
    } else if a[from] != b[from] {
        a[from] < b[from]
    } else {
        bytes_precede_from(a, b, from + 1)
    }
}

/// The lexicographic order on byte strings of one length.
pub open spec fn bytes_precede(a: Seq<u8>, b: Seq<u8>) -> bool {
    bytes_precede_from(a, b, 0)
}

/// On byte strings of one length the comparison from any index on is
/// irreflexive and transitive, and it orders two strings unless they agree
/// from that index on.
pub proof fn lemma_bytes_order(a: Seq<u8>, b: Seq<u8>, c: Seq<u8>, from: int)
    requires
        a.len() == b.len(),
        b.len() == c.len(),
        0 <= from <= a.len(),
    ensures
        !bytes_precede_from(a, a, from),
        bytes_precede_from(a, b, from) && bytes_precede_from(b, c, from) ==> bytes_precede_from(
            a,
            c,
            from,
        ),
        bytes_precede_from(a, b, from) || bytes_precede_from(b, a, from) || forall|i: int|
            from <= i < a.len() ==> a[i] == b[i],
    decreases a.len() - from,
{
    if from < a.len() {
        lemma_bytes_order(a, b, c, from + 1);
    }
}

/// The identifier of an account: 32 bytes, ordered lexicographically.
#[derive(Clone, Copy, Debug, PartialEq, Eq, PartialOrd, Ord, Hash)]
pub struct AccountId {
    pub bytes: [u8; 32],
}

impl View for AccountId {
    type V = Seq<u8>;

    open spec fn view(&self) -> Seq<u8> {
        self.bytes@
    }
}

impl AccountId {
    /// The account with the given bytes.
    pub fn new(bytes: [u8; 32]) -> (account: AccountId)
        ensures
            account.bytes == bytes,
    {
        AccountId { bytes }
    }

    /// Two accounts with the same bytes are the same account.
    pub proof fn lemma_view_injective(a: AccountId, b: AccountId)
        ensures
            a@.len() == 32,
            a@ == b@ <==> a == b,
    {
        if a@ == b@ {
            assert(a.bytes =~= b.bytes);
        }
    }
}

impl From<[u8; 32]> for AccountId {
    fn from(bytes: [u8; 32]) -> (account: AccountId) {
        AccountId { bytes }
    }
}

impl vstd::std_specs::convert::FromSpecImpl<[u8; 32]> for AccountId {
    open spec fn obeys_from_spec() -> bool {
        true
    }

    open spec fn from_spec(bytes: [u8; 32]) -> AccountId {
        AccountId { bytes }
    }
}

impl SortKey for AccountId {
    open spec fn precedes(&self, other: &Self) -> bool {
        bytes_precede(self@, other@)
    }

    proof fn lemma_strict_total_order(a: &Self, b: &Self, c: &Self) {
        lemma_bytes_order(a@, b@, c@, 0);
        if !a.precedes(b) && !b.precedes(a) {
            assert(a@ =~= b@);
            AccountId::lemma_view_injective(*a, *b);
        }
    }

    fn compare(&self, other: &Self) -> (o: Order) {
        let mut i: usize = 0;
        while i < 32
            invariant
                0 <= i <= 32,
                forall|j: int| 0 <= j < i ==> self@[j] == other@[j],
                bytes_precede(self@, other@) == bytes_precede_from(self@, other@, i as int),
                bytes_precede(other@, self@) == bytes_precede_from(other@, self@, i as int),
            decreases 32 - i,
        {
            if self.bytes[i] < other.bytes[i] {
                return Order::Before;
            }
            if self.bytes[i] > other.bytes[i] {
                return Order::After;
            }
            i += 1;
        }
        proof {
            assert(self@ =~= other@);
            AccountId::lemma_view_injective(*self, *other);
        }
        Order::Same
    }
}

} // verus!
