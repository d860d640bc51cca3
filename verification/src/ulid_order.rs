//! The order of ULIDs: by their bytes, first difference first.
use crate::radix::{
    bytes_lt, digits_below, lemma_bytes_lt_irreflexive, lemma_first_difference_at,
    lemma_order_is_numeric, radix_value,
};
use crate::ulid::{lemma_time_order, lemma_view_is_bytes, ulid_timestamp, Ulid};
use core::cmp::Ordering;
use vstd::prelude::*;
use vstd::std_specs::cmp::PartialOrdSpec;

verus! {

impl PartialOrd for Ulid {
    fn partial_cmp(&self, other: &Self) -> (res: Option<Ordering>) {
        let a = &self.0;
        let b = &other.0;
        let mut i: usize = 0;
        proof {
            lemma_view_is_bytes(self);
            lemma_view_is_bytes(other);
        }
        while i < 16
            invariant
                i <= 16,
                a@ == self@,
                b@ == other@,
                forall|j: int| 0 <= j < i ==> #[trigger] a@[j] == b@[j],
            decreases 16 - i,
        {
            if a[i] != b[i] {
                proof {
                    lemma_first_difference_at(a@, b@, i);
                }
                if a[i] < b[i] {
                    return Some(Ordering::Less);
                } else {
                    return Some(Ordering::Greater);
                }
            }
            i = i + 1;
        }
        proof {
            assert(a@ =~= b@);
            lemma_bytes_lt_irreflexive(a@);
        }
        Some(Ordering::Equal)
    }
}

impl vstd::std_specs::cmp::PartialOrdSpecImpl for Ulid {
    open spec fn obeys_partial_cmp_spec() -> bool {
        true
    }

    open spec fn partial_cmp_spec(&self, other: &Self) -> Option<Ordering> {
        if bytes_lt(self@, other@) {
            Some(Ordering::Less)
        } else if bytes_lt(other@, self@) {
            Some(Ordering::Greater)
        } else {
            Some(Ordering::Equal)
        }
    }
}

/// ULIDs are ordered as the unsigned 128-bit numbers that their bytes spell
/// big-endian: one sorts before another exactly when its number is smaller,
/// and they are equal exactly when their bytes are.
pub proof fn lemma_ulid_order_is_numeric(a: Ulid, b: Ulid)
    ensures
        (a.partial_cmp_spec(&b) == Some(Ordering::Less)) <==> radix_value(a@, 256) < radix_value(
            b@,
            256,
        ),
        (a.partial_cmp_spec(&b) == Some(Ordering::Greater)) <==> radix_value(b@, 256)
            < radix_value(a@, 256),
        (a.partial_cmp_spec(&b) == Some(Ordering::Equal)) <==> a@ == b@,
{
    lemma_view_is_bytes(&a);
    lemma_view_is_bytes(&b);
    assert(digits_below(a@, 256));
    assert(digits_below(b@, 256));
    lemma_order_is_numeric(a@, b@, 256);
    lemma_order_is_numeric(b@, a@, 256);
    lemma_bytes_lt_irreflexive(a@);
    if radix_value(a@, 256) == radix_value(b@, 256) {
        crate::radix::lemma_radix_digits_of_value(a@, 256);
        crate::radix::lemma_radix_digits_of_value(b@, 256);
    }
}

/// A ULID of an earlier millisecond sorts before one of a later millisecond,
/// whatever their random parts.
pub proof fn lemma_earlier_ulid_sorts_first(a: Ulid, b: Ulid)
    requires
        ulid_timestamp(a@) < ulid_timestamp(b@),
    ensures
        a.partial_cmp_spec(&b) == Some(Ordering::Less),
        b.partial_cmp_spec(&a) == Some(Ordering::Greater),
{
    lemma_view_is_bytes(&a);
    lemma_view_is_bytes(&b);
    lemma_time_order(a@, b@);
    lemma_ulid_order_is_numeric(a, b);
    lemma_ulid_order_is_numeric(b, a);
}

} // verus!
