//! The monotonic generator: stateful generation whose every output orders
//! strictly after the one before it, whatever the clock does.
//!
//! When the clock has advanced past the previous identifier's timestamp, a
//! fresh identifier is drawn; when it has not (the same millisecond, or a
//! clock gone backward), the previous identifier is incremented instead, so
//! strict order is kept without fresh randomness. One generator has one
//! logical owner: the previous value is read and written without any
//! internal synchronization.

use vstd::prelude::*;

use crate::bigend::{
    be_val, lemma_be_val_bound, lemma_be_val_concat, lemma_lex_iff_val, lemma_pow256_vals, lex_lt,
};
use crate::oid::{is_max, is_zero, timestamp_of, Oid};

verus! {

/// A generator whose outputs strictly increase in byte order.
pub struct MonotonicGenerator {
    previous: Oid,
}

impl View for MonotonicGenerator {
    type V = Seq<u8>;

    /// The generator's state: the bytes of the last identifier handed out.
    closed spec fn view(&self) -> Seq<u8> {
        self.previous@
    }
}

impl MonotonicGenerator {
    /// A fresh generator; its first output orders after the null
    /// identifier.
    pub fn new() -> (r: MonotonicGenerator)
        ensures
            r@.len() == 16,
            is_zero(r@),
    {
        MonotonicGenerator { previous: Oid::null() }
    }

    /// The last identifier handed out; the null identifier before the
    /// first call.
    pub fn previous(&self) -> (r: Oid)
        ensures
            r@ == self@,
    {
        self.previous
    }

    /// Whether the generator can hand out nothing more: the previous
    /// identifier is the maximal one, so no strictly greater value exists.
    pub fn exhausted(&self) -> (r: bool)
        ensures
            r <==> is_max(self@),
    {
        self.previous.is_max()
    }

    /// The next identifier for a given clock reading and fresh randomness:
    /// a fresh timestamp/random layout when the clock has advanced past the
    /// previous identifier's timestamp, the increment of the previous
    /// identifier otherwise. Either way the output orders strictly after
    /// the one before it — and, since that order is transitive
    /// (`bigend::lemma_lex_lt_transitive`), after everything handed out
    /// before, so sorting a generator's outputs recovers generation order.
    pub fn generate_at(&mut self, timestamp: u64, rand_high: u16, rand_low: u64) -> (r: Oid)
        requires
            timestamp < 0x1_0000_0000_0000,
            old(self)@.len() == 16,
            !is_max(old(self)@),
        ensures
            final(self)@ == r@,
            r@.len() == 16,
            lex_lt(old(self)@, r@),
            be_val(old(self)@, 256) < be_val(r@, 256),
            timestamp > timestamp_of(old(self)@) ==> be_val(r@, 256) == timestamp
                * 0x1_0000_0000_0000_0000_0000 + rand_high * 0x1_0000_0000_0000_0000 + rand_low,
            timestamp <= timestamp_of(old(self)@) ==> be_val(r@, 256) == be_val(old(self)@, 256)
                + 1,
    {
        let last = self.previous.timestamp_millis();
        let next = if timestamp > last {
            let fresh = Oid::from_timestamp_and_random(timestamp, rand_high, rand_low);
            proof {
                lemma_pow256_vals();
                let prev = self.previous@;
                let low = prev.skip(6);
                assert(prev =~= prev.take(6) + low);
                lemma_be_val_concat(prev.take(6), low, 256);
                lemma_be_val_bound(low, 256);
                let lastv = timestamp_of(prev);
                let lowv = be_val(low, 256);
                assert(be_val(prev, 256) == lastv * 0x1_0000_0000_0000_0000_0000 + lowv);
                assert(lowv < 0x1_0000_0000_0000_0000_0000);
                assert((lastv + 1) * 0x1_0000_0000_0000_0000_0000 <= timestamp
                    * 0x1_0000_0000_0000_0000_0000) by (nonlinear_arith)
                    requires
                        lastv + 1 <= timestamp,
                ;
                assert((lastv + 1) * 0x1_0000_0000_0000_0000_0000 == lastv
                    * 0x1_0000_0000_0000_0000_0000 + 0x1_0000_0000_0000_0000_0000)
                    by (nonlinear_arith);
                assert(be_val(prev, 256) < be_val(fresh@, 256));
            }
            fresh
        } else {
            self.previous.increment()
        };
        proof {
            lemma_lex_iff_val(self.previous@, next@, 256);
        }
        self.previous = next;
        next
    }

    /// The next identifier from the system clock and fresh randomness.
    /// `None` when the generator is exhausted or the clock reads at or past
    /// the 48-bit millisecond ceiling; the state is then unchanged.
    pub fn generate(&mut self) -> (r: Option<Oid>)
        requires
            old(self)@.len() == 16,
        ensures
            final(self)@.len() == 16,
            is_max(old(self)@) ==> r is None,
            r matches Some(o) ==> final(self)@ == o@ && lex_lt(old(self)@, o@) && be_val(
                old(self)@,
                256,
            ) < be_val(o@, 256),
            r is None ==> final(self)@ == old(self)@,
    {
        if self.exhausted() {
            return None;
        }
        let timestamp = crate::sys::unix_epoch_millis();
        if timestamp >= 0x1_0000_0000_0000 {
            return None;
        }
        let rand_high = crate::sys::random_u16();
        let rand_low = crate::sys::random_u64();
        Some(self.generate_at(timestamp, rand_high, rand_low))
    }
}

} // verus!
