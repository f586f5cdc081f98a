use crate::wasi_mtt::ctx::Context;
use crate::wasi_mtt::error::{Cause, Error, ErrorExt, ErrorKind};
use vstd::prelude::*;

verus! {

/// The permissions an extension can hold, as a set of 32 bits. Bit `i` set
/// means that permission number `i` is granted.
#[derive(Debug, Clone, Copy, PartialEq, Eq, Structural)]
pub struct Promises {
    pub bits: u32,
}

/// Bit of the permission to write log lines and to wait for host events.
pub const STDIO_BITS: u32 = 1;

/// Bit of the permission to perform network requests.
pub const FETCH_BITS: u32 = 2;

/// Whether bit number `i` of `bits` is set.
pub open spec fn has_bit(bits: u32, i: u32) -> bool {
    (bits >> i) & 1 == 1
}

impl View for Promises {
    type V = Set<u32>;

    /// The numbers of the granted permissions.
    open spec fn view(&self) -> Set<u32> {
        Set::new(|i: u32| i < 32 && has_bit(self.bits, i))
    }
}

impl Promises {
    /// The permission to write log lines and to wait for host events.
    pub open spec fn spec_stdio() -> Promises {
        Promises { bits: STDIO_BITS }
    }

    /// The permission to perform network requests.
    pub open spec fn spec_fetch() -> Promises {
        Promises { bits: FETCH_BITS }
    }

    /// Every named permission.
    pub open spec fn spec_all() -> Promises {
        Promises { bits: STDIO_BITS | FETCH_BITS }
    }

    /// No permission at all.
    pub open spec fn spec_empty() -> Promises {
        Promises { bits: 0 }
    }

    /// The permission to write log lines and to wait for host events.
    #[verifier::when_used_as_spec(spec_stdio)]
    pub fn stdio() -> (p: Promises)
        ensures
            p == Promises::spec_stdio(),
    {
        Promises { bits: STDIO_BITS }
    }

    /// The permission to perform network requests.
    #[verifier::when_used_as_spec(spec_fetch)]
    pub fn fetch() -> (p: Promises)
        ensures
            p == Promises::spec_fetch(),
    {
        Promises { bits: FETCH_BITS }
    }

    /// Every named permission.
    #[verifier::when_used_as_spec(spec_all)]
    pub fn all() -> (p: Promises)
        ensures
            p == Promises::spec_all(),
    {
        Promises { bits: STDIO_BITS | FETCH_BITS }
    }

    /// No permission at all.
    #[verifier::when_used_as_spec(spec_empty)]
    pub fn empty() -> (p: Promises)
        ensures
            p == Promises::spec_empty(),
    {
        Promises { bits: 0 }
    }

    /// Whether the set holds named permissions only: no bit but those of
    /// stdio and fetch.
    pub open spec fn spec_is_named(&self) -> bool {
        self.bits & !(STDIO_BITS | FETCH_BITS) == 0
    }

    /// Whether the set holds named permissions only.
    #[verifier::when_used_as_spec(spec_is_named)]
    pub fn is_named(&self) -> (r: bool)
        ensures
            r == self.spec_is_named(),
            r == permits(Promises::spec_all(), *self),
    {
        proof {
            lemma_all_permits_the_named(*self);
        }
        self.bits & !(STDIO_BITS | FETCH_BITS) == 0
    }

    /// The set whose bits are `bits`, every one of them, named or not. A
    /// set with a bit that names no permission is a set like any other,
    /// but no context that began with all named permissions holds it: a
    /// pledge of it is refused, and so is whatever needs it.
    pub fn from_bits(bits: u32) -> (p: Promises)
        ensures
            p.bits == bits,
            p.spec_is_named() <==> bits & !(STDIO_BITS | FETCH_BITS) == 0,
    {
        Promises { bits }
    }

    /// The set of the named permissions among `bits`. Bits that name no
    /// permission are dropped.
    pub fn from_bits_truncate(bits: u32) -> (p: Promises)
        ensures
            p.bits == bits & (STDIO_BITS | FETCH_BITS),
            p.spec_is_named(),
            (Promises { bits }).spec_is_named() ==> p.bits == bits,
    {
        let kept: u32 = bits & (STDIO_BITS | FETCH_BITS);
        proof {
            assert(kept & !(STDIO_BITS | FETCH_BITS) == 0) by (bit_vector)
                requires
                    kept == bits & (STDIO_BITS | FETCH_BITS),
            ;
            assert(bits & !(STDIO_BITS | FETCH_BITS) == 0 ==> bits & (STDIO_BITS | FETCH_BITS)
                == bits) by (bit_vector);
        }
        Promises { bits: kept }
    }

    /// The permissions that both sets hold.
    pub fn intersection(self, other: Promises) -> (p: Promises)
        ensures
            p.bits == self.bits & other.bits,
            p@ == self@.intersect(other@),
    {
        let p = Promises { bits: self.bits & other.bits };
        proof {
            let a = self.bits;
            let b = other.bits;
            assert forall|i: u32| i < 32 implies (has_bit(a & b, i) <==> has_bit(a, i) && has_bit(
                b,
                i,
            )) by {
                assert(has_bit(a & b, i) <==> has_bit(a, i) && has_bit(b, i)) by (bit_vector);
            }
            assert(p@ =~= self@.intersect(other@));
        }
        p
    }
}

/// Whether a holder of `current` may do what needs `required`: whether
/// `current` holds every permission of `required`.
pub open spec fn permits(current: Promises, required: Promises) -> bool {
    required@.subset_of(current@)
}

/// The permissions held after a pledge of `requested`: `requested` where it
/// asks for nothing new, and `current` unchanged otherwise.
pub open spec fn pledged(current: Promises, requested: Promises) -> Promises {
    if permits(current, requested) {
        requested
    } else {
        current
    }
}

/// `a & b == b` holds exactly when every bit of `b` is a bit of `a`.
pub proof fn lemma_contains_is_subset(a: Promises, b: Promises)
    ensures
        (a.bits & b.bits == b.bits) <==> permits(a, b),
{
    let x = a.bits;
    let y = b.bits;
    if x & y == y {
        assert forall|i: u32| b@.contains(i) implies a@.contains(i) by {
            assert(has_bit(x, i)) by (bit_vector)
                requires
                    x & y == y,
                    i < 32,
                    has_bit(y, i),
            ;
        }
    } else {
        let d = y & !x;
        assert(d != 0) by (bit_vector)
            requires
                x & y != y,
                d == y & !x,
        ;
        assert(has_bit(d, 0) || has_bit(d, 1) || has_bit(d, 2) || has_bit(d, 3) || has_bit(d, 4)
            || has_bit(d, 5) || has_bit(d, 6) || has_bit(d, 7) || has_bit(d, 8) || has_bit(d, 9)
            || has_bit(d, 10) || has_bit(d, 11) || has_bit(d, 12) || has_bit(d, 13) || has_bit(
            d,
            14,
        ) || has_bit(d, 15) || has_bit(d, 16) || has_bit(d, 17) || has_bit(d, 18) || has_bit(d, 19)
            || has_bit(d, 20) || has_bit(d, 21) || has_bit(d, 22) || has_bit(d, 23) || has_bit(
            d,
            24,
        ) || has_bit(d, 25) || has_bit(d, 26) || has_bit(d, 27) || has_bit(d, 28) || has_bit(d, 29)
            || has_bit(d, 30) || has_bit(d, 31)) by (bit_vector)
            requires
                d != 0,
        ;
        assert(forall|i: u32| i < 32 && has_bit(d, i) ==> has_bit(y, i) && !has_bit(x, i))
            by (bit_vector)
            requires
                d == y & !x,
        ;
        let i = choose|i: u32| i < 32 && has_bit(y, i) && !has_bit(x, i);
        assert(b@.contains(i));
        assert(!a@.contains(i));
    }
}

/// The set of all named permissions is the largest set of named
/// permissions: it holds every permission of a set exactly when that set
/// holds named permissions only.
pub proof fn lemma_all_permits_the_named(p: Promises)
    ensures
        permits(Promises::spec_all(), p) <==> p.spec_is_named(),
        Promises::spec_all().spec_is_named(),
        Promises::spec_stdio().spec_is_named(),
        Promises::spec_fetch().spec_is_named(),
        Promises::spec_empty().spec_is_named(),
{
    lemma_contains_is_subset(Promises::spec_all(), p);
    let bits = p.bits;
    assert(((STDIO_BITS | FETCH_BITS) & bits == bits) <==> (bits & !(STDIO_BITS | FETCH_BITS)
        == 0)) by (bit_vector);
    assert((STDIO_BITS | FETCH_BITS) & !(STDIO_BITS | FETCH_BITS) == 0) by (bit_vector);
    assert(STDIO_BITS & !(STDIO_BITS | FETCH_BITS) == 0) by (bit_vector);
    assert(FETCH_BITS & !(STDIO_BITS | FETCH_BITS) == 0) by (bit_vector);
    assert(0u32 & !(STDIO_BITS | FETCH_BITS) == 0) by (bit_vector);
}

/// A context that holds named permissions only holds them after every
/// pledge: what it is left with is named as well.
pub proof fn lemma_pledged_stays_named(current: Promises, requested: Promises)
    requires
        current.spec_is_named(),
    ensures
        pledged(current, requested).spec_is_named(),
{
    lemma_all_permits_the_named(current);
    lemma_all_permits_the_named(pledged(current, requested));
}

/// Two sets with the same granted permissions have the same bits.
pub proof fn lemma_view_is_injective(a: Promises, b: Promises)
    requires
        a@ == b@,
    ensures
        a == b,
{
    lemma_contains_is_subset(a, b);
    lemma_contains_is_subset(b, a);
    let x = a.bits;
    let y = b.bits;
    assert(x == y) by (bit_vector)
        requires
            x & y == y,
            y & x == x,
    ;
}

/// Whether `a` holds all permissions of `b`.
///
/// This is what makes sure that an extension can only give permissions up,
/// and never gain one.
pub fn contains(a: Promises, b: Promises) -> (r: bool)
    ensures
        r == (a.bits & b.bits == b.bits),
        r == permits(a, b),
{
    proof {
        lemma_contains_is_subset(a, b);
    }
    (a.bits & b.bits) == b.bits
}

impl Context {
    /// Replaces the extension's permissions by `promises`, if that gives it
    /// none that it does not hold. Otherwise the call fails with permission
    /// denied and the permissions stay as they are.
    pub fn pledge(&mut self, promises: Promises) -> (r: Result<(), Error>)
        ensures
            r.is_ok() <==> permits(old(self).promises, promises),
            final(self).promises == pledged(old(self).promises, promises),
            permits(old(self).promises, final(self).promises),
            final(self).resource_table == old(self).resource_table,
            r matches Err(e) ==> e.cause == Cause::Kind(ErrorKind::Perm) && e.message@
                == "attempted to escalate privileges"@,
    {
        if !contains(self.promises, promises) {
            return Err(Error::perm().context("attempted to escalate privileges"));
        }
        self.promises = promises;
        Ok(())
    }
}

/// A pledge never gives the extension a permission that it did not hold.
pub proof fn lemma_pledge_only_narrows(current: Promises, requested: Promises)
    ensures
        permits(current, pledged(current, requested)),
{
}

/// A pledge that asks for everything held and something more is refused and
/// changes nothing.
pub proof fn lemma_pledge_refuses_superset(current: Promises, requested: Promises)
    requires
        current@.subset_of(requested@),
        current@ != requested@,
    ensures
        !permits(current, requested),
        pledged(current, requested) == current,
{
    if permits(current, requested) {
        assert(current@ =~= requested@);
    }
}

/// After a pledge of a subset, whatever needs a permission outside that
/// subset is refused.
pub proof fn lemma_pledge_revokes(current: Promises, requested: Promises, required: Promises)
    requires
        permits(current, requested),
        !permits(requested, required),
    ensures
        pledged(current, requested) == requested,
        !permits(pledged(current, requested), required),
{
}

/// What a sequence of pledges leaves of `current`.
pub open spec fn pledged_all(current: Promises, requests: Seq<Promises>) -> Promises
    decreases requests.len(),
{
    if requests.len() == 0 {
        current
    } else {
        pledged_all(pledged(current, requests[0]), requests.drop_first())
    }
}

/// However many pledges an extension makes, it ends with permissions that
/// it began with.
pub proof fn lemma_permissions_only_shrink(current: Promises, requests: Seq<Promises>)
    ensures
        permits(current, pledged_all(current, requests)),
    decreases requests.len(),
{
    if requests.len() > 0 {
        lemma_permissions_only_shrink(pledged(current, requests[0]), requests.drop_first());
    }
}

} // verus!
