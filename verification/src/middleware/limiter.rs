//! One limiter of `governor`, and how it was asked.

use vstd::prelude::*;

verus! {

/// One limiter of `governor`.
#[verifier::external_body]
pub struct Limiter {
    inner: governor::RateLimiter<
        governor::state::NotKeyed,
        governor::state::InMemoryState,
        governor::clock::DefaultClock,
    >,
}

/// The highest rate per second at which one request still takes time, counted in nanoseconds.
pub const NANOS_PER_SEC: u32 = 1_000_000_000;

/// The rate per second and the burst that a limiter was made with.
pub uninterp spec fn quota_of(l: Limiter) -> (u32, u32);

/// How a limiter was asked since it was made: for each time the instant, by the limiter's own clock,
/// and whether it let one more pass. Nobody shares a limiter, so that it is asked through the one
/// reference there is.
pub uninterp spec fn asked(l: Limiter) -> Seq<(nat, bool)>;

/// How many a limiter let pass.
pub open spec fn passes(asked: Seq<(nat, bool)>) -> nat
    decreases asked.len(),
{
    if asked.len() == 0 {
        0
    } else {
        passes(asked.drop_last()) + if asked.last().1 {
            1nat
        } else {
            0
        }
    }
}

/// All that a limiter let pass did so at one instant.
pub open spec fn passed_only_at(asked: Seq<(nat, bool)>, at: nat) -> bool {
    forall|i: int| 0 <= i < asked.len() && (#[trigger] asked[i]).1 ==> asked[i].0 == at
}

/// A limiter was asked once, at some instant. Where all that it let pass before did so at the same
/// instant, it lets one more pass exactly where those were fewer than its burst, or where its rate is
/// beyond one in a nanosecond, which holds nothing back.
pub open spec fn asked_once(
    before: Seq<(nat, bool)>,
    after: Seq<(nat, bool)>,
    quota: (u32, u32),
) -> bool {
    &&& after.len() == before.len() + 1
    &&& after.drop_last() == before
    &&& passed_only_at(before, after.last().0) ==> (after.last().1 <==> quota.0 > NANOS_PER_SEC
        || passes(before) < quota.1)
}

/// `after` is the limiter `before`, asked once more.
pub open spec fn once_more(before: Limiter, after: Limiter) -> bool {
    &&& quota_of(after) == quota_of(before)
    &&& asked_once(asked(before), asked(after), quota_of(before))
}

/// What a limiter answered when it was last asked.
pub open spec fn last_passed(l: Limiter) -> bool {
    asked(l).last().1
}

/// `governor::RateLimiter::direct` with `Quota::per_second(rate).allow_burst(burst)`: a limiter
/// that replenishes at the rate and holds at most the burst, and has not been asked yet.
#[verifier::external_body]
pub(crate) fn direct(rate: u32, burst: u32) -> (l: Limiter)
    requires
        rate > 0,
        burst > 0,
    ensures
        quota_of(l) == (rate, burst),
        asked(l) == Seq::<(nat, bool)>::empty(),
{
    let rate = std::num::NonZeroU32::new(rate).unwrap();
    let burst = std::num::NonZeroU32::new(burst).unwrap();
    let quota = governor::Quota::per_second(rate).allow_burst(burst);
    Limiter { inner: governor::RateLimiter::direct(quota) }
}

/// `governor::RateLimiter::check`: whether one more may pass now. The limiter reads its own clock, in
/// nanoseconds since it was made, and does not say what it read. Of its answer no more is stated than
/// what holds as long as all that it let pass did so at one and the same instant, when nothing has
/// been replenished yet; what it answers as time goes by is left open.
#[verifier::external_body]
pub(crate) fn may_pass(l: &mut Limiter) -> (passed: bool)
    ensures
        once_more(*old(l), *final(l)),
        passed == last_passed(*final(l)),
{
    l.inner.check().is_ok()
}

/// Of the times that a limiter is asked at one instant, it is as many as its burst that pass, and
/// they are the first.
pub proof fn lemma_passes_at_one_instant(asked: Seq<(nat, bool)>, burst: nat)
    requires
        forall|i: int| 0 <= i < asked.len() ==> ((#[trigger] asked[i]).1 <==> i < burst),
    ensures
        passes(asked) == if asked.len() < burst {
            asked.len()
        } else {
            burst
        },
    decreases asked.len(),
{
    if asked.len() > 0 {
        let rest = asked.drop_last();
        assert forall|i: int| 0 <= i < rest.len() implies ((#[trigger] rest[i]).1 <==> i < burst) by {
            assert(asked[i] == rest[i]);
        }
        assert(asked[asked.len() - 1] == asked.last());
        lemma_passes_at_one_instant(rest, burst);
    }
}

} // verus!
