//! The adaptive fetch controller of one feature: a stack of pending units,
//! and what becomes of the top unit for each outcome of a query.
//!
//! The controller makes no query itself. Its caller sends the geometry of
//! the current unit, reports the outcome to `step`, and does what the
//! reaction says (wait before the next query, store the rows under the
//! sequence number), until no unit is left.

use vstd::prelude::*;
use vstd::arithmetic::power2::{
    lemma2_to64, lemma_pow2_strictly_increases, lemma_pow2_unfold, pow2,
};
use crate::geometry::{split_geometry, split_shape, Geometry, GeometryError, Shape};
use crate::tables::ExtractError;

verus! {

/// The largest split depth that a controller accepts as its bound.
pub const DEPTH_LIMIT: u32 = 32;

/// How long the caller waits before it queries a unit again after a quota
/// failure, in seconds.
pub const RETRY_DELAY_SECONDS: u64 = 60;

/// The classes of failure that the controller tells apart.
#[derive(Clone, Copy, Debug, PartialEq, Eq, Structural)]
pub enum FailureClass {
    /// The service refused for quota or overload.
    Quota,
    /// The service refused the geometry as too large.
    Oversized,
    /// Any other failure: transport, an unreadable response, another status.
    Other,
}

/// The outcome of one query, as the caller reports it.
#[derive(Clone, Copy, Debug, PartialEq, Eq, Structural)]
pub enum Outcome {
    Success,
    Failure(FailureClass),
}

/// The outcome of a query whose response came back with a body, given what
/// the extraction made of the body: a success where it was a document, and
/// else a failure that is not retried.
pub fn outcome_of_body(extracted: &Result<Vec<Option<ExtractError>>, ExtractError>) -> (outcome:
    Outcome)
    ensures
        outcome == (if extracted is Ok {
            Outcome::Success
        } else {
            Outcome::Failure(FailureClass::Other)
        }),
{
    match extracted {
        Ok(_) => Outcome::Success,
        Err(_) => Outcome::Failure(FailureClass::Other),
    }
}

/// Why a unit left the stack without a success.
#[derive(Clone, Copy, Debug, PartialEq, Eq, Structural)]
pub enum DropCause {
    /// It failed for quota or overload again after its one retry.
    QuotaExhausted,
    /// It was too large, and its geometry could not be split: for the
    /// reason given, which is `TooDeep` where the unit lay at the bound of
    /// the split depth.
    Unsplittable(GeometryError),
    /// It failed in a way that is not retried.
    Terminal,
}

/// What the controller did with the top unit, and what its caller does next.
#[derive(Clone, Copy, Debug, PartialEq, Eq, Structural)]
pub enum Reaction {
    /// There was no unit: nothing changed.
    Idle,
    /// The unit succeeded and left the stack: its rows go out under this
    /// sequence number, the count of successes before it.
    Stored(u64),
    /// The unit stays on top, marked as retried: wait, then query it again.
    RetryAfterDelay,
    /// The unit was replaced by its two halves.
    Split,
    /// The unit left the stack.
    Dropped(DropCause),
}

/// One pending query: a geometry, whether it was retried already, and how
/// many splits led to it.
#[derive(Clone, Debug)]
pub struct FetchUnit {
    pub geometry: Geometry,
    pub retried: bool,
    pub depth: u32,
}

/// What a unit holds.
pub struct UnitModel {
    pub shape: Shape,
    pub retried: bool,
    pub depth: nat,
}

impl View for FetchUnit {
    type V = UnitModel;

    open spec fn view(&self) -> UnitModel {
        UnitModel { shape: self.geometry@, retried: self.retried, depth: self.depth as nat }
    }
}

/// The state of a controller: the pending units, the top of the stack last;
/// the number of successes so far; and the bound of the split depth.
pub struct ControllerModel {
    pub units: Seq<UnitModel>,
    pub successes: nat,
    pub max_depth: nat,
}

/// A unit that no query was made for yet.
pub open spec fn fresh_unit(shape: Shape, depth: nat) -> UnitModel {
    UnitModel { shape, retried: false, depth }
}

/// The state after the outcome `outcome` of a query for the top unit, and
/// the reaction to it.
///
/// A success takes the unit off and counts. A quota failure leaves the unit
/// on top once, marked, and takes it off the second time. An oversized
/// geometry is replaced by its two halves, the high half on top, both one
/// level deeper and unmarked; it is dropped where it cannot be split or lies
/// at the bound of the depth. Any other failure takes the unit off.
pub open spec fn react(c: ControllerModel, outcome: Outcome) -> (ControllerModel, Reaction) {
    if c.units.len() == 0 {
        (c, Reaction::Idle)
    } else {
        let top = c.units.last();
        let rest = c.units.drop_last();
        let without = ControllerModel { units: rest, ..c };
        match outcome {
            Outcome::Success => (
                ControllerModel { units: rest, successes: c.successes + 1, ..c },
                Reaction::Stored(c.successes as u64),
            ),
            Outcome::Failure(FailureClass::Quota) => if top.retried {
                (without, Reaction::Dropped(DropCause::QuotaExhausted))
            } else {
                (
                    ControllerModel { units: rest.push(UnitModel { retried: true, ..top }), ..c },
                    Reaction::RetryAfterDelay,
                )
            },
            Outcome::Failure(FailureClass::Oversized) => if top.depth >= c.max_depth {
                (without, Reaction::Dropped(DropCause::Unsplittable(GeometryError::TooDeep)))
            } else {
                match split_shape(top.shape) {
                    Ok((low, high)) => (
                        ControllerModel {
                            units: rest.push(fresh_unit(low, top.depth + 1)).push(
                                fresh_unit(high, top.depth + 1),
                            ),
                            ..c
                        },
                        Reaction::Split,
                    ),
                    Err(e) => (without, Reaction::Dropped(DropCause::Unsplittable(e))),
                }
            },
            Outcome::Failure(FailureClass::Other) => (
                without,
                Reaction::Dropped(DropCause::Terminal),
            ),
        }
    }
}

/// The most queries that a fresh unit and the units split from it can cost,
/// with `levels` levels of splitting below it: two for the unit itself, and
/// as many again for each of its two halves.
pub open spec fn attempts_below(levels: nat) -> nat
    decreases levels,
{
    if levels == 0 {
        2
    } else {
        2 + 2 * attempts_below((levels - 1) as nat)
    }
}

/// The most queries that a unit and the units split from it can still cost.
pub open spec fn unit_budget(u: UnitModel, max_depth: nat) -> nat {
    let levels: nat = if u.depth <= max_depth {
        (max_depth - u.depth) as nat
    } else {
        0
    };
    if u.retried {
        (attempts_below(levels) - 1) as nat
    } else {
        attempts_below(levels)
    }
}

/// The most queries that the units of a stack can still cost.
pub open spec fn budget(units: Seq<UnitModel>, max_depth: nat) -> nat
    decreases units.len(),
{
    if units.len() == 0 {
        0
    } else {
        budget(units.drop_last(), max_depth) + unit_budget(units.last(), max_depth)
    }
}

/// Whether a state can arise: no unit lies deeper than the bound, the bound
/// is within the limit, and the count of successes leaves room for all that
/// may still come.
pub open spec fn well_formed(c: ControllerModel) -> bool {
    &&& c.max_depth <= DEPTH_LIMIT
    &&& forall|i: int| 0 <= i < c.units.len() ==> (#[trigger] c.units[i]).depth <= c.max_depth
    &&& c.successes + budget(c.units, c.max_depth) <= u64::MAX
}

/// `attempts_below` in closed form.
pub proof fn lemma_attempts_closed_form(levels: nat)
    ensures
        attempts_below(levels) + 2 == 4 * pow2(levels),
    decreases levels,
{
    if levels == 0 {
        lemma2_to64();
    } else {
        lemma_attempts_closed_form((levels - 1) as nat);
        lemma_pow2_unfold(levels);
    }
}

/// Within the limit of the depth the budget of a unit fits a machine word.
pub proof fn lemma_attempts_fit(levels: nat)
    requires
        levels <= DEPTH_LIMIT,
    ensures
        2 <= attempts_below(levels) < 0x4_0000_0000,
{
    lemma_attempts_closed_form(levels);
    lemma2_to64();
    if levels < 32 {
        lemma_pow2_strictly_increases(levels, 32);
    }
}

/// The budget of a stack with one more unit on top.
pub proof fn lemma_budget_push(units: Seq<UnitModel>, u: UnitModel, max_depth: nat)
    ensures
        budget(units.push(u), max_depth) == budget(units, max_depth) + unit_budget(u, max_depth),
{
    assert(units.push(u).drop_last() =~= units);
}

/// Every outcome spends budget: from a state that can arise, the state
/// after any outcome of a query can arise too, and its budget is smaller.
/// So a controller is done after at most as many queries as its budget, and
/// no run goes on for ever.
pub proof fn lemma_step_spends_budget(c: ControllerModel, outcome: Outcome)
    requires
        well_formed(c),
        c.units.len() > 0,
    ensures
        well_formed(react(c, outcome).0),
        budget(react(c, outcome).0.units, c.max_depth) < budget(c.units, c.max_depth),
        react(c, outcome).0.max_depth == c.max_depth,
        react(c, outcome).0.successes + budget(react(c, outcome).0.units, c.max_depth)
            <= c.successes + budget(c.units, c.max_depth),
{
    let top = c.units.last();
    let rest = c.units.drop_last();
    let after = react(c, outcome).0;
    let levels: nat = (c.max_depth - top.depth) as nat;
    lemma_attempts_fit(levels);
    assert forall|i: int| 0 <= i < rest.len() implies (#[trigger] rest[i]).depth
        <= c.max_depth by {
        assert(rest[i] == c.units[i]);
    }
    match outcome {
        Outcome::Failure(FailureClass::Quota) => {
            if !top.retried {
                let marked = UnitModel { retried: true, ..top };
                lemma_budget_push(rest, marked, c.max_depth);
                assert forall|i: int| 0 <= i < after.units.len() implies (
                #[trigger] after.units[i]).depth <= c.max_depth by {
                    if i < rest.len() {
                        assert(after.units[i] == rest[i]);
                    }
                }
            }
        },
        Outcome::Failure(FailureClass::Oversized) => {
            if top.depth < c.max_depth {
                match split_shape(top.shape) {
                    Ok((low, high)) => {
                        let first = fresh_unit(low, top.depth + 1);
                        let second = fresh_unit(high, top.depth + 1);
                        lemma_budget_push(rest, first, c.max_depth);
                        lemma_budget_push(rest.push(first), second, c.max_depth);
                        assert(attempts_below(levels) == 2 + 2 * attempts_below(
                            (levels - 1) as nat,
                        ));
                        assert forall|i: int| 0 <= i < after.units.len() implies (
                        #[trigger] after.units[i]).depth <= c.max_depth by {
                            if i < rest.len() {
                                assert(after.units[i] == rest[i]);
                            }
                        }
                    },
                    Err(_) => {},
                }
            }
        },
        _ => {},
    }
}

/// A stack with a unit on it has budget left.
pub proof fn lemma_pending_unit_has_budget(c: ControllerModel)
    requires
        well_formed(c),
        c.units.len() > 0,
    ensures
        budget(c.units, c.max_depth) > 0,
{
    let top = c.units.last();
    lemma_attempts_fit((c.max_depth - top.depth) as nat);
}

/// The state after a run of outcomes, each taken in by the state that the
/// ones before it left.
pub open spec fn after_outcomes(c: ControllerModel, outcomes: Seq<Outcome>) -> ControllerModel
    decreases outcomes.len(),
{
    if outcomes.len() == 0 {
        c
    } else {
        react(after_outcomes(c, outcomes.drop_last()), outcomes.last()).0
    }
}

/// No run goes on for ever: whatever the outcomes are, after as many of
/// them as the budget of the start no unit is left. Until then every outcome
/// has spent budget.
pub proof fn lemma_run_ends_within_budget(c: ControllerModel, outcomes: Seq<Outcome>)
    requires
        well_formed(c),
    ensures
        well_formed(after_outcomes(c, outcomes)),
        after_outcomes(c, outcomes).units.len() == 0 || budget(
            after_outcomes(c, outcomes).units,
            c.max_depth,
        ) + outcomes.len() <= budget(c.units, c.max_depth),
        outcomes.len() >= budget(c.units, c.max_depth) ==> after_outcomes(c, outcomes).units.len()
            == 0,
        after_outcomes(c, outcomes).max_depth == c.max_depth,
    decreases outcomes.len(),
{
    if outcomes.len() > 0 {
        let so_far = after_outcomes(c, outcomes.drop_last());
        lemma_run_ends_within_budget(c, outcomes.drop_last());
        if so_far.units.len() > 0 {
            lemma_step_spends_budget(so_far, outcomes.last());
        }
    }
    let end = after_outcomes(c, outcomes);
    if end.units.len() > 0 {
        lemma_pending_unit_has_budget(end);
    }
}

/// The number of units that come of a unit with `levels` levels of
/// splitting below it where every one is split: the unit, and as many again
/// for each of its two halves.
pub open spec fn tree_size(levels: nat) -> nat
    decreases levels,
{
    if levels == 0 {
        1
    } else {
        1 + 2 * tree_size((levels - 1) as nat)
    }
}

/// The number of units that can come of the units of a stack.
pub open spec fn forest_size(units: Seq<UnitModel>, max_depth: nat) -> nat
    decreases units.len(),
{
    if units.len() == 0 {
        0
    } else {
        let levels: nat = if units.last().depth <= max_depth {
            (max_depth - units.last().depth) as nat
        } else {
            0
        };
        forest_size(units.drop_last(), max_depth) + tree_size(levels)
    }
}

/// Whether every outcome of a run is the refusal of a geometry as too
/// large.
pub open spec fn all_oversized(outcomes: Seq<Outcome>) -> bool {
    forall|i: int|
        0 <= i < outcomes.len() ==> #[trigger] outcomes[i] == Outcome::Failure(
            FailureClass::Oversized,
        )
}

/// `tree_size` in closed form.
pub proof fn lemma_tree_closed_form(levels: nat)
    ensures
        tree_size(levels) + 1 == 2 * pow2(levels),
    decreases levels,
{
    if levels == 0 {
        lemma2_to64();
    } else {
        lemma_tree_closed_form((levels - 1) as nat);
        lemma_pow2_unfold(levels);
    }
}

/// The size of the forest of a stack with one more unit on top.
proof fn lemma_forest_push(units: Seq<UnitModel>, u: UnitModel, max_depth: nat)
    requires
        u.depth <= max_depth,
    ensures
        forest_size(units.push(u), max_depth) == forest_size(units, max_depth) + tree_size(
            (max_depth - u.depth) as nat,
        ),
{
    assert(units.push(u).drop_last() =~= units);
}

/// The refusal of a geometry as too large takes one unit out of the forest
/// of the stack, or more, and counts no success.
pub proof fn lemma_oversized_spends_one(c: ControllerModel)
    requires
        well_formed(c),
        c.units.len() > 0,
    ensures
        forest_size(react(c, Outcome::Failure(FailureClass::Oversized)).0.units, c.max_depth)
            < forest_size(c.units, c.max_depth),
        react(c, Outcome::Failure(FailureClass::Oversized)).0.successes == c.successes,
{
    let top = c.units.last();
    let rest = c.units.drop_last();
    let levels: nat = (c.max_depth - top.depth) as nat;
    if top.depth < c.max_depth {
        match split_shape(top.shape) {
            Ok((low, high)) => {
                let first = fresh_unit(low, top.depth + 1);
                let second = fresh_unit(high, top.depth + 1);
                lemma_forest_push(rest, first, c.max_depth);
                lemma_forest_push(rest.push(first), second, c.max_depth);
                assert(tree_size(levels) == 1 + 2 * tree_size((levels - 1) as nat));
            },
            Err(_) => {},
        }
    }
}

/// A run in which every query is refused as too large ends after at most as
/// many queries as the forest of the start has units, and without a new
/// success.
pub proof fn lemma_oversized_run_ends(c: ControllerModel, outcomes: Seq<Outcome>)
    requires
        well_formed(c),
        all_oversized(outcomes),
    ensures
        after_outcomes(c, outcomes).successes == c.successes,
        after_outcomes(c, outcomes).units.len() == 0 || forest_size(
            after_outcomes(c, outcomes).units,
            c.max_depth,
        ) + outcomes.len() <= forest_size(c.units, c.max_depth),
        outcomes.len() >= forest_size(c.units, c.max_depth) ==> after_outcomes(
            c,
            outcomes,
        ).units.len() == 0,
    decreases outcomes.len(),
{
    if outcomes.len() > 0 {
        let front = outcomes.drop_last();
        let so_far = after_outcomes(c, front);
        assert forall|i: int| 0 <= i < front.len() implies #[trigger] front[i] == Outcome::Failure(
            FailureClass::Oversized,
        ) by {
            assert(front[i] == outcomes[i]);
        }
        assert(outcomes.last() == outcomes[outcomes.len() - 1]);
        lemma_oversized_run_ends(c, front);
        lemma_run_ends_within_budget(c, front);
        if so_far.units.len() > 0 {
            lemma_oversized_spends_one(so_far);
        }
    }
    let end = after_outcomes(c, outcomes);
    if end.units.len() > 0 {
        assert(forest_size(end.units, c.max_depth) >= 1) by {
            lemma_run_ends_within_budget(c, outcomes);
            assert(end.units.last() == end.units[end.units.len() - 1]);
        }
    }
}

/// From its seed on, a feature whose every query is refused as too large
/// costs at most `2 * 2^max_depth - 1` queries, and ends without a success.
pub proof fn lemma_oversized_feature_fails(shape: Shape, max_depth: nat, outcomes: Seq<Outcome>)
    requires
        max_depth <= DEPTH_LIMIT,
        all_oversized(outcomes),
        outcomes.len() >= 2 * pow2(max_depth) - 1,
    ensures
        ({
            let start = ControllerModel {
                units: seq![fresh_unit(shape, 0)],
                successes: 0,
                max_depth,
            };
            &&& after_outcomes(start, outcomes).units.len() == 0
            &&& after_outcomes(start, outcomes).successes == 0
        }),
{
    let seed = fresh_unit(shape, 0);
    let start = ControllerModel { units: seq![seed], successes: 0, max_depth };
    assert(start.units =~= Seq::<UnitModel>::empty().push(seed));
    lemma_budget_push(Seq::<UnitModel>::empty(), seed, max_depth);
    lemma_forest_push(Seq::<UnitModel>::empty(), seed, max_depth);
    assert(budget(Seq::<UnitModel>::empty(), max_depth) == 0);
    assert(forest_size(Seq::<UnitModel>::empty(), max_depth) == 0);
    lemma_attempts_fit(max_depth);
    lemma_tree_closed_form(max_depth);
    lemma_oversized_run_ends(start, outcomes);
}

/// A unit that fails for quota twice in a row is queried exactly twice:
/// the first failure leaves it on top, unchanged but for its mark, and the
/// second takes it off. Nothing else on the stack changes.
pub proof fn lemma_quota_retried_once(c: ControllerModel)
    requires
        c.units.len() > 0,
        !c.units.last().retried,
    ensures
        ({
            let quota = Outcome::Failure(FailureClass::Quota);
            let (first, first_reaction) = react(c, quota);
            let (second, second_reaction) = react(first, quota);
            &&& first_reaction == Reaction::RetryAfterDelay
            &&& first.units == c.units.drop_last().push(
                UnitModel { retried: true, ..c.units.last() },
            )
            &&& first.successes == c.successes
            &&& second_reaction == Reaction::Dropped(DropCause::QuotaExhausted)
            &&& second.units == c.units.drop_last()
            &&& second.successes == c.successes
        }),
{
    let quota = Outcome::Failure(FailureClass::Quota);
    let first = react(c, quota).0;
    let marked = UnitModel { retried: true, ..c.units.last() };
    assert(first.units.last() == marked);
    assert(first.units.drop_last() =~= c.units.drop_last());
}

/// An oversized unit is never left as it is: it is replaced by exactly two
/// units, unmarked and one level deeper, which hold the two halves of its
/// geometry; or, where it has no two halves or lies at the bound of the
/// depth, it leaves the stack.
pub proof fn lemma_oversized_replaced_by_two(c: ControllerModel)
    requires
        c.units.len() > 0,
    ensures
        ({
            let top = c.units.last();
            let (after, reaction) = react(c, Outcome::Failure(FailureClass::Oversized));
            if top.depth < c.max_depth && split_shape(top.shape) is Ok {
                &&& reaction == Reaction::Split
                &&& after.units.len() == c.units.len() + 1
                &&& after.units.subrange(0, c.units.len() - 1) == c.units.drop_last()
                &&& after.units[c.units.len() - 1] == fresh_unit(
                    split_shape(top.shape)->Ok_0.0,
                    top.depth + 1,
                )
                &&& after.units[c.units.len() as int] == fresh_unit(
                    split_shape(top.shape)->Ok_0.1,
                    top.depth + 1,
                )
            } else {
                &&& reaction is Dropped
                &&& after.units == c.units.drop_last()
            }
        }),
{
    let top = c.units.last();
    let after = react(c, Outcome::Failure(FailureClass::Oversized)).0;
    if top.depth < c.max_depth && split_shape(top.shape) is Ok {
        assert(after.units.subrange(0, c.units.len() - 1) =~= c.units.drop_last());
    }
}

/// The units of a stack, as what they hold.
pub open spec fn unit_models(stack: Seq<FetchUnit>) -> Seq<UnitModel> {
    Seq::new(stack.len(), |i: int| stack[i]@)
}

/// The controller of one feature.
pub struct FetchController {
    stack: Vec<FetchUnit>,
    successes: u64,
    max_depth: u32,
}

impl View for FetchController {
    type V = ControllerModel;

    closed spec fn view(&self) -> ControllerModel {
        ControllerModel {
            units: unit_models(self.stack@),
            successes: self.successes as nat,
            max_depth: self.max_depth as nat,
        }
    }
}

impl FetchController {
    #[verifier::type_invariant]
    spec fn inv(self) -> bool {
        well_formed(self@)
    }

    /// The controller that starts with the one unit `seed`. A bound of the
    /// split depth over `DEPTH_LIMIT` is taken as `DEPTH_LIMIT`.
    pub fn new(seed: Geometry, max_depth: u32) -> (c: Self)
        ensures
            c@.units == seq![fresh_unit(seed@, 0)],
            c@.successes == 0,
            c@.max_depth == if max_depth <= DEPTH_LIMIT {
                max_depth
            } else {
                DEPTH_LIMIT
            },
            well_formed(c@),
    {
        let bound: u32 = if max_depth <= DEPTH_LIMIT {
            max_depth
        } else {
            DEPTH_LIMIT
        };
        let mut stack: Vec<FetchUnit> = Vec::new();
        stack.push(FetchUnit { geometry: seed, retried: false, depth: 0 });
        proof {
            let units = unit_models(stack@);
            assert(units =~= seq![fresh_unit(seed@, 0)]);
            assert(units =~= Seq::<UnitModel>::empty().push(fresh_unit(seed@, 0)));
            lemma_attempts_fit(bound as nat);
            lemma_budget_push(Seq::<UnitModel>::empty(), fresh_unit(seed@, 0), bound as nat);
            assert(budget(Seq::<UnitModel>::empty(), bound as nat) == 0);
        }
        FetchController { stack, successes: 0, max_depth: bound }
    }

    /// Tells whether no unit is left.
    pub fn is_finished(&self) -> (done: bool)
        ensures
            done == (self@.units.len() == 0),
    {
        self.stack.len() == 0
    }

    /// The unit to query next: the top of the stack.
    pub fn current(&self) -> (unit: Option<&FetchUnit>)
        ensures
            match unit {
                Some(u) => self@.units.len() > 0 && u@ == self@.units.last(),
                None => self@.units.len() == 0,
            },
    {
        let n: usize = self.stack.len();
        if n == 0 {
            None
        } else {
            Some(&self.stack[n - 1])
        }
    }

    /// The number of units that succeeded so far.
    pub fn success_count(&self) -> (n: u64)
        ensures
            n == self@.successes,
    {
        self.successes
    }

    /// The result for the feature: whether at least one unit succeeded.
    pub fn succeeded(&self) -> (ok: bool)
        ensures
            ok == (self@.successes > 0),
    {
        self.successes > 0
    }

    /// Takes in the outcome of the query for the top unit.
    pub fn step(&mut self, outcome: Outcome) -> (reaction: Reaction)
        ensures
            (final(self)@, reaction) == react(old(self)@, outcome),
            well_formed(old(self)@),
            well_formed(final(self)@),
            old(self)@.units.len() > 0 ==> budget(final(self)@.units, final(self)@.max_depth)
                < budget(old(self)@.units, old(self)@.max_depth),
    {
        proof {
            use_type_invariant(&*self);
            if self@.units.len() > 0 {
                lemma_step_spends_budget(self@, outcome);
            }
        }
        let ghost before = self@;
        let ghost after = react(before, outcome).0;
        let n: usize = self.stack.len();
        if n == 0 {
            return Reaction::Idle;
        }
        let mut stack: Vec<FetchUnit> = Vec::new();
        core::mem::swap(&mut self.stack, &mut stack);
        let top: FetchUnit = stack.pop().unwrap();
        assert(top@ == before.units.last());
        assert(unit_models(stack@) =~= before.units.drop_last());
        let mut successes: u64 = self.successes;
        let reaction: Reaction = match outcome {
            Outcome::Success => {
                let sequence: u64 = successes;
                successes = successes + 1;
                Reaction::Stored(sequence)
            },
            Outcome::Failure(FailureClass::Quota) => {
                if top.retried {
                    Reaction::Dropped(DropCause::QuotaExhausted)
                } else {
                    let ghost rest = stack@;
                    stack.push(FetchUnit { geometry: top.geometry, retried: true, depth: top.depth });
                    assert(unit_models(stack@) =~= unit_models(rest).push(
                        UnitModel { retried: true, ..top@ },
                    ));
                    Reaction::RetryAfterDelay
                }
            },
            Outcome::Failure(FailureClass::Oversized) => {
                if top.depth >= self.max_depth {
                    Reaction::Dropped(DropCause::Unsplittable(GeometryError::TooDeep))
                } else {
                    match split_geometry(&top.geometry) {
                        Ok((low, high)) => {
                            let ghost rest = stack@;
                            let depth: u32 = top.depth + 1;
                            stack.push(FetchUnit { geometry: low, retried: false, depth });
                            stack.push(FetchUnit { geometry: high, retried: false, depth });
                            assert(unit_models(stack@) =~= unit_models(rest).push(
                                fresh_unit(low@, depth as nat),
                            ).push(fresh_unit(high@, depth as nat)));
                            Reaction::Split
                        },
                        Err(e) => Reaction::Dropped(DropCause::Unsplittable(e)),
                    }
                }
            },
            Outcome::Failure(FailureClass::Other) => Reaction::Dropped(DropCause::Terminal),
        };
        assert(unit_models(stack@) == after.units);
        assert(successes == after.successes);
        self.stack = stack;
        self.successes = successes;
        reaction
    }
}

} // verus!
