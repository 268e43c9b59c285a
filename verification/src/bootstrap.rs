//! The start-up of the forwarder. Whatever is stored under the session-state interface when
//! the forwarder starts was left by sessions of an earlier run, which are over: each such
//! property is cleared before the forwarder takes requests.
//!
//! The start-up never waits either: it names the property to clear next, and the outcome
//! of clearing it is handed back to get the step after it.

use crate::error::{ForwarderError, Outcome};
use crate::forwarder::{Forwarder, Task};
use crate::status::FORWARDER_SESSION_STATE_INTERFACE;
use crate::store::{no_session_state, Properties};
use vstd::prelude::*;

verus! {

/// A property that the publisher has stored under the session-state interface.
#[derive(Debug, Clone, PartialEq, Eq)]
pub struct StoredProp {
    /// The path of the property.
    pub path: String,
    /// The stored value.
    pub value: String,
}

/// A start-up that is under way: the stored properties that are still to be cleared once
/// the one at hand is.
#[derive(Debug)]
pub struct Bootstrap {
    /// The properties to clear after the one at hand, in their order.
    pub remaining: Vec<StoredProp>,
}

/// Where the start-up stands.
#[derive(Debug)]
pub enum Init {
    /// Clear this property under the session-state interface, then go on with the outcome.
    Unset(Bootstrap, StoredProp),
    /// Nothing stale is left: the forwarder is ready.
    Ready(Forwarder),
    /// The start-up failed, and there is no forwarder.
    Failed(ForwarderError),
}

/// Where the start-up stands, without the forwarder that it ends with.
pub enum InitView {
    /// The properties that are still to be cleared, and the one to clear now.
    Unset(Seq<StoredProp>, StoredProp),
    /// Nothing stale is left.
    Ready,
    /// The start-up failed with this error.
    Failed(ForwarderError),
}

impl View for Init {
    type V = InitView;

    open spec fn view(&self) -> InitView {
        match *self {
            Init::Unset(bootstrap, prop) => InitView::Unset(bootstrap.remaining@, prop),
            Init::Ready(_) => InitView::Ready,
            Init::Failed(error) => InitView::Failed(error),
        }
    }
}

/// The start-up with `stale` left to clear: the first of them is cleared next, and without
/// any the forwarder is ready.
pub open spec fn clearing(stale: Seq<StoredProp>) -> InitView {
    if stale.len() == 0 {
        InitView::Ready
    } else {
        InitView::Unset(stale.drop_first(), stale[0])
    }
}

/// The start-up on what the publisher listed: every listed property is to be cleared,
/// whatever its value, and a listing that failed fails the start-up.
pub open spec fn begin(listing: Result<Seq<StoredProp>, ForwarderError>) -> InitView {
    match listing {
        Ok(stale) => clearing(stale),
        Err(error) => InitView::Failed(error),
    }
}

impl InitView {
    /// Where the start-up stands when the property at hand was cleared, or could not be:
    /// one property that cannot be cleared fails the start-up.
    pub open spec fn after(self, outcome: Outcome) -> InitView {
        match (self, outcome) {
            (InitView::Unset(remaining, _), Ok(_)) => clearing(remaining),
            (InitView::Unset(_, _), Err(error)) => InitView::Failed(error),
            _ => self,
        }
    }

    /// Where the start-up stands after its steps ended, one after the other, in `outcomes`.
    pub open spec fn run(self, outcomes: Seq<Outcome>) -> InitView
        decreases outcomes.len(),
    {
        if outcomes.len() == 0 {
            self
        } else {
            self.after(outcomes[0]).run(outcomes.drop_first())
        }
    }

    /// What is stored after those steps, if `properties` were stored before them: each
    /// step that ended well has cleared its property.
    pub open spec fn properties_after(self, outcomes: Seq<Outcome>, properties: Properties)
        -> Properties
        decreases outcomes.len(),
    {
        if outcomes.len() == 0 {
            properties
        } else {
            self.after(outcomes[0]).properties_after(
                outcomes.drop_first(),
                match (self, outcomes[0]) {
                    (InitView::Unset(_, prop), Ok(_)) => properties.remove(
                        (FORWARDER_SESSION_STATE_INTERFACE@, prop.path@),
                    ),
                    _ => properties,
                },
            )
        }
    }
}

/// Goes on with the properties that are left to clear.
fn clear(stale: Vec<StoredProp>) -> (init: Init)
    ensures
        init@ == clearing(stale@),
        init matches Init::Ready(forwarder) ==> forwarder@ == Seq::<Task>::empty(),
{
    let mut remaining = stale;
    if remaining.len() == 0 {
        Init::Ready(Forwarder::new())
    } else {
        let prop = remaining.remove(0);
        assert(remaining@ == stale@.drop_first());
        Init::Unset(Bootstrap { remaining }, prop)
    }
}

impl Forwarder {
    /// Starts the forwarder, given what the publisher listed under the session-state
    /// interface. The forwarder is ready, and without tasks, once every listed property
    /// has been cleared.
    pub fn init(listing: Result<Vec<StoredProp>, ForwarderError>) -> (init: Init)
        ensures
            init@ == begin(
                match listing {
                    Ok(stale) => Ok(stale@),
                    Err(error) => Err(error),
                },
            ),
            init matches Init::Ready(forwarder) ==> forwarder@ == Seq::<Task>::empty(),
    {
        match listing {
            Ok(stale) => clear(stale),
            Err(error) => Init::Failed(error),
        }
    }
}

impl Bootstrap {
    /// Takes the outcome of clearing the property at hand and says how the start-up goes
    /// on.
    pub fn step(self, outcome: Outcome) -> (init: Init)
        ensures
            init@ == match outcome {
                Ok(_) => clearing(self.remaining@),
                Err(error) => InitView::Failed(error),
            },
            init matches Init::Ready(forwarder) ==> forwarder@ == Seq::<Task>::empty(),
    {
        match outcome {
            Ok(_) => clear(self.remaining),
            Err(error) => Init::Failed(error),
        }
    }
}

/// Whether `listing` names every property that is stored under the session-state interface.
pub open spec fn lists_all(properties: Properties, listing: Seq<StoredProp>) -> bool {
    forall|path: Seq<char>| #[trigger]
        properties.contains_key((FORWARDER_SESSION_STATE_INTERFACE@, path)) ==> exists|i: int|
            0 <= i < listing.len() && (#[trigger] listing[i]).path@ == path
}

/// Whether each of the first `count` outcomes is a success.
pub open spec fn all_well(outcomes: Seq<Outcome>, count: int) -> bool {
    forall|i: int| 0 <= i < count && i < outcomes.len() ==> (#[trigger] outcomes[i]) is Ok
}

/// A start-up whose steps all end well clears what is left to clear and is ready then.
pub proof fn lemma_clearing_clears(
    stale: Seq<StoredProp>,
    outcomes: Seq<Outcome>,
    properties: Properties,
)
    requires
        lists_all(properties, stale),
        outcomes.len() >= stale.len(),
        all_well(outcomes, stale.len() as int),
    ensures
        clearing(stale).run(outcomes) == InitView::Ready,
        no_session_state(clearing(stale).properties_after(outcomes, properties)),
    decreases outcomes.len(),
{
    if outcomes.len() > 0 {
        if stale.len() > 0 {
            let rest = stale.drop_first();
            let left = properties.remove((FORWARDER_SESSION_STATE_INTERFACE@, stale[0].path@));
            assert(outcomes[0] is Ok);
            assert(all_well(outcomes.drop_first(), rest.len() as int)) by {
                assert forall|i: int| 0 <= i < rest.len() && i < outcomes.drop_first().len() implies (
                #[trigger] outcomes.drop_first()[i]) is Ok by {
                    assert(outcomes[i + 1] is Ok);
                }
            }
            assert(lists_all(left, rest)) by {
                assert forall|path: Seq<char>| #[trigger]
                    left.contains_key(
                        (FORWARDER_SESSION_STATE_INTERFACE@, path),
                    ) implies exists|i: int|
                    0 <= i < rest.len() && (#[trigger] rest[i]).path@ == path by {
                    assert(properties.contains_key((FORWARDER_SESSION_STATE_INTERFACE@, path)));
                    let i = choose|i: int|
                        0 <= i < stale.len() && (#[trigger] stale[i]).path@ == path;
                    assert(rest[i - 1] == stale[i]);
                }
            }
            lemma_clearing_clears(rest, outcomes.drop_first(), left);
        } else {
            lemma_over_stays(InitView::Ready, outcomes.drop_first(), properties);
        }
    }
}

/// Once the start-up is over, nothing follows and nothing more is cleared.
pub proof fn lemma_over_stays(init: InitView, outcomes: Seq<Outcome>, properties: Properties)
    requires
        !(init is Unset),
    ensures
        init.run(outcomes) == init,
        init.properties_after(outcomes, properties) == properties,
    decreases outcomes.len(),
{
    if outcomes.len() > 0 {
        lemma_over_stays(init, outcomes.drop_first(), properties);
    }
}

/// The start-up clears every stale entry: where the publisher listed all that is stored
/// under the session-state interface, and each of the listed properties could be cleared,
/// the forwarder is ready and nothing is stored under that interface any more.
pub proof fn lemma_bootstrap_clears_all(
    listing: Seq<StoredProp>,
    outcomes: Seq<Outcome>,
    properties: Properties,
)
    requires
        lists_all(properties, listing),
        outcomes.len() == listing.len(),
        all_well(outcomes, listing.len() as int),
    ensures
        begin(Ok(listing)).run(outcomes) == InitView::Ready,
        no_session_state(begin(Ok(listing)).properties_after(outcomes, properties)),
{
    lemma_clearing_clears(listing, outcomes, properties);
}

/// The start-up clears the listed properties in the order of the listing: while all goes
/// well, the property at place `done` is cleared after `done` others.
pub proof fn lemma_bootstrap_clears_in_order(
    listing: Seq<StoredProp>,
    outcomes: Seq<Outcome>,
    done: int,
)
    requires
        0 <= done < listing.len(),
        outcomes.len() == done,
        all_well(outcomes, done),
    ensures
        begin(Ok(listing)).run(outcomes) == InitView::Unset(
            listing.subrange(done + 1, listing.len() as int),
            listing[done],
        ),
    decreases done,
{
    if done == 0 {
        assert(listing.drop_first() == listing.subrange(1, listing.len() as int));
    } else {
        let rest = listing.drop_first();
        assert(outcomes[0] is Ok);
        assert(all_well(outcomes.drop_first(), done - 1)) by {
            assert forall|i: int| 0 <= i < done - 1 implies (#[trigger] outcomes.drop_first()[i]) is Ok by {
                assert(outcomes[i + 1] is Ok);
            }
        }
        lemma_bootstrap_clears_in_order(rest, outcomes.drop_first(), done - 1);
        assert(rest.subrange(done, rest.len() as int) == listing.subrange(
            done + 1,
            listing.len() as int,
        ));
    }
}

/// One failure fails the start-up: where the listing failed, or one of the listed
/// properties could not be cleared, the start-up fails with that error, and no forwarder
/// comes of it whatever follows.
pub proof fn lemma_bootstrap_fails_on_failure(
    listing: Seq<StoredProp>,
    outcomes: Seq<Outcome>,
    failed: int,
    error: ForwarderError,
)
    requires
        0 <= failed < listing.len(),
        failed < outcomes.len(),
        all_well(outcomes, failed),
        outcomes[failed] == Err::<(), ForwarderError>(error),
    ensures
        begin(Ok(listing)).run(outcomes) == InitView::Failed(error),
        forall|later: Seq<Outcome>| #[trigger]
            begin(Err(error)).run(later) == InitView::Failed(error),
    decreases failed,
{
    assert forall|later: Seq<Outcome>| #[trigger]
        begin(Err(error)).run(later) == InitView::Failed(error) by {
        lemma_over_stays(InitView::Failed(error), later, Map::empty());
    }
    if failed == 0 {
        lemma_over_stays(InitView::Failed(error), outcomes.drop_first(), Map::empty());
    } else {
        assert(outcomes[0] is Ok);
        assert(all_well(outcomes.drop_first(), failed - 1)) by {
            assert forall|i: int| 0 <= i < failed - 1 implies (#[trigger] outcomes.drop_first()[i]) is Ok by {
                assert(outcomes[i + 1] is Ok);
            }
        }
        lemma_bootstrap_fails_on_failure(
            listing.drop_first(),
            outcomes.drop_first(),
            failed - 1,
            error,
        );
    }
}

} // verus!
