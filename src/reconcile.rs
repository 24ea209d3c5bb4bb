//! The reconciliation engine: a state machine that walks the configured
//! domains in order and says, step by step, which provider call to make
//! next. The caller performs each call and hands back its result.
//!
//! A domain is up to date when it publishes exactly the discovered address.
//! Otherwise its first published value is deleted (when there is one) and
//! the discovered address is created. The first failure ends the run.

use vstd::prelude::*;

use crate::address::Address;
use crate::config::Config;
use crate::error::Error;
use crate::records::{
    a_record_addresses, change_request, lemma_delete_only_value, listed_addresses, published_after,
    requests, ChangeAction, ChangeRequest, RecordSet,
};

verus! {

/// What became of one domain.
#[derive(Clone, Copy, Debug, PartialEq, Eq, Structural)]
pub enum Outcome {
    UpToDate,
    Updated,
    Failed(Error),
}

/// Where the run stands with the current domain.
#[derive(Clone, Copy, Debug, PartialEq, Eq, Structural)]
pub enum Phase {
    /// Its published addresses are to be listed.
    Listing,
    /// The stale value is to be deleted.
    Deleting(Address),
    /// The discovered address is to be created.
    Creating,
    /// The run is over.
    Finished,
}

/// The provider call that the run needs next.
pub enum Action {
    /// List the record sets of the zone, for the domain's name.
    List { hosted_zone_id: String, domain_name: String },
    /// Submit this change batch.
    Change(ChangeRequest),
    /// Nothing: the run is over.
    Stop,
}

/// Where a run stands: the index of the current domain, its phase, and the
/// outcomes of the domains dealt with so far.
pub type RunState = (nat, Phase, Seq<Outcome>);

/// The state that a run starts in.
pub open spec fn initial_state(count: nat) -> RunState {
    (0, if count > 0 { Phase::Listing } else { Phase::Finished }, Seq::<Outcome>::empty())
}

/// Moving on to the domain after `index`, of `count`.
pub open spec fn next_domain(count: nat, index: nat) -> (nat, Phase) {
    if index + 1 < count {
        ((index + 1) as nat, Phase::Listing)
    } else {
        ((index + 1) as nat, Phase::Finished)
    }
}

/// Whether the published addresses need no change: exactly the discovered
/// address, once.
pub open spec fn up_to_date(current: Seq<Address>, address: Address) -> bool {
    current == seq![address]
}

/// The state after the current domain's addresses were listed, as `found`
/// (or the listing failed with the error in it).
pub open spec fn after_listing(
    count: nat,
    s: RunState,
    address: Address,
    found: Result<Seq<Address>, Error>,
) -> RunState {
    match found {
        Err(e) => (s.0, Phase::Finished, s.2.push(Outcome::Failed(e))),
        Ok(current) => if up_to_date(current, address) {
            let n = next_domain(count, s.0);
            (n.0, n.1, s.2.push(Outcome::UpToDate))
        } else if current.len() > 0 {
            (s.0, Phase::Deleting(current[0]), s.2)
        } else {
            (s.0, Phase::Creating, s.2)
        },
    }
}

/// The state after the change that the phase called for succeeded or not.
pub open spec fn after_change(count: nat, s: RunState, succeeded: bool) -> RunState {
    if !succeeded {
        (s.0, Phase::Finished, s.2.push(Outcome::Failed(Error::Provider)))
    } else {
        match s.1 {
            Phase::Deleting(_) => (s.0, Phase::Creating, s.2),
            Phase::Creating => {
                let n = next_domain(count, s.0);
                (n.0, n.1, s.2.push(Outcome::Updated))
            },
            _ => s,
        }
    }
}

/// The change that a phase calls for, as an action and the address it names.
pub open spec fn planned_change(phase: Phase, address: Address) -> Option<(ChangeAction, Address)> {
    match phase {
        Phase::Deleting(old) => Some((ChangeAction::Delete, old)),
        Phase::Creating => Some((ChangeAction::Create, address)),
        _ => None,
    }
}

/// Whether `a` lists the record sets of `zone` for `name`.
pub open spec fn lists(a: Action, zone: Seq<char>, name: Seq<char>) -> bool {
    match a {
        Action::List { hosted_zone_id, domain_name } => hosted_zone_id@ == zone && domain_name@
            == name,
        _ => false,
    }
}

/// Whether `a` submits the change `c` to the A records of `name` in `zone`.
pub open spec fn submits(
    a: Action,
    zone: Seq<char>,
    name: Seq<char>,
    c: (ChangeAction, Address),
) -> bool {
    match a {
        Action::Change(req) => requests(req, zone, name, c.0, c.1),
        _ => false,
    }
}

/// What a listing of the record sets yields for a domain's name.
pub open spec fn listing_found(
    listed: Result<Vec<RecordSet>, Error>,
    name: Seq<char>,
) -> Result<Seq<Address>, Error> {
    match listed {
        Err(e) => Err(e),
        Ok(sets) => match listed_addresses(sets@, name) {
            Some(q) => Ok(q),
            None => Err(Error::Parse),
        },
    }
}

/// A run over the configured domains, against one discovered address.
pub struct Reconciler {
    config: Config,
    address: Address,
    index: usize,
    phase: Phase,
    outcomes: Vec<Outcome>,
}

impl Reconciler {
    pub closed spec fn count(&self) -> nat {
        self.config.domains@.len()
    }

    pub closed spec fn discovered(&self) -> Address {
        self.address
    }

    pub closed spec fn state(&self) -> RunState {
        (self.index as nat, self.phase, self.outcomes@)
    }

    /// The zone of the `k`-th domain.
    pub closed spec fn zone(&self, k: int) -> Seq<char> {
        self.config.domains@[k].hosted_zone_id@
    }

    /// The name of the `k`-th domain.
    pub closed spec fn name(&self, k: int) -> Seq<char> {
        self.config.domains@[k].domain_name@
    }

    /// The addresses last listed for the `k`-th domain.
    pub closed spec fn published(&self, k: int) -> Seq<Address> {
        self.config.domains@[k].ip_addresses@
    }

    pub closed spec fn wf(&self) -> bool {
        &&& self.index <= self.config.domains@.len()
        &&& self.phase != Phase::Finished ==> self.index < self.config.domains@.len()
        &&& self.phase == Phase::Finished && self.index < self.config.domains@.len()
            ==> self.outcomes@.len() > 0 && self.outcomes@.last() is Failed
    }

    /// Starts a run over the configured domains, in order.
    pub fn new(config: Config, address: Address) -> (r: Reconciler)
        ensures
            r.wf(),
            r.count() == config.domains@.len(),
            r.discovered() == address,
            forall|k: int|
                0 <= k < r.count() ==> #[trigger] r.zone(k) == config.domains@[k].hosted_zone_id@
                    && r.name(k) == config.domains@[k].domain_name@ && r.published(k)
                    == config.domains@[k].ip_addresses@,
            r.state() == initial_state(config.domains@.len()),
    {
        let phase = if config.domains.len() > 0 {
            Phase::Listing
        } else {
            Phase::Finished
        };
        Reconciler { config, address, index: 0, phase, outcomes: Vec::new() }
    }

    /// The configured domains, each with the addresses last listed for it.
    pub fn config(&self) -> (r: &Config)
        ensures
            r.domains@.len() == self.count(),
            forall|k: int|
                0 <= k < self.count() ==> #[trigger] r.domains@[k].hosted_zone_id@ == self.zone(k)
                    && r.domains@[k].domain_name@ == self.name(k) && r.domains@[k].ip_addresses@
                    == self.published(k),
    {
        &self.config
    }

    /// The current phase.
    pub fn phase(&self) -> (r: Phase)
        ensures
            r == self.state().1,
    {
        self.phase
    }

    /// The outcomes of the domains dealt with so far, in order.
    pub fn outcomes(&self) -> (r: &Vec<Outcome>)
        ensures
            r@ == self.state().2,
    {
        &self.outcomes
    }

    /// Whether the run is over.
    pub fn is_finished(&self) -> (r: bool)
        ensures
            r == (self.state().1 == Phase::Finished),
    {
        self.phase == Phase::Finished
    }

    /// Whether the run is over with every domain up to date or updated.
    pub fn succeeded(&self) -> (r: bool)
        requires
            self.wf(),
        ensures
            r == (self.state().1 == Phase::Finished && forall|k: int|
                0 <= k < self.state().2.len() ==> !(#[trigger] self.state().2[k] is Failed)),
    {
        if self.phase != Phase::Finished {
            return false;
        }
        let mut k: usize = 0;
        while k < self.outcomes.len()
            invariant
                k <= self.outcomes@.len(),
                forall|j: int| 0 <= j < k ==> !(#[trigger] self.outcomes@[j] is Failed),
            decreases self.outcomes@.len() - k,
        {
            match self.outcomes[k] {
                Outcome::Failed(_) => {
                    return false;
                },
                _ => {},
            }
            k = k + 1;
        }
        true
    }

    /// The provider call that the run needs next.
    pub fn next_action(&self) -> (r: Action)
        requires
            self.wf(),
        ensures
            self.state().1 == Phase::Listing ==> lists(
                r,
                self.zone(self.state().0 as int),
                self.name(self.state().0 as int),
            ),
            planned_change(self.state().1, self.discovered()) is Some ==> submits(
                r,
                self.zone(self.state().0 as int),
                self.name(self.state().0 as int),
                planned_change(self.state().1, self.discovered())->0,
            ),
            self.state().1 == Phase::Finished ==> r is Stop,
    {
        if self.phase == Phase::Finished {
            return Action::Stop;
        }
        let domain = &self.config.domains[self.index];
        match self.phase {
            Phase::Listing => Action::List {
                hosted_zone_id: String::from_str(domain.hosted_zone_id.as_str()),
                domain_name: String::from_str(domain.domain_name.as_str()),
            },
            Phase::Deleting(old) => Action::Change(
                change_request(&domain.hosted_zone_id, &domain.domain_name, old, ChangeAction::Delete),
            ),
            _ => Action::Change(
                change_request(
                    &domain.hosted_zone_id,
                    &domain.domain_name,
                    self.address,
                    ChangeAction::Create,
                ),
            ),
        }
    }

    fn move_on(&mut self)
        requires
            old(self).index < old(self).config.domains@.len(),
        ensures
            final(self).config == old(self).config,
            final(self).address == old(self).address,
            final(self).outcomes == old(self).outcomes,
            (final(self).index as nat, final(self).phase) == next_domain(
                old(self).config.domains@.len(),
                old(self).index as nat,
            ),
    {
        let n = self.config.domains.len();
        self.index = self.index + 1;
        if self.index < n {
            self.phase = Phase::Listing;
        } else {
            self.phase = Phase::Finished;
        }
    }

    /// Takes the result of listing the current domain's record sets.
    pub fn on_listed(&mut self, listed: Result<Vec<RecordSet>, Error>)
        requires
            old(self).wf(),
            old(self).state().1 == Phase::Listing,
        ensures
            final(self).wf(),
            final(self).count() == old(self).count(),
            final(self).discovered() == old(self).discovered(),
            forall|k: int|
                0 <= k < old(self).count() ==> #[trigger] final(self).zone(k) == old(self).zone(k),
            forall|k: int|
                0 <= k < old(self).count() ==> #[trigger] final(self).name(k) == old(self).name(k),
            final(self).state() == after_listing(
                old(self).count(),
                old(self).state(),
                old(self).discovered(),
                listing_found(listed, old(self).name(old(self).state().0 as int)),
            ),
            forall|k: int|
                0 <= k < old(self).count() && k != old(self).state().0 ==> #[trigger] final(self).published(k) == old(self).published(
                    k,
                ),
            match listing_found(listed, old(self).name(old(self).state().0 as int)) {
                Ok(current) => final(self).published(old(self).state().0 as int) == current,
                Err(_) => final(self).published(old(self).state().0 as int) == old(self).published(
                    old(self).state().0 as int,
                ),
            },
    {
        let found = match listed {
            Err(e) => Err(e),
            Ok(sets) => a_record_addresses(&sets, self.config.domains[self.index].domain_name.as_str()),
        };
        match found {
            Err(e) => {
                self.outcomes.push(Outcome::Failed(e));
                self.phase = Phase::Finished;
            },
            Ok(current) => {
                let index = self.index;
                if current.len() == 1 && current[0] == self.address {
                    assert(current@ =~= seq![self.address]);
                    self.outcomes.push(Outcome::UpToDate);
                    self.move_on();
                } else if current.len() > 0 {
                    self.phase = Phase::Deleting(current[0]);
                } else {
                    self.phase = Phase::Creating;
                }
                self.config.domains[index].ip_addresses = current;
            },
        }
    }

    /// Takes whether the change that the phase called for succeeded.
    pub fn on_changed(&mut self, succeeded: bool)
        requires
            old(self).wf(),
            planned_change(old(self).state().1, old(self).discovered()) is Some,
        ensures
            final(self).wf(),
            final(self).count() == old(self).count(),
            final(self).discovered() == old(self).discovered(),
            forall|k: int|
                0 <= k < old(self).count() ==> #[trigger] final(self).zone(k) == old(self).zone(k),
            forall|k: int|
                0 <= k < old(self).count() ==> #[trigger] final(self).name(k) == old(self).name(k),
            final(self).state() == after_change(old(self).count(), old(self).state(), succeeded),
            forall|k: int|
                0 <= k < old(self).count() ==> #[trigger] final(self).published(k) == old(
                    self,
                ).published(k),
    {
        if !succeeded {
            self.outcomes.push(Outcome::Failed(Error::Provider));
            self.phase = Phase::Finished;
        } else {
            match self.phase {
                Phase::Deleting(_) => {
                    self.phase = Phase::Creating;
                },
                _ => {
                    self.outcomes.push(Outcome::Updated);
                    self.move_on();
                },
            }
        }
    }
}

/// A domain that publishes exactly the discovered address is up to date, and
/// no change is planned for it: the run moves on to the next domain.
pub proof fn lemma_matching_record_kept(count: nat, s: RunState, address: Address)
    requires
        s.0 < count,
    ensures
        ({
            let t = after_listing(count, s, address, Ok(seq![address]));
            &&& t.2 == s.2.push(Outcome::UpToDate)
            &&& t.0 == s.0 + 1
            &&& planned_change(t.1, address) is None
        }),
{
}

/// A domain that publishes no value, or one value other than the discovered
/// address, is updated once the provider accepts the changes: exactly one
/// replacement is made, its new value the discovered address, and only a
/// value that was published is deleted.
pub proof fn lemma_stale_record_replaced(
    count: nat,
    s: RunState,
    address: Address,
    current: Seq<Address>,
)
    requires
        s.0 < count,
        current.len() == 0 || (current.len() == 1 && current[0] != address),
    ensures
        ({
            let t1 = after_listing(count, s, address, Ok(current));
            let t2 = after_change(count, t1, true);
            let t3 = after_change(count, t2, true);
            if current.len() == 0 {
                &&& planned_change(t1.1, address) == Some((ChangeAction::Create, address))
                &&& t2.2 == s.2.push(Outcome::Updated)
                &&& t2.0 == s.0 + 1
                &&& planned_change(t2.1, address) is None
            } else {
                &&& planned_change(t1.1, address) == Some((ChangeAction::Delete, current[0]))
                &&& planned_change(t2.1, address) == Some((ChangeAction::Create, address))
                &&& t3.2 == s.2.push(Outcome::Updated)
                &&& t3.0 == s.0 + 1
                &&& planned_change(t3.1, address) is None
            }
        }),
{
    if current.len() == 1 {
        assert(current != seq![address]);
    }
}

/// When the deletion of the stale value fails, the domain fails, the run
/// ends, and the creation is never attempted.
pub proof fn lemma_failed_delete_stops(count: nat, s: RunState, address: Address, stale: Address)
    requires
        s.1 == Phase::Deleting(stale),
    ensures
        ({
            let t = after_change(count, s, false);
            &&& t.2 == s.2.push(Outcome::Failed(Error::Provider))
            &&& t.1 == Phase::Finished
            &&& planned_change(t.1, address) is None
        }),
{
}

/// When the deletion succeeds and the creation fails, the domain fails, the
/// run ends, and the name is left publishing no value at all.
pub proof fn lemma_failed_create_leaves_nothing(
    count: nat,
    s: RunState,
    address: Address,
    stale: Address,
)
    requires
        s.1 == Phase::Deleting(stale),
    ensures
        ({
            let t1 = after_change(count, s, true);
            let t2 = after_change(count, t1, false);
            &&& planned_change(t1.1, address) == Some((ChangeAction::Create, address))
            &&& t2.2 == s.2.push(Outcome::Failed(Error::Provider))
            &&& t2.1 == Phase::Finished
            &&& published_after(seq![stale], ChangeAction::Delete, stale) == Seq::<Address>::empty()
        }),
{
    lemma_delete_only_value(stale);
}

} // verus!
