//! The run's configuration: the domains to keep up to date, each bound to
//! the hosted zone that publishes its records.

use vstd::prelude::*;

use crate::address::Address;
use crate::error::Error;
use crate::text::{chars_of, split_bounds, split_on};

verus! {

/// A domain to reconcile, with the A record values last read for it.
pub struct Domain {
    pub hosted_zone_id: String,
    pub domain_name: String,
    pub ip_addresses: Vec<Address>,
}

/// The domains of a run, in the order in which they are reconciled.
pub struct Config {
    pub domains: Vec<Domain>,
}

/// Whether one `zone/name` entry holds the `/` separator. Its zone is the
/// piece before the first `/`, its name the piece after it, up to any
/// further `/`.
pub open spec fn entry_well_formed(e: Seq<char>) -> bool {
    split_on(e, '/').len() >= 2
}

/// The zone of a well-formed entry.
pub open spec fn entry_zone(e: Seq<char>) -> Seq<char> {
    split_on(e, '/')[0]
}

/// The domain name of a well-formed entry.
pub open spec fn entry_name(e: Seq<char>) -> Seq<char> {
    split_on(e, '/')[1]
}

/// The entries of a configuration text, separated by `,`.
pub open spec fn config_entries(s: Seq<char>) -> Seq<Seq<char>> {
    split_on(s, ',')
}

/// Whether every entry of the text holds the `/` separator.
pub open spec fn config_valid(s: Seq<char>) -> bool {
    forall|k: int|
        0 <= k < config_entries(s).len() ==> #[trigger] entry_well_formed(config_entries(s)[k])
}

/// Whether `c` holds, in order, the domains that the text describes, none
/// of them with addresses yet.
pub open spec fn describes(c: Config, s: Seq<char>) -> bool {
    &&& c.domains@.len() == config_entries(s).len()
    &&& forall|k: int|
        #![trigger c.domains@[k]]
        0 <= k < c.domains@.len() ==> {
            &&& c.domains@[k].hosted_zone_id@ == entry_zone(config_entries(s)[k])
            &&& c.domains@[k].domain_name@ == entry_name(config_entries(s)[k])
            &&& c.domains@[k].ip_addresses@.len() == 0
        }
}

/// Reads a configuration such as `zoneA/example.com,zoneB/example.org`.
/// An entry without a `/` makes the whole configuration malformed.
pub fn parse_config(text: &str) -> (r: Result<Config, Error>)
    ensures
        match r {
            Ok(c) => config_valid(text@) && describes(c, text@),
            Err(e) => e == Error::Config && !config_valid(text@),
        },
{
    let chars = chars_of(text);
    let bounds = split_bounds(&chars, ',');
    let ghost entries = config_entries(text@);
    let mut domains: Vec<Domain> = Vec::new();
    let mut k: usize = 0;
    while k < bounds.len()
        invariant
            chars@ == text@,
            entries == config_entries(text@),
            bounds@.len() == entries.len(),
            forall|j: int|
                #![trigger bounds@[j]]
                0 <= j < bounds@.len() ==> {
                    &&& bounds@[j].0 <= bounds@[j].1
                    &&& bounds@[j].1 <= chars@.len()
                    &&& chars@.subrange(bounds@[j].0 as int, bounds@[j].1 as int) == entries[j]
                },
            k <= bounds@.len(),
            domains@.len() == k,
            forall|j: int| 0 <= j < k ==> #[trigger] entry_well_formed(entries[j]),
            forall|j: int|
                #![trigger domains@[j]]
                0 <= j < k ==> {
                    &&& domains@[j].hosted_zone_id@ == entry_zone(entries[j])
                    &&& domains@[j].domain_name@ == entry_name(entries[j])
                    &&& domains@[j].ip_addresses@.len() == 0
                },
        decreases bounds@.len() - k,
    {
        let (from, to) = bounds[k];
        let entry = text.substring_char(from, to);
        assert(entry@ == entries[k as int]);
        let entry_chars = chars_of(entry);
        let parts = split_bounds(&entry_chars, '/');
        if parts.len() < 2 {
            assert(!entry_well_formed(entries[k as int]));
            return Err(Error::Config);
        }
        let zone = entry.substring_char(parts[0].0, parts[0].1);
        let name = entry.substring_char(parts[1].0, parts[1].1);
        let ghost old_domains = domains@;
        domains.push(
            Domain {
                hosted_zone_id: String::from_str(zone),
                domain_name: String::from_str(name),
                ip_addresses: Vec::new(),
            },
        );
        assert(domains@[k as int] == domains@.last());
        assert forall|j: int| #![trigger domains@[j]] 0 <= j < k implies domains@[j] == old_domains[j] by {}
        k = k + 1;
    }
    let c = Config { domains };
    assert(describes(c, text@));
    Ok(c)
}

} // verus!
