//! The provider-facing side: reading the A record values that a zone
//! publishes for a name, and the change requests that replace one.

use vstd::prelude::*;

use crate::address::{address_of, address_text, parse_address, Address};
use crate::error::Error;
use crate::text::{chars_of, same_text};

verus! {

/// One record set of a hosted zone, as the provider lists it.
pub struct RecordSet {
    pub name: String,
    pub record_type: String,
    pub values: Option<Vec<String>>,
}

/// A name without the one final `.` that a fully qualified name may carry.
pub open spec fn without_final_dot(s: Seq<char>) -> Seq<char> {
    if s.len() > 0 && s.last() == '.' {
        s.drop_last()
    } else {
        s
    }
}

/// Whether two domain names are the same name, with or without the final `.`.
pub open spec fn same_name(a: Seq<char>, b: Seq<char>) -> bool {
    without_final_dot(a) == without_final_dot(b)
}

/// Whether a record set holds A records for `name`.
pub open spec fn selects(r: RecordSet, name: Seq<char>) -> bool {
    r.record_type@ == seq!['A'] && same_name(r.name@, name)
}

/// The addresses that a list of record values holds, or `None` when one of
/// them is not an address.
pub open spec fn values_addresses(vs: Seq<String>) -> Option<Seq<Address>> {
    if forall|k: int| 0 <= k < vs.len() ==> (#[trigger] address_of(vs[k]@)) is Some {
        Some(Seq::new(vs.len(), |k: int| address_of(vs[k]@)->0))
    } else {
        None
    }
}

/// The addresses of one record set.
pub open spec fn set_addresses(r: RecordSet) -> Option<Seq<Address>> {
    match r.values {
        Some(v) => values_addresses(v@),
        None => Some(Seq::<Address>::empty()),
    }
}

/// The A record addresses published for `name`, in the order listed, or
/// `None` when one of them is not an address.
pub open spec fn listed_addresses(sets: Seq<RecordSet>, name: Seq<char>) -> Option<Seq<Address>>
    decreases sets.len(),
{
    if sets.len() == 0 {
        Some(Seq::<Address>::empty())
    } else {
        let before = listed_addresses(sets.drop_last(), name);
        if !selects(sets.last(), name) {
            before
        } else {
            match (before, set_addresses(sets.last())) {
                (Some(p), Some(q)) => Some(p + q),
                _ => None,
            }
        }
    }
}

proof fn lemma_listed_failure_persists(sets: Seq<RecordSet>, name: Seq<char>, i: int, m: int)
    requires
        0 <= i <= m <= sets.len(),
        listed_addresses(sets.take(i), name) is None,
    ensures
        listed_addresses(sets.take(m), name) is None,
    decreases m - i,
{
    if i < m {
        assert(sets.take(i + 1).drop_last() =~= sets.take(i));
        lemma_listed_failure_persists(sets, name, i + 1, m);
    }
}

/// Whether `a` and `b` name the same domain.
pub fn names_match(a: &str, b: &str) -> (r: bool)
    ensures
        r == same_name(a@, b@),
{
    let x = chars_of(a);
    let y = chars_of(b);
    let mut xn = x.len();
    if xn > 0 && x[xn - 1] == '.' {
        xn = xn - 1;
    }
    let mut yn = y.len();
    if yn > 0 && y[yn - 1] == '.' {
        yn = yn - 1;
    }
    let ghost xs = without_final_dot(a@);
    let ghost ys = without_final_dot(b@);
    assert(xs =~= x@.take(xn as int));
    assert(ys =~= y@.take(yn as int));
    if xn != yn {
        return false;
    }
    let mut i: usize = 0;
    while i < xn
        invariant
            xn == yn,
            xn <= x@.len(),
            yn <= y@.len(),
            xs == x@.take(xn as int),
            ys == y@.take(yn as int),
            xs == without_final_dot(a@),
            ys == without_final_dot(b@),
            i <= xn,
            forall|j: int| 0 <= j < i ==> xs[j] == ys[j],
        decreases xn - i,
    {
        if x[i] != y[i] {
            assert(xs[i as int] != ys[i as int]);
            return false;
        }
        i = i + 1;
    }
    assert(xs =~= ys);
    true
}

fn is_a_type(t: &String) -> (r: bool)
    ensures
        r == (t@ == seq!['A']),
{
    proof {
        reveal_strlit("A");
    }
    let r = same_text(t.as_str(), "A");
    assert("A"@ =~= seq!['A']);
    r
}

fn append_values(out: &mut Vec<Address>, vs: &Vec<String>) -> (r: Result<(), Error>)
    ensures
        match values_addresses(vs@) {
            Some(q) => r is Ok && final(out)@ == old(out)@ + q,
            None => r == Err::<(), Error>(Error::Parse),
        },
{
    let ghost start = out@;
    let mut j: usize = 0;
    while j < vs.len()
        invariant
            j <= vs@.len(),
            forall|k: int| 0 <= k < j ==> (#[trigger] address_of(vs@[k]@)) is Some,
            out@ == start + Seq::new(j as nat, |k: int| address_of(vs@[k]@)->0),
        decreases vs@.len() - j,
    {
        match parse_address(vs[j].as_str()) {
            Ok(a) => {
                out.push(a);
                j = j + 1;
                assert(out@ =~= start + Seq::new(j as nat, |k: int| address_of(vs@[k]@)->0));
            },
            Err(e) => {
                assert(address_of(vs@[j as int]@) is None);
                return Err(e);
            },
        }
    }
    assert(Seq::new(j as nat, |k: int| address_of(vs@[k]@)->0) =~= Seq::new(
        vs@.len(),
        |k: int| address_of(vs@[k]@)->0,
    ));
    Ok(())
}

/// The A record addresses that the listed record sets publish for `name`,
/// in order; a published value that is not an address is a parse error.
pub fn a_record_addresses(sets: &Vec<RecordSet>, name: &str) -> (r: Result<Vec<Address>, Error>)
    ensures
        match listed_addresses(sets@, name@) {
            Some(q) => r is Ok && r->Ok_0@ == q,
            None => r == Err::<Vec<Address>, Error>(Error::Parse),
        },
{
    let mut out: Vec<Address> = Vec::new();
    let mut i: usize = 0;
    while i < sets.len()
        invariant
            i <= sets@.len(),
            listed_addresses(sets@.take(i as int), name@) == Some(out@),
        decreases sets@.len() - i,
    {
        let set = &sets[i];
        let ghost before = sets@.take(i as int);
        assert(sets@.take(i + 1).drop_last() =~= before);
        assert(sets@.take(i + 1).last() == *set);
        if is_a_type(&set.record_type) && names_match(set.name.as_str(), name) {
            match &set.values {
                Some(vs) => {
                    match append_values(&mut out, vs) {
                        Ok(()) => {},
                        Err(e) => {
                            proof {
                                lemma_listed_failure_persists(
                                    sets@,
                                    name@,
                                    i + 1,
                                    sets@.len() as int,
                                );
                                assert(sets@.take(sets@.len() as int) =~= sets@);
                            }
                            return Err(e);
                        },
                    }
                },
                None => {
                    assert(out@ + Seq::<Address>::empty() =~= out@);
                },
            }
        }
        i = i + 1;
    }
    assert(sets@.take(i as int) =~= sets@);
    Ok(out)
}

/// Whether a change request adds or removes a record value.
#[derive(Clone, Copy, Debug, PartialEq, Eq, Structural)]
pub enum ChangeAction {
    Create,
    Delete,
}

/// The time-to-live, in seconds, of every record value that is published:
/// short, so that a later correction spreads quickly.
pub const RECORD_TTL: i64 = 60;

/// One change batch for the provider: a single A record value to add or
/// remove under a name of a hosted zone.
pub struct ChangeRequest {
    pub hosted_zone_id: String,
    pub name: String,
    pub action: ChangeAction,
    pub record_type: String,
    pub ttl: i64,
    pub value: String,
}

/// Whether `c` asks to apply `action` to the A record value `address` of
/// `name` in `zone`.
pub open spec fn requests(
    c: ChangeRequest,
    zone: Seq<char>,
    name: Seq<char>,
    action: ChangeAction,
    address: Address,
) -> bool {
    &&& c.hosted_zone_id@ == zone
    &&& c.name@ == name
    &&& c.action == action
    &&& c.record_type@ == seq!['A']
    &&& c.ttl == RECORD_TTL
    &&& c.value@ == address_text(address)
}

impl ChangeAction {
    /// The provider's word for the action.
    pub fn to_text(&self) -> (r: String)
        ensures
            *self == ChangeAction::Create ==> r@ == seq!['C', 'R', 'E', 'A', 'T', 'E'],
            *self == ChangeAction::Delete ==> r@ == seq!['D', 'E', 'L', 'E', 'T', 'E'],
    {
        proof {
            reveal_strlit("CREATE");
            reveal_strlit("DELETE");
        }
        let r = match self {
            ChangeAction::Create => String::from_str("CREATE"),
            ChangeAction::Delete => String::from_str("DELETE"),
        };
        assert("CREATE"@ =~= seq!['C', 'R', 'E', 'A', 'T', 'E']);
        assert("DELETE"@ =~= seq!['D', 'E', 'L', 'E', 'T', 'E']);
        r
    }
}

/// The request that applies `action` to the A record value `address` of
/// `name` in the hosted zone `hosted_zone_id`.
pub fn change_request(
    hosted_zone_id: &String,
    name: &String,
    address: Address,
    action: ChangeAction,
) -> (r: ChangeRequest)
    ensures
        requests(r, hosted_zone_id@, name@, action, address),
{
    proof {
        reveal_strlit("A");
    }
    let r = ChangeRequest {
        hosted_zone_id: String::from_str(hosted_zone_id.as_str()),
        name: String::from_str(name.as_str()),
        action,
        record_type: String::from_str("A"),
        ttl: RECORD_TTL,
        value: address.to_text(),
    };
    assert("A"@ =~= seq!['A']);
    r
}

/// The A record values that a name publishes once the provider has applied
/// one change: a deletion removes every copy of the value, a creation adds it.
pub open spec fn published_after(records: Seq<Address>, action: ChangeAction, a: Address) -> Seq<
    Address,
> {
    match action {
        ChangeAction::Delete => records.filter(|x: Address| x != a),
        ChangeAction::Create => records.push(a),
    }
}

/// Deleting the one value that a name publishes leaves it with none.
pub proof fn lemma_delete_only_value(a: Address)
    ensures
        published_after(seq![a], ChangeAction::Delete, a) == Seq::<Address>::empty(),
{
    reveal_with_fuel(Seq::filter, 2);
    assert(seq![a].drop_last() =~= Seq::<Address>::empty());
    assert(published_after(seq![a], ChangeAction::Delete, a) =~= Seq::<Address>::empty());
}

} // verus!
