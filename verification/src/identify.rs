//! What peers tell about themselves, and the cache of where they can be
//! reached.
//!
//! On every new connection each side tells, unasked, which protocols it
//! speaks and at which addresses it believes it can be reached. What is
//! received adds to a cache from peers to sets of addresses. Nothing is ever
//! answered, and nothing waits for it.

use vstd::prelude::*;
use vstd::string::StringExecFns;

use crate::address::AddressView;
use crate::address::Multiaddress;
use crate::identity::PeerIdentifier;
use crate::text::texts;

verus! {

/// What a peer told about itself.
#[derive(Debug, PartialEq, Eq)]
pub struct PeerInfo {
    /// The identifiers of the protocols that the peer speaks.
    pub protocols: Vec<String>,
    /// The addresses at which the peer believes it can be reached.
    pub addresses: Vec<Multiaddress>,
}

/// The views of a sequence of addresses.
pub open spec fn address_views(addresses: Seq<Multiaddress>) -> Seq<AddressView> {
    addresses.map_values(|a: Multiaddress| a@)
}

impl PeerInfo {
    /// Whether the peer speaks `protocol_id`.
    pub fn supports(&self, protocol_id: &str) -> (speaks: bool)
        ensures
            speaks == texts(self.protocols@).contains(protocol_id@),
    {
        let wanted = String::from_str(protocol_id);
        let mut i: usize = 0;
        while i < self.protocols.len()
            invariant
                i <= self.protocols.len(),
                wanted@ == protocol_id@,
                forall|j: int| 0 <= j < i ==> (#[trigger] texts(self.protocols@)[j]) != protocol_id@,
            decreases self.protocols.len() - i,
        {
            assert(texts(self.protocols@)[i as int] == self.protocols@[i as int]@);
            if self.protocols[i] == wanted {
                return true;
            }
            i += 1;
        }
        false
    }
}

/// One entry of the cache as a mathematical value: a peer and one of its
/// addresses.
pub type Reach = (Seq<char>, AddressView);

/// The addresses that the cache holds for `peer`.
pub open spec fn known_addresses(known: Set<Reach>, peer: Seq<char>) -> Set<AddressView> {
    Set::new(|address: AddressView| known.contains((peer, address)))
}

/// The cache after `peer` told these addresses: they are added to what was
/// known, for this peer and no other.
pub open spec fn with_addresses(known: Set<Reach>, peer: Seq<char>, addresses: Seq<AddressView>) -> Set<
    Reach,
> {
    Set::new(|reach: Reach| known.contains(reach) || (reach.0 == peer && addresses.contains(reach.1)))
}

/// The addresses of `peer` among the entries, in order.
pub open spec fn addresses_among(entries: Seq<Reach>, peer: Seq<char>) -> Seq<AddressView>
    decreases entries.len(),
{
    if entries.len() == 0 {
        Seq::<AddressView>::empty()
    } else if entries.last().0 == peer {
        addresses_among(entries.drop_last(), peer).push(entries.last().1)
    } else {
        addresses_among(entries.drop_last(), peer)
    }
}

/// The addresses found among the entries are those that the entries hold
/// for the peer.
proof fn lemma_addresses_among(entries: Seq<Reach>, peer: Seq<char>)
    ensures
        addresses_among(entries, peer).to_set() == known_addresses(entries.to_set(), peer),
    decreases entries.len(),
{
    let found = addresses_among(entries, peer);
    if entries.len() > 0 {
        let front = entries.drop_last();
        let last = entries.last();
        lemma_addresses_among(front, peer);
        assert(entries == front.push(last));
        front.lemma_push_to_set_commute(last);
        if last.0 == peer {
            addresses_among(front, peer).lemma_push_to_set_commute(last.1);
        }
        assert forall|address: AddressView|
            found.to_set().contains(address) == known_addresses(entries.to_set(), peer).contains(
                address,
            ) by {
            assert(known_addresses(front.to_set(), peer).contains(address) == front.to_set().contains(
                (peer, address),
            ));
        }
    } else {
        assert forall|address: AddressView|
            found.to_set().contains(address) == known_addresses(entries.to_set(), peer).contains(
                address,
            ) by {
            assert(!found.contains(address));
            assert(!entries.contains((peer, address)));
        }
    }
    assert(found.to_set() =~= known_addresses(entries.to_set(), peer));
}

/// The cache of where peers can be reached.
#[derive(Debug)]
pub struct AddressBook {
    entries: Vec<(PeerIdentifier, Multiaddress)>,
}

/// The views of the entries.
pub open spec fn reach_views(entries: Seq<(PeerIdentifier, Multiaddress)>) -> Seq<Reach> {
    entries.map_values(|e: (PeerIdentifier, Multiaddress)| (e.0@, e.1@))
}

impl View for AddressBook {
    type V = Set<Reach>;

    closed spec fn view(&self) -> Set<Reach> {
        reach_views(self.entries@).to_set()
    }
}

impl AddressBook {
    /// An empty cache.
    pub fn new() -> (book: AddressBook)
        ensures
            book@ == Set::<Reach>::empty(),
    {
        let book = AddressBook { entries: Vec::new() };
        proof {
            assert(reach_views(book.entries@) =~= Seq::<Reach>::empty());
            assert(book@ =~= Set::<Reach>::empty());
        }
        book
    }

    /// Whether the cache holds `address` for `peer`.
    pub fn knows(&self, peer: &PeerIdentifier, address: &Multiaddress) -> (known: bool)
        ensures
            known == self@.contains((peer@, address@)),
    {
        let ghost views = reach_views(self.entries@);
        let mut i: usize = 0;
        while i < self.entries.len()
            invariant
                i <= self.entries.len(),
                views == reach_views(self.entries@),
                forall|j: int| 0 <= j < i ==> (#[trigger] views[j]) != (peer@, address@),
            decreases self.entries.len() - i,
        {
            proof {
                assert(views[i as int] == (self.entries@[i as int].0@, self.entries@[i as int].1@));
            }
            if self.entries[i].0.equals(peer) && self.entries[i].1.equals(address) {
                proof {
                    assert(views.contains((peer@, address@)));
                }
                return true;
            }
            i += 1;
        }
        proof {
            assert(!views.contains((peer@, address@)));
        }
        false
    }

    /// Notes that `peer` can be reached at `address`.
    pub fn record(&mut self, peer: &PeerIdentifier, address: &Multiaddress)
        ensures
            final(self)@ == old(self)@.insert((peer@, address@)),
    {
        if !self.knows(peer, address) {
            let ghost before = reach_views(self.entries@);
            self.entries.push((peer.duplicate(), address.duplicate()));
            proof {
                assert(reach_views(self.entries@) =~= before.push((peer@, address@)));
                before.lemma_push_to_set_commute((peer@, address@));
            }
        } else {
            proof {
                assert(self@.insert((peer@, address@)) =~= self@);
            }
        }
    }

    /// Notes every address that `peer` told.
    pub fn record_all(&mut self, peer: &PeerIdentifier, addresses: &Vec<Multiaddress>)
        ensures
            final(self)@ == with_addresses(old(self)@, peer@, address_views(addresses@)),
    {
        let ghost told = address_views(addresses@);
        let mut i: usize = 0;
        proof {
            assert(self@ =~= with_addresses(old(self)@, peer@, told.take(0)));
        }
        while i < addresses.len()
            invariant
                i <= addresses.len(),
                told == address_views(addresses@),
                self@ == with_addresses(old(self)@, peer@, told.take(i as int)),
            decreases addresses.len() - i,
        {
            let ghost before = self@;
            self.record(peer, &addresses[i]);
            proof {
                let shorter = told.take(i as int);
                let longer = told.take(i + 1);
                assert(told[i as int] == addresses@[i as int]@);
                assert(longer =~= shorter.push(told[i as int]));
                assert forall|reach: Reach|
                    self@.contains(reach) == with_addresses(old(self)@, peer@, longer).contains(
                        reach,
                    ) by {
                    if shorter.contains(reach.1) {
                        let j = choose|j: int| 0 <= j < shorter.len() && shorter[j] == reach.1;
                        assert(longer[j] == reach.1);
                    }
                    if longer.contains(reach.1) {
                        let j = choose|j: int| 0 <= j < longer.len() && longer[j] == reach.1;
                        if j < shorter.len() {
                            assert(shorter[j] == reach.1);
                        }
                    }
                    assert(longer[i as int] == told[i as int]);
                }
                assert(self@ =~= with_addresses(old(self)@, peer@, longer));
            }
            i += 1;
        }
        proof {
            assert(told.take(addresses.len() as int) =~= told);
        }
    }

    /// The addresses that the cache holds for `peer`.
    pub fn addresses_of(&self, peer: &PeerIdentifier) -> (found: Vec<Multiaddress>)
        ensures
            address_views(found@).to_set() == known_addresses(self@, peer@),
    {
        let ghost views = reach_views(self.entries@);
        let mut found: Vec<Multiaddress> = Vec::new();
        let mut i: usize = 0;
        proof {
            assert(address_views(found@) =~= addresses_among(views.take(0), peer@));
        }
        while i < self.entries.len()
            invariant
                i <= self.entries.len(),
                views == reach_views(self.entries@),
                address_views(found@) == addresses_among(views.take(i as int), peer@),
            decreases self.entries.len() - i,
        {
            let ghost so_far = address_views(found@);
            proof {
                assert(views.take(i + 1).drop_last() =~= views.take(i as int));
                assert(views.take(i + 1).last() == (
                    self.entries@[i as int].0@,
                    self.entries@[i as int].1@,
                ));
            }
            if self.entries[i].0.equals(peer) {
                found.push(self.entries[i].1.duplicate());
                proof {
                    assert(address_views(found@) =~= so_far.push(self.entries@[i as int].1@));
                }
            }
            i += 1;
        }
        proof {
            assert(views.take(self.entries.len() as int) =~= views);
            lemma_addresses_among(views, peer@);
        }
        found
    }
}

/// What one peer tells never changes what is known of another, and nothing
/// that was known is forgotten.
pub proof fn lemma_told_addresses_add(
    known: Set<Reach>,
    peer: Seq<char>,
    addresses: Seq<AddressView>,
    other: Seq<char>,
)
    ensures
        known.subset_of(with_addresses(known, peer, addresses)),
        other != peer ==> known_addresses(with_addresses(known, peer, addresses), other)
            == known_addresses(known, other),
        known_addresses(with_addresses(known, peer, addresses), peer) == known_addresses(
            known,
            peer,
        ).union(addresses.to_set()),
{
    let after = with_addresses(known, peer, addresses);
    assert(known_addresses(after, peer) =~= known_addresses(known, peer).union(addresses.to_set()));
    if other != peer {
        assert(known_addresses(after, other) =~= known_addresses(known, other));
    }
}

} // verus!
