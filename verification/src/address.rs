//! Addresses: a transport part followed by peer identifiers and circuit
//! markers.
//!
//! The text of an address is its transport text followed by `/p2p/<peer>` for
//! each peer and `/circuit` for each marker. A direct dial address reads
//! `<transport>/p2p/<peer>`, a relayed one `<relay transport>/p2p/<relay>/circuit`.

use vstd::prelude::*;
use vstd::string::StringExecFns;

use crate::error::AddressError;
use crate::identity::is_peer_text;
use crate::identity::PeerIdentifier;
use crate::text::join;
use crate::text::join_segments;
use crate::text::lemma_segments_hold_no_separator;
use crate::text::lemma_segments_join;
use crate::text::lemma_segments_nonempty;
use crate::text::segments;
use crate::text::split_segments;
use crate::text::texts;

verus! {

/// The segment that announces a peer identifier.
pub open spec fn peer_word() -> Seq<char> {
    "p2p"@
}

/// The segment that marks the step through a relay.
pub open spec fn circuit_word() -> Seq<char> {
    "circuit"@
}

/// Whether a segment is one of the two words that begin a hop.
pub open spec fn is_hop_word(segment: Seq<char>) -> bool {
    segment == peer_word() || segment == circuit_word()
}

/// A component after the transport part, as a mathematical value.
pub enum HopView {
    Peer(Seq<char>),
    Circuit,
}

/// An address as a mathematical value.
pub struct AddressView {
    pub transport: Seq<char>,
    pub hops: Seq<HopView>,
}

/// A component after the transport part.
#[derive(Debug, PartialEq, Eq)]
pub enum Hop {
    /// The peer that the address reaches at this point.
    Peer(PeerIdentifier),
    /// The marker that says: from the peer before, go on through a circuit.
    Circuit,
}

impl View for Hop {
    type V = HopView;

    open spec fn view(&self) -> HopView {
        match self {
            Hop::Peer(peer) => HopView::Peer(peer@),
            Hop::Circuit => HopView::Circuit,
        }
    }
}

impl Hop {
    /// A second handle on the same component.
    pub fn duplicate(&self) -> (copy: Hop)
        ensures
            copy@ == self@,
    {
        match self {
            Hop::Peer(peer) => Hop::Peer(peer.duplicate()),
            Hop::Circuit => Hop::Circuit,
        }
    }

    /// Whether both components are the same.
    pub fn equals(&self, other: &Hop) -> (same: bool)
        ensures
            same == (self@ == other@),
    {
        match (self, other) {
            (Hop::Peer(a), Hop::Peer(b)) => a.equals(b),
            (Hop::Circuit, Hop::Circuit) => true,
            _ => false,
        }
    }
}

impl Clone for Hop {
    fn clone(&self) -> (copy: Hop)
        ensures
            copy@ == self@,
    {
        self.duplicate()
    }
}

/// The views of a sequence of hops.
pub open spec fn hop_views(hops: Seq<Hop>) -> Seq<HopView> {
    hops.map_values(|h: Hop| h@)
}

/// The text of one hop.
pub open spec fn hop_text(hop: HopView) -> Seq<char> {
    match hop {
        HopView::Peer(peer) => "/p2p/"@ + peer,
        HopView::Circuit => "/circuit"@,
    }
}

/// The text of a run of hops.
pub open spec fn hops_text(hops: Seq<HopView>) -> Seq<char>
    decreases hops.len(),
{
    if hops.len() == 0 {
        Seq::<char>::empty()
    } else {
        hop_text(hops[0]) + hops_text(hops.skip(1))
    }
}

/// The text of an address: what `serialize` writes and `parse` reads.
pub open spec fn address_text(address: AddressView) -> Seq<char> {
    address.transport + hops_text(address.hops)
}

/// Every peer is named by the text of a peer identifier, and every circuit
/// marker directly follows a peer.
pub open spec fn hops_well_formed(hops: Seq<HopView>) -> bool {
    forall|i: int| 0 <= i < hops.len() ==> #[trigger] hop_in_order(hops, i)
}

/// The hop at `i` is a peer named by the text of a peer identifier, or a
/// circuit marker directly after a peer.
pub open spec fn hop_in_order(hops: Seq<HopView>, i: int) -> bool {
    match hops[i] {
        HopView::Peer(peer) => is_peer_text(peer),
        HopView::Circuit => i > 0 && hops[i - 1] is Peer,
    }
}

/// The names of the protocols that a transport text is made of, in order,
/// where the text is a sequence of known protocols with their values.
pub uninterp spec fn transport_protocols(text: Seq<char>) -> Option<Seq<Seq<char>>>;

/// No protocol of the sequence names a peer or a relay hop.
pub open spec fn names_no_hop(names: Seq<Seq<char>>) -> bool {
    forall|i: int|
        0 <= i < names.len() ==> (#[trigger] names[i]) != "p2p"@ && names[i] != "p2p-circuit"@
}

/// The transport text is a sequence of known protocols, none of which names
/// a peer or a relay hop.
pub open spec fn transport_accepted(text: Seq<char>) -> bool {
    match transport_protocols(text) {
        Some(names) => names_no_hop(names),
        None => false,
    }
}

/// What the transport part of an address must be: accepted, and without a
/// segment spelled like the beginning of a hop.
pub open spec fn is_transport_text(text: Seq<char>) -> bool {
    &&& transport_accepted(text)
    &&& forall|i: int|
        0 <= i < segments(text).len() ==> !is_hop_word(#[trigger] segments(text)[i])
}

/// The invariant of an address.
pub open spec fn well_formed(address: AddressView) -> bool {
    &&& is_transport_text(address.transport)
    &&& hops_well_formed(address.hops)
}

/// The number of segments before the first hop word.
pub open spec fn first_hop_word(parts: Seq<Seq<char>>) -> int
    decreases parts.len(),
{
    if parts.len() == 0 || is_hop_word(parts[0]) {
        0
    } else {
        1 + first_hop_word(parts.skip(1))
    }
}

/// `hops` put in front of a further result.
pub open spec fn hops_then(hops: Seq<HopView>, rest: Result<Seq<HopView>, AddressError>) -> Result<
    Seq<HopView>,
    AddressError,
> {
    match rest {
        Ok(more) => Ok(hops + more),
        Err(e) => Err(e),
    }
}

/// Reads hops from segments. `after_peer` says whether the component just
/// before was a peer.
pub open spec fn parse_hops(parts: Seq<Seq<char>>, after_peer: bool) -> Result<
    Seq<HopView>,
    AddressError,
>
    decreases parts.len(),
{
    if parts.len() == 0 {
        Ok(Seq::<HopView>::empty())
    } else if parts[0] == peer_word() {
        if parts.len() < 2 || !is_peer_text(parts[1]) {
            Err(AddressError::InvalidPeerIdentifier)
        } else {
            hops_then(seq![HopView::Peer(parts[1])], parse_hops(parts.skip(2), true))
        }
    } else if parts[0] == circuit_word() {
        if !after_peer {
            Err(AddressError::MisplacedCircuit)
        } else {
            hops_then(seq![HopView::Circuit], parse_hops(parts.skip(1), false))
        }
    } else {
        Err(AddressError::UnexpectedComponent)
    }
}

/// Reads an address from its text: the segments before the first hop word
/// are the transport part, the others are hops.
pub open spec fn parse_spec(text: Seq<char>) -> Result<AddressView, AddressError> {
    let parts = segments(text);
    let k = first_hop_word(parts);
    let transport = join(parts.take(k));
    if k == 0 || !transport_accepted(transport) {
        Err(AddressError::InvalidTransport)
    } else {
        match parse_hops(parts.skip(k), false) {
            Ok(hops) => Ok(AddressView { transport, hops }),
            Err(e) => Err(e),
        }
    }
}

/// The first peer that the hops name.
pub open spec fn first_peer(hops: Seq<HopView>) -> Option<Seq<char>>
    decreases hops.len(),
{
    if hops.len() == 0 {
        None
    } else {
        match hops[0] {
            HopView::Peer(peer) => Some(peer),
            HopView::Circuit => first_peer(hops.skip(1)),
        }
    }
}

/// The last peer that the hops name.
pub open spec fn last_peer(hops: Seq<HopView>) -> Option<Seq<char>>
    decreases hops.len(),
{
    if hops.len() == 0 {
        None
    } else {
        match hops.last() {
            HopView::Peer(peer) => Some(peer),
            HopView::Circuit => last_peer(hops.drop_last()),
        }
    }
}

/// Whether the hops hold a circuit marker.
pub open spec fn has_circuit(hops: Seq<HopView>) -> bool {
    exists|i: int| 0 <= i < hops.len() && #[trigger] hops[i] is Circuit
}

/// The address with a circuit marker at its end, where it ends in a peer.
pub open spec fn with_circuit_spec(address: AddressView) -> Result<AddressView, AddressError> {
    if address.hops.len() > 0 && address.hops.last() is Peer {
        Ok(
            AddressView {
                transport: address.transport,
                hops: address.hops.push(HopView::Circuit),
            },
        )
    } else {
        Err(AddressError::MisplacedCircuit)
    }
}

/// Parses `text` with `libp2p::Multiaddr::from_str` and, where that
/// succeeds, walks the address with `Multiaddr::iter` and takes each
/// protocol's name from `Protocol::tag`.
///
/// Trusted: the result is a function of the text alone. Nothing is claimed
/// about which texts are accepted, nor about the names.
#[verifier::external_body]
fn protocol_names(text: &str) -> (names: Option<Vec<String>>)
    ensures
        names is Some <==> transport_protocols(text@) is Some,
        names matches Some(v) ==> transport_protocols(text@) == Some(texts(v@)),
{
    let parsed = text.parse::<libp2p::Multiaddr>().ok();
    parsed.map(|address| address.iter().map(|protocol| protocol.tag().to_string()).collect())
}

/// Whether `text` can be the transport part of an address, as far as its
/// protocols go.
pub fn accepts_transport(text: &str) -> (accepted: bool)
    ensures
        accepted == transport_accepted(text@),
{
    match protocol_names(text) {
        None => false,
        Some(names) => {
            let peer = String::from_str("p2p");
            let relay = String::from_str("p2p-circuit");
            let mut i: usize = 0;
            while i < names.len()
                invariant
                    i <= names.len(),
                    transport_protocols(text@) == Some(texts(names@)),
                    peer@ == "p2p"@,
                    relay@ == "p2p-circuit"@,
                    forall|j: int|
                        0 <= j < i ==> (#[trigger] texts(names@)[j]) != "p2p"@ && texts(names@)[j]
                            != "p2p-circuit"@,
                decreases names.len() - i,
            {
                if names[i] == peer || names[i] == relay {
                    assert(texts(names@)[i as int] == names@[i as int]@);
                    assert(!names_no_hop(texts(names@)));
                    return false;
                }
                assert(texts(names@)[i as int] == names@[i as int]@);
                i += 1;
            }
            true
        },
    }
}

/// An address: where a peer listens or can be dialed. Addresses are values
/// and compare by their components.
#[derive(Debug, PartialEq, Eq)]
pub struct Multiaddress {
    transport: String,
    hops: Vec<Hop>,
}

impl View for Multiaddress {
    type V = AddressView;

    closed spec fn view(&self) -> AddressView {
        AddressView { transport: self.transport@, hops: hop_views(self.hops@) }
    }
}

/// Where no segment before `i` is a hop word and the segment at `i`, if
/// there is one, is, the hops begin at `i`.
pub proof fn lemma_first_hop_word(parts: Seq<Seq<char>>, i: int)
    requires
        0 <= i <= parts.len(),
        forall|j: int| 0 <= j < i ==> !is_hop_word(#[trigger] parts[j]),
        i == parts.len() || is_hop_word(parts[i]),
    ensures
        first_hop_word(parts) == i,
    decreases parts.len(),
{
    if i > 0 {
        assert(!is_hop_word(parts[0]));
        let rest = parts.skip(1);
        assert forall|j: int| 0 <= j < i - 1 implies !is_hop_word(#[trigger] rest[j]) by {
            assert(rest[j] == parts[j + 1]);
        }
        lemma_first_hop_word(rest, i - 1);
    }
}

/// The two hop words as they are spelled.
pub proof fn lemma_hop_words()
    ensures
        peer_word() == seq!['p', '2', 'p'],
        circuit_word() == seq!['c', 'i', 'r', 'c', 'u', 'i', 't'],
        peer_word() != circuit_word(),
        !peer_word().contains('/'),
        !circuit_word().contains('/'),
{
    reveal_strlit("p2p");
    reveal_strlit("circuit");
    assert(peer_word() =~= seq!['p', '2', 'p']);
    assert(circuit_word() =~= seq!['c', 'i', 'r', 'c', 'u', 'i', 't']);
    assert(peer_word().len() != circuit_word().len());
}

impl Multiaddress {
    /// Every address is well formed.
    #[verifier::type_invariant]
    closed spec fn valid(self) -> bool {
        well_formed(self@)
    }

    /// Reads an address from its text. A text that is not an address of the
    /// grammar is rejected, with the first fault found from the left: the
    /// transport part, then each hop in turn.
    pub fn parse(text: &str) -> (parsed: Result<Multiaddress, AddressError>)
        ensures
            match parsed {
                Ok(address) => parse_spec(text@) == Ok::<AddressView, AddressError>(address@),
                Err(e) => parse_spec(text@) == Err::<AddressView, AddressError>(e),
            },
            parsed matches Ok(address) ==> well_formed(address@),
    {
        let parts = split_segments(text);
        let peer_mark = String::from_str("p2p");
        let circuit_mark = String::from_str("circuit");
        let n = parts.len();
        let ghost all = segments(text@);
        proof {
            lemma_segments_nonempty(text@);
            lemma_segments_hold_no_separator(text@);
            lemma_hop_words();
        }
        let mut k: usize = 0;
        while k < n && !(parts[k] == peer_mark || parts[k] == circuit_mark)
            invariant
                n == parts.len(),
                texts(parts@) == all,
                k <= n,
                peer_mark@ == peer_word(),
                circuit_mark@ == circuit_word(),
                forall|j: int| 0 <= j < k ==> !is_hop_word(#[trigger] all[j]),
            decreases n - k,
        {
            assert(all[k as int] == parts@[k as int]@);
            k += 1;
        }
        proof {
            if k < n {
                assert(all[k as int] == parts@[k as int]@);
            }
            lemma_first_hop_word(all, k as int);
        }
        if k == 0 {
            return Err(AddressError::InvalidTransport);
        }
        let transport = join_segments(&parts, k);
        if !accepts_transport(transport.as_str()) {
            return Err(AddressError::InvalidTransport);
        }
        let hops = match read_hops(&parts, k) {
            Ok(hops) => hops,
            Err(e) => {
                return Err(e);
            },
        };
        proof {
            let front = all.take(k as int);
            assert forall|j: int| 0 <= j < front.len() implies !(#[trigger] front[j]).contains(
                '/',
            ) by {
                assert(front[j] == all[j]);
            }
            lemma_segments_join(front);
            assert forall|j: int| 0 <= j < segments(transport@).len() implies !is_hop_word(
                #[trigger] segments(transport@)[j],
            ) by {
                assert(front[j] == all[j]);
            }
        }
        Ok(Multiaddress { transport, hops })
    }

    /// The text of the address. `parse` reads it back.
    pub fn serialize(&self) -> (text: String)
        ensures
            text@ == address_text(self@),
    {
        let mut text = self.transport.clone();
        let ghost views = hop_views(self.hops@);
        let mut i: usize = 0;
        proof {
            assert(views.skip(0) == views);
        }
        while i < self.hops.len()
            invariant
                i <= self.hops.len(),
                views == hop_views(self.hops@),
                text@ + hops_text(views.skip(i as int)) == address_text(self@),
            decreases self.hops.len() - i,
        {
            let ghost rest = views.skip(i as int);
            let ghost so_far = text@;
            proof {
                assert(rest[0] == self.hops@[i as int]@);
                assert(rest.skip(1) == views.skip(i + 1));
            }
            match &self.hops[i] {
                Hop::Peer(peer) => {
                    text.append("/p2p/");
                    text.append(peer.as_text());
                },
                Hop::Circuit => {
                    text.append("/circuit");
                },
            }
            proof {
                assert(text@ == so_far + hop_text(rest[0]));
                assert((so_far + hop_text(rest[0])) + hops_text(rest.skip(1)) == so_far + (
                hop_text(rest[0]) + hops_text(rest.skip(1))));
            }
            i += 1;
        }
        proof {
            assert(views.skip(self.hops.len() as int).len() == 0);
            assert(text@ + Seq::<char>::empty() == text@);
        }
        text
    }

    /// The transport part, as text.
    pub fn transport(&self) -> (text: &str)
        ensures
            text@ == self@.transport,
            is_transport_text(text@),
    {
        proof {
            use_type_invariant(self);
        }
        self.transport.as_str()
    }

    /// The hops after the transport part, in order.
    pub fn hops(&self) -> (hops: &Vec<Hop>)
        ensures
            hop_views(hops@) == self@.hops,
            hops_well_formed(self@.hops),
    {
        proof {
            use_type_invariant(self);
        }
        &self.hops
    }

    /// The first peer that the address names: for the address of a relay,
    /// the relay.
    pub fn relay_peer(&self) -> (peer: Option<PeerIdentifier>)
        ensures
            peer is Some <==> first_peer(self@.hops) is Some,
            peer matches Some(p) ==> first_peer(self@.hops) == Some(p@),
    {
        let ghost views = hop_views(self.hops@);
        let mut i: usize = 0;
        proof {
            assert(views.skip(0) == views);
        }
        while i < self.hops.len()
            invariant
                i <= self.hops.len(),
                views == hop_views(self.hops@),
                first_peer(views) == first_peer(views.skip(i as int)),
            decreases self.hops.len() - i,
        {
            proof {
                assert(views.skip(i as int)[0] == self.hops@[i as int]@);
                assert(views.skip(i as int).skip(1) == views.skip(i + 1));
            }
            match &self.hops[i] {
                Hop::Peer(peer) => {
                    return Some(peer.duplicate());
                },
                Hop::Circuit => {},
            }
            i += 1;
        }
        proof {
            assert(views.skip(self.hops.len() as int).len() == 0);
        }
        None
    }

    /// The last peer that the address names: the peer that a dial of this
    /// address is meant to reach. An address without a peer has no target.
    pub fn target_peer(&self) -> (peer: Result<PeerIdentifier, AddressError>)
        ensures
            peer is Ok <==> last_peer(self@.hops) is Some,
            peer matches Ok(p) ==> last_peer(self@.hops) == Some(p@),
            peer matches Err(e) ==> e == AddressError::MissingPeerIdentifier,
    {
        let ghost views = hop_views(self.hops@);
        let mut i: usize = self.hops.len();
        proof {
            assert(views.take(i as int) == views);
        }
        while i > 0
            invariant
                i <= self.hops.len(),
                views == hop_views(self.hops@),
                last_peer(views) == last_peer(views.take(i as int)),
            decreases i,
        {
            proof {
                assert(views.take(i as int).last() == self.hops@[i - 1]@);
                assert(views.take(i as int).drop_last() == views.take(i - 1));
            }
            match &self.hops[i - 1] {
                Hop::Peer(peer) => {
                    return Ok(peer.duplicate());
                },
                Hop::Circuit => {},
            }
            i -= 1;
        }
        proof {
            assert(views.take(0).len() == 0);
        }
        Err(AddressError::MissingPeerIdentifier)
    }

    /// Whether the address goes through a relay.
    pub fn is_relayed(&self) -> (relayed: bool)
        ensures
            relayed == has_circuit(self@.hops),
    {
        let ghost views = hop_views(self.hops@);
        let mut i: usize = 0;
        while i < self.hops.len()
            invariant
                i <= self.hops.len(),
                views == hop_views(self.hops@),
                forall|j: int| 0 <= j < i ==> !(#[trigger] views[j] is Circuit),
            decreases self.hops.len() - i,
        {
            proof {
                assert(views[i as int] == self.hops@[i as int]@);
            }
            match &self.hops[i] {
                Hop::Peer(_) => {},
                Hop::Circuit => {
                    return true;
                },
            }
            i += 1;
        }
        false
    }

    /// A second handle on the same address.
    pub fn duplicate(&self) -> (copy: Multiaddress)
        ensures
            copy@ == self@,
    {
        proof {
            use_type_invariant(self);
        }
        let hops = duplicate_hops(&self.hops);
        Multiaddress { transport: self.transport.clone(), hops }
    }

    /// This address followed by a circuit marker: where a node listens
    /// through the relay that the address ends in. An address that does not
    /// end in a peer cannot take the marker.
    pub fn with_circuit(&self) -> (relayed: Result<Multiaddress, AddressError>)
        ensures
            match relayed {
                Ok(address) => with_circuit_spec(self@) == Ok::<AddressView, AddressError>(
                    address@,
                ),
                Err(e) => with_circuit_spec(self@) == Err::<AddressView, AddressError>(e),
            },
    {
        proof {
            use_type_invariant(self);
        }
        let n = self.hops.len();
        if n == 0 {
            return Err(AddressError::MisplacedCircuit);
        }
        let ghost views = hop_views(self.hops@);
        proof {
            assert(views.last() == self.hops@[n - 1]@);
        }
        match &self.hops[n - 1] {
            Hop::Circuit => Err(AddressError::MisplacedCircuit),
            Hop::Peer(_) => {
                let mut hops = duplicate_hops(&self.hops);
                hops.push(Hop::Circuit);
                proof {
                    assert(hop_views(hops@) == views.push(HopView::Circuit));
                    lemma_well_formed_push(views, HopView::Circuit);
                }
                Ok(Multiaddress { transport: self.transport.clone(), hops })
            },
        }
    }

    /// Whether both addresses have the same components.
    pub fn equals(&self, other: &Multiaddress) -> (same: bool)
        ensures
            same == (self@ == other@),
    {
        if self.transport != other.transport {
            return false;
        }
        let n = self.hops.len();
        if n != other.hops.len() {
            assert(hop_views(self.hops@).len() != hop_views(other.hops@).len());
            return false;
        }
        let mut i: usize = 0;
        while i < n
            invariant
                i <= n,
                n == self.hops.len(),
                n == other.hops.len(),
                forall|j: int|
                    0 <= j < i ==> hop_views(self.hops@)[j] == hop_views(other.hops@)[j],
            decreases n - i,
        {
            proof {
                assert(hop_views(self.hops@)[i as int] == self.hops@[i as int]@);
                assert(hop_views(other.hops@)[i as int] == other.hops@[i as int]@);
            }
            if !self.hops[i].equals(&other.hops[i]) {
                return false;
            }
            i += 1;
        }
        proof {
            assert(hop_views(self.hops@) =~= hop_views(other.hops@));
        }
        true
    }
}

impl Clone for Multiaddress {
    fn clone(&self) -> (copy: Multiaddress)
        ensures
            copy@ == self@,
    {
        self.duplicate()
    }
}

/// A copy of each hop, in order.
fn duplicate_hops(hops: &Vec<Hop>) -> (copy: Vec<Hop>)
    ensures
        hop_views(copy@) == hop_views(hops@),
{
    let mut copy: Vec<Hop> = Vec::new();
    let mut i: usize = 0;
    while i < hops.len()
        invariant
            i <= hops.len(),
            copy.len() == i,
            forall|j: int| 0 <= j < i ==> (#[trigger] copy@[j])@ == hops@[j]@,
        decreases hops.len() - i,
    {
        copy.push(hops[i].duplicate());
        i += 1;
    }
    proof {
        assert(hop_views(copy@) =~= hop_views(hops@));
    }
    copy
}

/// One more peer read.
proof fn lemma_read_peer(
    tail: Seq<Seq<char>>,
    done: Seq<HopView>,
    rest: Seq<Seq<char>>,
    after_peer: bool,
)
    requires
        parse_hops(tail, false) == hops_then(done, parse_hops(rest, after_peer)),
        hops_well_formed(done),
        rest.len() >= 2,
        rest[0] == peer_word(),
        is_peer_text(rest[1]),
    ensures
        parse_hops(tail, false) == hops_then(
            done.push(HopView::Peer(rest[1])),
            parse_hops(rest.skip(2), true),
        ),
        hops_well_formed(done.push(HopView::Peer(rest[1]))),
{
    let step = seq![HopView::Peer(rest[1])];
    lemma_hops_then_assoc(done, step, parse_hops(rest.skip(2), true));
    assert(done + step == done.push(step[0]));
    lemma_well_formed_push(done, step[0]);
}

/// One more circuit marker read.
proof fn lemma_read_circuit(
    tail: Seq<Seq<char>>,
    done: Seq<HopView>,
    rest: Seq<Seq<char>>,
)
    requires
        parse_hops(tail, false) == hops_then(done, parse_hops(rest, true)),
        hops_well_formed(done),
        done.len() > 0,
        done.last() is Peer,
        rest.len() >= 1,
        rest[0] == circuit_word(),
    ensures
        parse_hops(tail, false) == hops_then(
            done.push(HopView::Circuit),
            parse_hops(rest.skip(1), false),
        ),
        hops_well_formed(done.push(HopView::Circuit)),
{
    lemma_hop_words();
    let step = seq![HopView::Circuit];
    lemma_hops_then_assoc(done, step, parse_hops(rest.skip(1), false));
    assert(done + step == done.push(step[0]));
    lemma_well_formed_push(done, step[0]);
}

/// Reads the hops that begin at segment `from`.
fn read_hops(parts: &Vec<String>, from: usize) -> (read: Result<Vec<Hop>, AddressError>)
    requires
        from <= parts.len(),
    ensures
        match read {
            Ok(hops) => parse_hops(texts(parts@).skip(from as int), false) == Ok::<
                Seq<HopView>,
                AddressError,
            >(hop_views(hops@)) && hops_well_formed(hop_views(hops@)),
            Err(e) => parse_hops(texts(parts@).skip(from as int), false) == Err::<
                Seq<HopView>,
                AddressError,
            >(e),
        },
{
    let peer_mark = String::from_str("p2p");
    let circuit_mark = String::from_str("circuit");
    let n = parts.len();
    let ghost all = texts(parts@);
    let ghost tail = all.skip(from as int);
    let mut hops: Vec<Hop> = Vec::new();
    let mut after_peer = false;
    let mut i: usize = from;
    proof {
        lemma_hop_words();
        assert(hop_views(hops@) == Seq::<HopView>::empty());
        match parse_hops(tail, false) {
            Ok(more) => {
                assert(Seq::<HopView>::empty() + more == more);
            },
            Err(_) => {},
        }
    }
    while i < n
        invariant
            n == parts.len(),
            all == texts(parts@),
            tail == all.skip(from as int),
            from <= i <= n,
            peer_mark@ == peer_word(),
            circuit_mark@ == circuit_word(),
            peer_word() != circuit_word(),
            parse_hops(tail, false) == hops_then(
                hop_views(hops@),
                parse_hops(all.skip(i as int), after_peer),
            ),
            hops_well_formed(hop_views(hops@)),
            after_peer == (hops.len() > 0 && hop_views(hops@).last() is Peer),
        decreases n - i,
    {
        let ghost rest = all.skip(i as int);
        let ghost done = hop_views(hops@);
        proof {
            assert(rest[0] == parts@[i as int]@);
            assert(rest.skip(1) == all.skip(i + 1));
        }
        if parts[i] == peer_mark {
            if i + 1 >= n {
                return Err(AddressError::InvalidPeerIdentifier);
            }
            proof {
                assert(rest[1] == parts@[i + 1]@);
                assert(rest.skip(2) == all.skip(i + 2));
            }
            match PeerIdentifier::parse(parts[i + 1].as_str()) {
                None => {
                    return Err(AddressError::InvalidPeerIdentifier);
                },
                Some(peer) => {
                    proof {
                        lemma_read_peer(tail, done, rest, after_peer);
                    }
                    hops.push(Hop::Peer(peer));
                    after_peer = true;
                    i += 2;
                    proof {
                        assert(hop_views(hops@) == done.push(HopView::Peer(rest[1])));
                    }
                },
            }
        } else if parts[i] == circuit_mark {
            if !after_peer {
                return Err(AddressError::MisplacedCircuit);
            }
            proof {
                lemma_read_circuit(tail, done, rest);
            }
            hops.push(Hop::Circuit);
            after_peer = false;
            i += 1;
            proof {
                assert(hop_views(hops@) == done.push(HopView::Circuit));
            }
        } else {
            return Err(AddressError::UnexpectedComponent);
        }
    }
    proof {
        assert(all.skip(n as int).len() == 0);
        assert(hop_views(hops@) + Seq::<HopView>::empty() == hop_views(hops@));
    }
    Ok(hops)
}

/// Putting hops in front in two steps is putting their concatenation in
/// front.
proof fn lemma_hops_then_assoc(
    first: Seq<HopView>,
    second: Seq<HopView>,
    rest: Result<Seq<HopView>, AddressError>,
)
    ensures
        hops_then(first, hops_then(second, rest)) == hops_then(first + second, rest),
{
    match rest {
        Ok(more) => {
            assert(first + (second + more) == (first + second) + more);
        },
        Err(_) => {},
    }
}

/// A hop that is in order after well-formed hops leaves them well formed.
proof fn lemma_well_formed_push(hops: Seq<HopView>, hop: HopView)
    requires
        hops_well_formed(hops),
        match hop {
            HopView::Peer(peer) => is_peer_text(peer),
            HopView::Circuit => hops.len() > 0 && hops.last() is Peer,
        },
    ensures
        hops_well_formed(hops.push(hop)),
{
    let longer = hops.push(hop);
    assert forall|i: int| 0 <= i < longer.len() implies #[trigger] hop_in_order(longer, i) by {
        if i < hops.len() {
            assert(hop_in_order(hops, i));
            assert(longer[i] == hops[i]);
            if i > 0 {
                assert(longer[i - 1] == hops[i - 1]);
            }
        }
    }
}

} // verus!
