//! What holds of address texts: reading what was written gives the address
//! back, and writing what was read gives the text back.

use vstd::prelude::*;

use crate::address::address_text;
use crate::address::circuit_word;
use crate::address::first_hop_word;
use crate::address::hop_in_order;
use crate::address::hop_text;
use crate::address::hops_text;
use crate::address::hops_then;
use crate::address::hops_well_formed;
use crate::address::is_hop_word;
use crate::address::lemma_first_hop_word;
use crate::address::lemma_hop_words;
use crate::address::parse_hops;
use crate::address::parse_spec;
use crate::address::peer_word;
use crate::address::well_formed;
use crate::address::AddressView;
use crate::address::HopView;
use crate::identity::is_peer_text;
use crate::text::lemma_join_segments;
use crate::text::lemma_segments_across_separator;
use crate::text::lemma_segments_hold_no_separator;
use crate::text::lemma_segments_join;
use crate::text::lemma_segments_nonempty;
use crate::text::lemma_segments_of_word;
use crate::text::segments;

verus! {

/// The segments that one hop is written as.
pub open spec fn hop_segments(hop: HopView) -> Seq<Seq<char>> {
    match hop {
        HopView::Peer(peer) => seq![peer_word(), peer],
        HopView::Circuit => seq![circuit_word()],
    }
}

/// The segments that a run of hops is written as.
pub open spec fn hops_segments(hops: Seq<HopView>) -> Seq<Seq<char>>
    decreases hops.len(),
{
    if hops.len() == 0 {
        Seq::<Seq<char>>::empty()
    } else {
        hop_segments(hops[0]) + hops_segments(hops.skip(1))
    }
}

/// The hops are in order when the component before them was a peer, or was
/// not, as `after_peer` says.
pub open spec fn ordered(hops: Seq<HopView>, after_peer: bool) -> bool
    decreases hops.len(),
{
    if hops.len() == 0 {
        true
    } else {
        match hops[0] {
            HopView::Peer(peer) => is_peer_text(peer) && ordered(hops.skip(1), true),
            HopView::Circuit => after_peer && ordered(hops.skip(1), false),
        }
    }
}

/// Each hop is in its place, the first one judged by `after_peer`.
pub open spec fn placed(hops: Seq<HopView>, after_peer: bool) -> bool {
    forall|i: int| 0 <= i < hops.len() ==> #[trigger] hop_placed(hops, after_peer, i)
}

/// The hop at `i` is in its place.
pub open spec fn hop_placed(hops: Seq<HopView>, after_peer: bool, i: int) -> bool {
    match hops[i] {
        HopView::Peer(peer) => is_peer_text(peer),
        HopView::Circuit => if i == 0 {
            after_peer
        } else {
            hops[i - 1] is Peer
        },
    }
}

proof fn lemma_placed_gives_ordered(hops: Seq<HopView>, after_peer: bool)
    requires
        placed(hops, after_peer),
    ensures
        ordered(hops, after_peer),
    decreases hops.len(),
{
    if hops.len() > 0 {
        let rest = hops.skip(1);
        let flag = hops[0] is Peer;
        assert(hop_placed(hops, after_peer, 0));
        assert forall|i: int| 0 <= i < rest.len() implies #[trigger] hop_placed(rest, flag, i) by {
            assert(hop_placed(hops, after_peer, i + 1));
            assert(rest[i] == hops[i + 1]);
            if i > 0 {
                assert(rest[i - 1] == hops[i]);
            }
        }
        lemma_placed_gives_ordered(rest, flag);
    }
}

proof fn lemma_ordered_gives_placed(hops: Seq<HopView>, after_peer: bool)
    requires
        ordered(hops, after_peer),
    ensures
        placed(hops, after_peer),
    decreases hops.len(),
{
    if hops.len() > 0 {
        let rest = hops.skip(1);
        let flag = hops[0] is Peer;
        lemma_ordered_gives_placed(rest, flag);
        assert forall|i: int| 0 <= i < hops.len() implies #[trigger] hop_placed(
            hops,
            after_peer,
            i,
        ) by {
            if i > 0 {
                assert(hop_placed(rest, flag, i - 1));
                assert(rest[i - 1] == hops[i]);
                if i > 1 {
                    assert(rest[i - 2] == hops[i - 1]);
                }
            }
        }
    }
}

proof fn lemma_well_formed_is_placed(hops: Seq<HopView>)
    ensures
        hops_well_formed(hops) == placed(hops, false),
{
    if hops_well_formed(hops) {
        assert forall|i: int| 0 <= i < hops.len() implies #[trigger] hop_placed(hops, false, i) by {
            assert(hop_in_order(hops, i));
        }
    }
    if placed(hops, false) {
        assert forall|i: int| 0 <= i < hops.len() implies #[trigger] hop_in_order(hops, i) by {
            assert(hop_placed(hops, false, i));
        }
    }
}

/// The text of a hop after any text adds the hop's segments.
proof fn lemma_segments_with_hop(before: Seq<char>, hop: HopView)
    requires
        hop matches HopView::Peer(peer) ==> !peer.contains('/'),
    ensures
        segments(before + hop_text(hop)) == segments(before) + hop_segments(hop),
{
    lemma_hop_words();
    let bar = seq!['/'];
    match hop {
        HopView::Peer(peer) => {
            reveal_strlit("/p2p/");
            assert("/p2p/"@ =~= bar + peer_word() + bar);
            assert(before + hop_text(hop) =~= (before + bar + peer_word()) + bar + peer);
            lemma_segments_across_separator(before + bar + peer_word(), peer);
            lemma_segments_across_separator(before, peer_word());
            lemma_segments_of_word(peer_word());
            lemma_segments_of_word(peer);
            assert((segments(before) + seq![peer_word()]) + seq![peer] =~= segments(before)
                + seq![peer_word(), peer]);
        },
        HopView::Circuit => {
            reveal_strlit("/circuit");
            assert("/circuit"@ =~= bar + circuit_word());
            assert(before + hop_text(hop) =~= before + bar + circuit_word());
            lemma_segments_across_separator(before, circuit_word());
            lemma_segments_of_word(circuit_word());
        },
    }
}

/// The text of hops after any text adds the hops' segments.
proof fn lemma_segments_with_hops(before: Seq<char>, hops: Seq<HopView>)
    requires
        forall|i: int|
            0 <= i < hops.len() ==> ((#[trigger] hops[i]) matches HopView::Peer(peer)
                ==> !peer.contains('/')),
    ensures
        segments(before + hops_text(hops)) == segments(before) + hops_segments(hops),
    decreases hops.len(),
{
    if hops.len() == 0 {
        assert(before + hops_text(hops) =~= before);
        assert(segments(before) + hops_segments(hops) =~= segments(before));
    } else {
        let rest = hops.skip(1);
        assert forall|i: int| 0 <= i < rest.len() implies ((#[trigger] rest[i]) matches HopView::Peer(
            peer,
        ) ==> !peer.contains('/')) by {
            assert(rest[i] == hops[i + 1]);
        }
        assert(hops[0] matches HopView::Peer(peer) ==> !peer.contains('/'));
        lemma_segments_with_hop(before, hops[0]);
        lemma_segments_with_hops(before + hop_text(hops[0]), rest);
        assert(before + hops_text(hops) =~= (before + hop_text(hops[0])) + hops_text(rest));
        assert((segments(before) + hop_segments(hops[0])) + hops_segments(rest) =~= segments(before)
            + hops_segments(hops));
    }
}

/// Hops in order are read back from their segments.
proof fn lemma_parse_hops_of_segments(hops: Seq<HopView>, after_peer: bool)
    requires
        ordered(hops, after_peer),
    ensures
        parse_hops(hops_segments(hops), after_peer) == Ok::<Seq<HopView>, crate::error::AddressError>(
            hops,
        ),
    decreases hops.len(),
{
    lemma_hop_words();
    let parts = hops_segments(hops);
    if hops.len() > 0 {
        let rest = hops.skip(1);
        match hops[0] {
            HopView::Peer(peer) => {
                lemma_parse_hops_of_segments(rest, true);
                assert(parts =~= seq![peer_word(), peer] + hops_segments(rest));
                assert(parts.len() >= 2);
                assert(parts[0] == peer_word());
                assert(parts[1] == peer);
                assert(parts.skip(2) =~= hops_segments(rest));
                assert(seq![HopView::Peer(peer)] + rest =~= hops);
                assert(parse_hops(parts, after_peer) == hops_then(
                    seq![HopView::Peer(peer)],
                    parse_hops(parts.skip(2), true),
                ));
            },
            HopView::Circuit => {
                lemma_parse_hops_of_segments(rest, false);
                assert(parts =~= seq![circuit_word()] + hops_segments(rest));
                assert(parts.len() >= 1);
                assert(parts[0] == circuit_word());
                assert(parts.skip(1) =~= hops_segments(rest));
                assert(seq![HopView::Circuit] + rest =~= hops);
                assert(parse_hops(parts, after_peer) == hops_then(
                    seq![HopView::Circuit],
                    parse_hops(parts.skip(1), false),
                ));
            },
        }
    } else {
        assert(hops =~= Seq::<HopView>::empty());
    }
}

/// Hops that were read are in order, and they are written as the segments
/// that they were read from.
proof fn lemma_parsed_hops(parts: Seq<Seq<char>>, after_peer: bool)
    requires
        parse_hops(parts, after_peer) is Ok,
    ensures
        ordered(parse_hops(parts, after_peer)->Ok_0, after_peer),
        hops_segments(parse_hops(parts, after_peer)->Ok_0) == parts,
    decreases parts.len(),
{
    lemma_hop_words();
    let hops = parse_hops(parts, after_peer)->Ok_0;
    if parts.len() > 0 {
        if parts[0] == peer_word() {
            let rest = parse_hops(parts.skip(2), true)->Ok_0;
            lemma_parsed_hops(parts.skip(2), true);
            assert(hops == seq![HopView::Peer(parts[1])] + rest);
            assert(hops.skip(1) =~= rest);
            assert(hops_segments(hops) =~= seq![parts[0], parts[1]] + parts.skip(2));
            assert(seq![parts[0], parts[1]] + parts.skip(2) =~= parts);
        } else {
            let rest = parse_hops(parts.skip(1), false)->Ok_0;
            lemma_parsed_hops(parts.skip(1), false);
            assert(hops == seq![HopView::Circuit] + rest);
            assert(hops.skip(1) =~= rest);
            assert(hops_segments(hops) =~= seq![parts[0]] + parts.skip(1));
            assert(seq![parts[0]] + parts.skip(1) =~= parts);
        }
    } else {
        assert(hops_segments(hops) =~= parts);
    }
}

/// What `first_hop_word` counts: the segments before it are no hop words,
/// and the segment at it, if there is one, is.
proof fn lemma_first_hop_word_found(parts: Seq<Seq<char>>)
    ensures
        0 <= first_hop_word(parts) <= parts.len(),
        forall|j: int| 0 <= j < first_hop_word(parts) ==> !is_hop_word(#[trigger] parts[j]),
        first_hop_word(parts) < parts.len() ==> is_hop_word(parts[first_hop_word(parts)]),
    decreases parts.len(),
{
    if parts.len() > 0 && !is_hop_word(parts[0]) {
        let rest = parts.skip(1);
        lemma_first_hop_word_found(rest);
        assert forall|j: int| 0 <= j < first_hop_word(parts) implies !is_hop_word(
            #[trigger] parts[j],
        ) by {
            if j > 0 {
                assert(rest[j - 1] == parts[j]);
            }
        }
        if first_hop_word(parts) < parts.len() {
            assert(rest[first_hop_word(rest)] == parts[first_hop_word(parts)]);
        }
    }
}

/// A peer's text holds no separator.
proof fn lemma_peers_hold_no_separator(hops: Seq<HopView>)
    requires
        hops_well_formed(hops),
    ensures
        forall|i: int|
            0 <= i < hops.len() ==> ((#[trigger] hops[i]) matches HopView::Peer(peer)
                ==> !peer.contains('/')),
{
    assert forall|i: int| 0 <= i < hops.len() implies ((#[trigger] hops[i]) matches HopView::Peer(
        peer,
    ) ==> !peer.contains('/')) by {
        assert(hop_in_order(hops, i));
    }
}

/// Reading the text of a well-formed address gives the address back.
pub proof fn lemma_parse_of_serialized(address: AddressView)
    requires
        well_formed(address),
    ensures
        parse_spec(address_text(address)) == Ok::<AddressView, crate::error::AddressError>(address),
{
    let text = address_text(address);
    let front = segments(address.transport);
    let back = hops_segments(address.hops);
    lemma_hop_words();
    lemma_peers_hold_no_separator(address.hops);
    lemma_segments_with_hops(address.transport, address.hops);
    lemma_segments_nonempty(address.transport);
    let parts = segments(text);
    assert(parts == front + back);
    let k = front.len() as int;
    assert forall|j: int| 0 <= j < k implies !is_hop_word(#[trigger] parts[j]) by {
        assert(parts[j] == front[j]);
    }
    if address.hops.len() > 0 {
        assert(parts[k] == back[0]);
        assert(is_hop_word(back[0]));
    } else {
        assert(back.len() == 0);
    }
    lemma_first_hop_word(parts, k);
    assert(parts.take(k) =~= front);
    assert(parts.skip(k) =~= back);
    lemma_join_segments(address.transport);
    lemma_well_formed_is_placed(address.hops);
    lemma_placed_gives_ordered(address.hops, false);
    lemma_parse_hops_of_segments(address.hops, false);
}

/// An address that was read is well formed, and its text is the text that it
/// was read from.
pub proof fn lemma_serialized_of_parsed(text: Seq<char>)
    requires
        parse_spec(text) is Ok,
    ensures
        well_formed(parse_spec(text)->Ok_0),
        address_text(parse_spec(text)->Ok_0) == text,
{
    let address = parse_spec(text)->Ok_0;
    let parts = segments(text);
    let k = first_hop_word(parts);
    lemma_first_hop_word_found(parts);
    lemma_segments_hold_no_separator(text);
    let front = parts.take(k);
    assert forall|j: int| 0 <= j < front.len() implies !(#[trigger] front[j]).contains('/') by {
        assert(front[j] == parts[j]);
    }
    lemma_segments_join(front);
    assert(segments(address.transport) == front);
    assert forall|j: int| 0 <= j < segments(address.transport).len() implies !is_hop_word(
        #[trigger] segments(address.transport)[j],
    ) by {
        assert(front[j] == parts[j]);
    }
    lemma_parsed_hops(parts.skip(k), false);
    lemma_ordered_gives_placed(address.hops, false);
    lemma_well_formed_is_placed(address.hops);
    lemma_peers_hold_no_separator(address.hops);
    lemma_segments_with_hops(address.transport, address.hops);
    assert(segments(address_text(address)) == front + parts.skip(k));
    assert(front + parts.skip(k) =~= parts);
    lemma_join_segments(address_text(address));
    lemma_join_segments(text);
}

/// Two well-formed addresses with the same text are the same address.
pub proof fn lemma_text_tells_address(first: AddressView, second: AddressView)
    requires
        well_formed(first),
        well_formed(second),
        address_text(first) == address_text(second),
    ensures
        first == second,
{
    lemma_parse_of_serialized(first);
    lemma_parse_of_serialized(second);
}

} // verus!
