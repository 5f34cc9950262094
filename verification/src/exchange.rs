//! The bookkeeping of the request-response protocol.
//!
//! A table of pending exchanges correlates what was sent with what comes
//! back. The node keeps one table for the requests it has sent, whose
//! entries resolve with a response or an error, and one for the requests it
//! has accepted, whose entries are the response channels still open. Every
//! entry leaves its table exactly once, and its handle is never given out
//! again.

use vstd::prelude::*;

use crate::error::ChannelError;
use crate::error::RequestError;
use crate::identity::PeerIdentifier;
use crate::message::PromptRequest;
use crate::message::PromptResponse;

verus! {

/// An exchange that waits for its end.
#[derive(Debug, PartialEq, Eq)]
pub struct PendingRequest {
    /// The handle under which the exchange is known.
    pub id: u64,
    /// The peer at the other end.
    pub peer: PeerIdentifier,
    /// The request that opened the exchange.
    pub request: PromptRequest,
    /// The time after which the exchange counts as timed out, if the caller
    /// asked for a maximum wait.
    pub deadline: Option<u64>,
}

/// A pending exchange as a mathematical value.
pub struct PendingView {
    pub id: u64,
    pub peer: Seq<char>,
    pub prompt: Seq<char>,
    pub deadline: Option<u64>,
}

impl View for PendingRequest {
    type V = PendingView;

    open spec fn view(&self) -> PendingView {
        PendingView {
            id: self.id,
            peer: self.peer@,
            prompt: self.request@,
            deadline: self.deadline,
        }
    }
}

/// The views of a sequence of pending exchanges.
pub open spec fn pending_views(entries: Seq<PendingRequest>) -> Seq<PendingView> {
    entries.map_values(|e: PendingRequest| e@)
}

/// Which entries an operation concerns.
pub enum Rule {
    /// The entry with this handle.
    Handle(u64),
    /// Every entry whose other end is this peer.
    Peer(Seq<char>),
    /// Every entry whose deadline has come at this time.
    DueBy(u64),
}

/// Whether the rule concerns the entry.
pub open spec fn selected(entry: PendingView, rule: Rule) -> bool {
    match rule {
        Rule::Handle(id) => entry.id == id,
        Rule::Peer(peer) => entry.peer == peer,
        Rule::DueBy(now) => match entry.deadline {
            Some(deadline) => deadline <= now,
            None => false,
        },
    }
}

/// The entries that the rule concerns, in order.
pub open spec fn leaving(pending: Seq<PendingView>, rule: Rule) -> Seq<PendingView>
    decreases pending.len(),
{
    if pending.len() == 0 {
        Seq::<PendingView>::empty()
    } else if selected(pending.last(), rule) {
        leaving(pending.drop_last(), rule).push(pending.last())
    } else {
        leaving(pending.drop_last(), rule)
    }
}

/// The entries that the rule does not concern, in order.
pub open spec fn staying(pending: Seq<PendingView>, rule: Rule) -> Seq<PendingView>
    decreases pending.len(),
{
    if pending.len() == 0 {
        Seq::<PendingView>::empty()
    } else if selected(pending.last(), rule) {
        staying(pending.drop_last(), rule)
    } else {
        staying(pending.drop_last(), rule).push(pending.last())
    }
}

/// Whether an entry with this handle is pending.
pub open spec fn is_pending(pending: Seq<PendingView>, id: u64) -> bool {
    exists|i: int| 0 <= i < pending.len() && (#[trigger] pending[i]).id == id
}

/// A table as a mathematical value: the pending entries in the order in
/// which they came, and the handle that the next entry will get.
pub struct TableView {
    pub pending: Seq<PendingView>,
    pub next_id: u64,
}

/// The invariant of a table: handles grow along the entries, and all lie
/// below the next handle. So no handle occurs twice, and none comes back.
pub open spec fn table_wf(table: TableView) -> bool {
    &&& forall|i: int| 0 <= i < table.pending.len() ==> (#[trigger] table.pending[i]).id
        < table.next_id
    &&& forall|i: int, j: int|
        0 <= i < j < table.pending.len() ==> (#[trigger] table.pending[i]).id < (
        #[trigger] table.pending[j]).id
}

/// How an exchange ended.
#[derive(Debug, PartialEq, Eq)]
pub struct Resolution {
    /// The handle of the exchange.
    pub id: u64,
    /// The peer at the other end.
    pub peer: PeerIdentifier,
    /// The response, or why there is none.
    pub outcome: Result<PromptResponse, RequestError>,
}

/// The end of an exchange as a mathematical value.
pub struct ResolutionView {
    pub id: u64,
    pub peer: Seq<char>,
    pub outcome: Result<Seq<char>, RequestError>,
}

/// The view of a response or error.
pub open spec fn response_view(outcome: Result<PromptResponse, RequestError>) -> Result<
    Seq<char>,
    RequestError,
> {
    match outcome {
        Ok(response) => Ok(response@),
        Err(e) => Err(e),
    }
}

impl View for Resolution {
    type V = ResolutionView;

    open spec fn view(&self) -> ResolutionView {
        ResolutionView { id: self.id, peer: self.peer@, outcome: response_view(self.outcome) }
    }
}

/// The views of a sequence of resolutions.
pub open spec fn resolution_views(ends: Seq<Resolution>) -> Seq<ResolutionView> {
    ends.map_values(|r: Resolution| r@)
}

/// Each entry ended with the same error.
pub open spec fn failed_with(entries: Seq<PendingView>, error: RequestError) -> Seq<
    ResolutionView,
> {
    entries.map_values(
        |e: PendingView| ResolutionView { id: e.id, peer: e.peer, outcome: Err(error) },
    )
}

/// What leaves is part of what was there: its handles lie below any bound
/// on the handles of the table.
pub proof fn lemma_parts_bounded(pending: Seq<PendingView>, rule: Rule, bound: int)
    requires
        forall|i: int| 0 <= i < pending.len() ==> (#[trigger] pending[i]).id < bound,
    ensures
        forall|i: int|
            0 <= i < leaving(pending, rule).len() ==> (#[trigger] leaving(pending, rule)[i]).id
                < bound,
        forall|i: int|
            0 <= i < staying(pending, rule).len() ==> (#[trigger] staying(pending, rule)[i]).id
                < bound,
        forall|i: int|
            0 <= i < leaving(pending, rule).len() ==> selected(
                #[trigger] leaving(pending, rule)[i],
                rule,
            ),
        forall|i: int|
            0 <= i < staying(pending, rule).len() ==> !selected(
                #[trigger] staying(pending, rule)[i],
                rule,
            ),
    decreases pending.len(),
{
    if pending.len() > 0 {
        let front = pending.drop_last();
        assert forall|i: int| 0 <= i < front.len() implies (#[trigger] front[i]).id < bound by {
            assert(front[i] == pending[i]);
        }
        lemma_parts_bounded(front, rule, bound);
        assert(pending.last() == pending[pending.len() - 1]);
    }
}

/// Taking entries out of a table leaves a table.
pub proof fn lemma_staying_wf(table: TableView, rule: Rule)
    requires
        table_wf(table),
    ensures
        table_wf(TableView { pending: staying(table.pending, rule), next_id: table.next_id }),
        table_wf(TableView { pending: leaving(table.pending, rule), next_id: table.next_id }),
    decreases table.pending.len(),
{
    let pending = table.pending;
    if pending.len() > 0 {
        let front = pending.drop_last();
        let shorter = TableView { pending: front, next_id: table.next_id };
        assert forall|i: int| 0 <= i < front.len() implies (#[trigger] front[i]).id
            < table.next_id by {
            assert(front[i] == pending[i]);
        }
        assert forall|i: int, j: int| 0 <= i < j < front.len() implies (#[trigger] front[i]).id < (
        #[trigger] front[j]).id by {
            assert(front[i] == pending[i]);
            assert(front[j] == pending[j]);
        }
        lemma_staying_wf(shorter, rule);
        let last = pending.last();
        assert(last == pending[pending.len() - 1]);
        assert forall|i: int| 0 <= i < front.len() implies (#[trigger] front[i]).id < last.id by {
            assert(front[i] == pending[i]);
        }
        lemma_parts_bounded(front, rule, last.id as int);
    }
}

/// At most one entry has a given handle.
pub proof fn lemma_one_entry_per_handle(table: TableView, id: u64)
    requires
        table_wf(table),
    ensures
        leaving(table.pending, Rule::Handle(id)).len() <= 1,
        is_pending(table.pending, id) <==> leaving(table.pending, Rule::Handle(id)).len() == 1,
    decreases table.pending.len(),
{
    let pending = table.pending;
    let rule = Rule::Handle(id);
    if pending.len() > 0 {
        let front = pending.drop_last();
        let shorter = TableView { pending: front, next_id: table.next_id };
        assert forall|i: int| 0 <= i < front.len() implies (#[trigger] front[i]).id
            < table.next_id by {
            assert(front[i] == pending[i]);
        }
        assert forall|i: int, j: int| 0 <= i < j < front.len() implies (#[trigger] front[i]).id < (
        #[trigger] front[j]).id by {
            assert(front[i] == pending[i]);
            assert(front[j] == pending[j]);
        }
        lemma_one_entry_per_handle(shorter, id);
        let last = pending.last();
        assert(last == pending[pending.len() - 1]);
        assert forall|i: int| 0 <= i < front.len() implies (#[trigger] front[i]).id < last.id by {
            assert(front[i] == pending[i]);
        }
        if selected(last, rule) {
            lemma_parts_bounded(front, rule, last.id as int);
            if leaving(front, rule).len() > 0 {
                assert(selected(leaving(front, rule)[0], rule));
                assert(leaving(front, rule)[0].id < last.id);
            }
            assert(is_pending(pending, id));
        } else {
            if is_pending(pending, id) {
                let i = choose|i: int| 0 <= i < pending.len() && (#[trigger] pending[i]).id == id;
                assert(front[i] == pending[i]);
                assert(is_pending(front, id));
            }
            if is_pending(front, id) {
                let i = choose|i: int| 0 <= i < front.len() && (#[trigger] front[i]).id == id;
                assert(front[i] == pending[i]);
            }
        }
    } else {
        assert(!is_pending(pending, id));
    }
}

/// The table of pending exchanges.
#[derive(Debug)]
pub struct PendingRequests {
    entries: Vec<PendingRequest>,
    next_id: u64,
}

impl View for PendingRequests {
    type V = TableView;

    closed spec fn view(&self) -> TableView {
        TableView { pending: pending_views(self.entries@), next_id: self.next_id }
    }
}

/// The rule of an operation, with the peer held by reference.
enum Selector<'a> {
    Handle(u64),
    Peer(&'a PeerIdentifier),
    DueBy(u64),
}

impl<'a> View for Selector<'a> {
    type V = Rule;

    closed spec fn view(&self) -> Rule {
        match self {
            Selector::Handle(id) => Rule::Handle(*id),
            Selector::Peer(peer) => Rule::Peer(peer@),
            Selector::DueBy(now) => Rule::DueBy(*now),
        }
    }
}

fn concerns(selector: &Selector<'_>, entry: &PendingRequest) -> (hit: bool)
    ensures
        hit == selected(entry@, selector@),
{
    match selector {
        Selector::Handle(id) => entry.id == *id,
        Selector::Peer(peer) => entry.peer.equals(peer),
        Selector::DueBy(now) => match entry.deadline {
            Some(deadline) => deadline <= *now,
            None => false,
        },
    }
}

impl PendingRequests {
    /// The invariant of the table.
    pub open spec fn wf(&self) -> bool {
        table_wf(self@)
    }

    /// An empty table.
    pub fn new() -> (table: PendingRequests)
        ensures
            table.wf(),
            table@.pending.len() == 0,
            table@.next_id == 0,
    {
        PendingRequests { entries: Vec::new(), next_id: 0 }
    }

    /// The number of pending exchanges.
    pub fn len(&self) -> (count: usize)
        ensures
            count == self@.pending.len(),
    {
        self.entries.len()
    }

    /// Whether an exchange with this handle is pending.
    pub fn is_pending(&self, id: u64) -> (pending: bool)
        ensures
            pending == is_pending(self@.pending, id),
    {
        let mut i: usize = 0;
        while i < self.entries.len()
            invariant
                i <= self.entries.len(),
                forall|j: int| 0 <= j < i ==> (#[trigger] self@.pending[j]).id != id,
            decreases self.entries.len() - i,
        {
            assert(self@.pending[i as int] == self.entries@[i as int]@);
            if self.entries[i].id == id {
                return true;
            }
            i += 1;
        }
        false
    }

    /// Records a new exchange with `peer` and gives it the next handle. No
    /// entry is made, and no handle given, once every handle has been used.
    pub fn send_request(
        &mut self,
        peer: PeerIdentifier,
        request: PromptRequest,
        deadline: Option<u64>,
    ) -> (handle: Option<u64>)
        requires
            old(self).wf(),
        ensures
            final(self).wf(),
            match handle {
                Some(id) => {
                    &&& id == old(self)@.next_id
                    &&& id < u64::MAX
                    &&& final(self)@.next_id == id + 1
                    &&& final(self)@.pending == old(self)@.pending.push(
                        PendingView { id, peer: peer@, prompt: request@, deadline },
                    )
                },
                None => old(self)@.next_id == u64::MAX && final(self)@ == old(self)@,
            },
    {
        if self.next_id == u64::MAX {
            return None;
        }
        let id = self.next_id;
        let ghost before = self@.pending;
        let entry = PendingRequest { id, peer, request, deadline };
        let ghost added = entry@;
        self.entries.push(entry);
        self.next_id = id + 1;
        proof {
            assert(self@.pending =~= before.push(added));
        }
        Some(id)
    }

    /// Takes out the entries that the selector concerns.
    fn take_out(&mut self, selector: &Selector<'_>) -> (taken: Vec<PendingRequest>)
        requires
            old(self).wf(),
        ensures
            final(self).wf(),
            final(self)@.next_id == old(self)@.next_id,
            final(self)@.pending == staying(old(self)@.pending, selector@),
            pending_views(taken@) == leaving(old(self)@.pending, selector@),
    {
        let ghost before = self@;
        let mut all: Vec<PendingRequest> = Vec::new();
        core::mem::swap(&mut self.entries, &mut all);
        let mut taken: Vec<PendingRequest> = Vec::new();
        let ghost views = pending_views(all@);
        proof {
            assert(views == before.pending);
            assert(views.take(0) =~= Seq::<PendingView>::empty());
            assert(pending_views(self.entries@) =~= Seq::<PendingView>::empty());
            assert(pending_views(taken@) =~= Seq::<PendingView>::empty());
        }
        for entry in it: all.into_iter()
            invariant
                it.seq() == all@,
                views == pending_views(all@),
                self.next_id == before.next_id,
                pending_views(self.entries@) == staying(views.take(it.index() as int), selector@),
                pending_views(taken@) == leaving(views.take(it.index() as int), selector@),
        {
            let ghost i = it.index() as int;
            let ghost kept = pending_views(self.entries@);
            let ghost gone = pending_views(taken@);
            proof {
                assert(views.take(i + 1).drop_last() =~= views.take(i));
                assert(views.take(i + 1).last() == entry@);
            }
            if concerns(selector, &entry) {
                taken.push(entry);
                proof {
                    assert(pending_views(taken@) =~= gone.push(views[i]));
                }
            } else {
                self.entries.push(entry);
                proof {
                    assert(pending_views(self.entries@) =~= kept.push(views[i]));
                }
            }
        }
        proof {
            assert(views.take(all@.len() as int) =~= views);
            lemma_staying_wf(before, selector@);
        }
        taken
    }

    /// Ends the exchange with this handle, if it is pending, with `outcome`.
    /// An exchange ends once: a second call for the same handle finds
    /// nothing and changes nothing.
    pub fn resolve(&mut self, id: u64, outcome: Result<PromptResponse, RequestError>) -> (end:
        Option<Resolution>)
        requires
            old(self).wf(),
        ensures
            final(self).wf(),
            final(self)@.next_id == old(self)@.next_id,
            final(self)@.pending == staying(old(self)@.pending, Rule::Handle(id)),
            end is Some <==> is_pending(old(self)@.pending, id),
            end matches Some(r) ==> {
                &&& leaving(old(self)@.pending, Rule::Handle(id)).len() == 1
                &&& r.id == id
                &&& r.peer@ == leaving(old(self)@.pending, Rule::Handle(id))[0].peer
                &&& response_view(r.outcome) == response_view(outcome)
            },
            !is_pending(final(self)@.pending, id),
    {
        proof {
            lemma_one_entry_per_handle(self@, id);
            lemma_parts_bounded(self@.pending, Rule::Handle(id), self@.next_id as int);
        }
        let selector = Selector::Handle(id);
        let mut taken = self.take_out(&selector);
        proof {
            lemma_resolved_is_gone(old(self)@.pending, id);
        }
        match taken.pop() {
            Some(entry) => {
                proof {
                    let gone = leaving(old(self)@.pending, Rule::Handle(id));
                    assert(gone[0] == entry@);
                    assert(selected(gone[0], Rule::Handle(id)));
                }
                Some(Resolution { id: entry.id, peer: entry.peer, outcome })
            },
            None => None,
        }
    }

    /// Ends every exchange with `peer`, whose connection has closed: each
    /// fails with `StreamFailed`.
    pub fn connection_closed(&mut self, peer: &PeerIdentifier) -> (ends: Vec<Resolution>)
        requires
            old(self).wf(),
        ensures
            final(self).wf(),
            final(self)@.next_id == old(self)@.next_id,
            final(self)@.pending == staying(old(self)@.pending, Rule::Peer(peer@)),
            resolution_views(ends@) == failed_with(
                leaving(old(self)@.pending, Rule::Peer(peer@)),
                RequestError::StreamFailed,
            ),
    {
        let selector = Selector::Peer(peer);
        let taken = self.take_out(&selector);
        fail_all(taken, RequestError::StreamFailed)
    }

    /// Ends every exchange whose deadline has come at `now`: each fails with
    /// `Timeout`. An exchange without a deadline never times out.
    pub fn expire(&mut self, now: u64) -> (ends: Vec<Resolution>)
        requires
            old(self).wf(),
        ensures
            final(self).wf(),
            final(self)@.next_id == old(self)@.next_id,
            final(self)@.pending == staying(old(self)@.pending, Rule::DueBy(now)),
            resolution_views(ends@) == failed_with(
                leaving(old(self)@.pending, Rule::DueBy(now)),
                RequestError::Timeout,
            ),
    {
        let selector = Selector::DueBy(now);
        let taken = self.take_out(&selector);
        fail_all(taken, RequestError::Timeout)
    }
}

/// Ends each entry with `error`.
fn fail_all(entries: Vec<PendingRequest>, error: RequestError) -> (ends: Vec<Resolution>)
    ensures
        resolution_views(ends@) == failed_with(pending_views(entries@), error),
{
    let mut ends: Vec<Resolution> = Vec::new();
    let ghost views = pending_views(entries@);
    for entry in it: entries.into_iter()
        invariant
            it.seq() == entries@,
            views == pending_views(entries@),
            ends.len() == it.index(),
            forall|j: int|
                0 <= j < it.index() ==> (#[trigger] ends@[j])@ == failed_with(views, error)[j],
    {
        let ghost i = it.index() as int;
        proof {
            assert(views[i] == entry@);
        }
        ends.push(Resolution { id: entry.id, peer: entry.peer, outcome: Err(error) });
    }
    proof {
        assert(resolution_views(ends@) =~= failed_with(views, error));
    }
    ends
}

/// Once the entry with a handle has left, no entry with that handle is
/// pending.
pub proof fn lemma_resolved_is_gone(pending: Seq<PendingView>, id: u64)
    ensures
        !is_pending(staying(pending, Rule::Handle(id)), id),
        leaving(staying(pending, Rule::Handle(id)), Rule::Handle(id)).len() == 0,
        staying(staying(pending, Rule::Handle(id)), Rule::Handle(id)) == staying(
            pending,
            Rule::Handle(id),
        ),
{
    let rule = Rule::Handle(id);
    let kept = staying(pending, rule);
    lemma_parts_bounded(pending, rule, u64::MAX as int + 1);
    if is_pending(kept, id) {
        let i = choose|i: int| 0 <= i < kept.len() && (#[trigger] kept[i]).id == id;
        assert(!selected(kept[i], rule));
    }
    lemma_nothing_selected(kept, rule);
}

/// Where the rule concerns no entry, nothing leaves and everything stays.
pub proof fn lemma_nothing_selected(pending: Seq<PendingView>, rule: Rule)
    requires
        forall|i: int| 0 <= i < pending.len() ==> !selected(#[trigger] pending[i], rule),
    ensures
        leaving(pending, rule).len() == 0,
        staying(pending, rule) == pending,
    decreases pending.len(),
{
    if pending.len() > 0 {
        let front = pending.drop_last();
        assert forall|i: int| 0 <= i < front.len() implies !selected(#[trigger] front[i], rule) by {
            assert(front[i] == pending[i]);
        }
        lemma_nothing_selected(front, rule);
        assert(!selected(pending[pending.len() - 1], rule));
        assert(front.push(pending.last()) =~= pending);
    } else {
        assert(staying(pending, rule) =~= pending);
    }
}

/// A handle that is no longer pending is never pending again: not after a
/// new exchange begins, and not after any entries leave.
pub proof fn lemma_handle_never_returns(table: TableView, id: u64, added: PendingView, rule: Rule)
    requires
        table_wf(table),
        id < table.next_id,
        !is_pending(table.pending, id),
        added.id == table.next_id,
    ensures
        !is_pending(table.pending.push(added), id),
        !is_pending(staying(table.pending, rule), id),
{
    let longer = table.pending.push(added);
    if is_pending(longer, id) {
        let i = choose|i: int| 0 <= i < longer.len() && (#[trigger] longer[i]).id == id;
        if i < table.pending.len() {
            assert(table.pending[i] == longer[i]);
        }
    }
    lemma_staying_is_part(table.pending, rule, id);
}

/// An entry that stays was there before.
pub proof fn lemma_staying_is_part(pending: Seq<PendingView>, rule: Rule, id: u64)
    ensures
        is_pending(staying(pending, rule), id) ==> is_pending(pending, id),
        is_pending(leaving(pending, rule), id) ==> is_pending(pending, id),
    decreases pending.len(),
{
    if pending.len() > 0 {
        let front = pending.drop_last();
        lemma_staying_is_part(front, rule, id);
        let last = pending[pending.len() - 1];
        if is_pending(front, id) {
            let i = choose|i: int| 0 <= i < front.len() && (#[trigger] front[i]).id == id;
            assert(pending[i] == front[i]);
        }
        let kept = staying(pending, rule);
        if is_pending(kept, id) {
            let i = choose|i: int| 0 <= i < kept.len() && (#[trigger] kept[i]).id == id;
            if !selected(last, rule) && i == kept.len() - 1 {
                assert(last.id == id);
            } else {
                assert(staying(front, rule)[i] == kept[i]);
            }
        }
        let gone = leaving(pending, rule);
        if is_pending(gone, id) {
            let i = choose|i: int| 0 <= i < gone.len() && (#[trigger] gone[i]).id == id;
            if selected(last, rule) && i == gone.len() - 1 {
                assert(last.id == id);
            } else {
                assert(leaving(front, rule)[i] == gone[i]);
            }
        }
    }
}

/// No handle both leaves and stays.
pub proof fn lemma_leaves_or_stays(table: TableView, rule: Rule, id: u64)
    requires
        table_wf(table),
    ensures
        !(is_pending(leaving(table.pending, rule), id) && is_pending(
            staying(table.pending, rule),
            id,
        )),
    decreases table.pending.len(),
{
    let pending = table.pending;
    if pending.len() > 0 {
        let front = pending.drop_last();
        let last = pending[pending.len() - 1];
        let shorter = TableView { pending: front, next_id: table.next_id };
        assert forall|i: int| 0 <= i < front.len() implies (#[trigger] front[i]).id
            < table.next_id && front[i].id < last.id by {
            assert(front[i] == pending[i]);
        }
        assert forall|i: int, j: int| 0 <= i < j < front.len() implies (#[trigger] front[i]).id < (
        #[trigger] front[j]).id by {
            assert(front[i] == pending[i]);
            assert(front[j] == pending[j]);
        }
        lemma_leaves_or_stays(shorter, rule, id);
        lemma_staying_is_part(front, rule, id);
        let gone = leaving(pending, rule);
        let kept = staying(pending, rule);
        if is_pending(gone, id) && is_pending(kept, id) {
            let a = choose|a: int| 0 <= a < gone.len() && (#[trigger] gone[a]).id == id;
            let b = choose|b: int| 0 <= b < kept.len() && (#[trigger] kept[b]).id == id;
            if selected(last, rule) {
                assert(is_pending(front, id));
                let k = choose|k: int| 0 <= k < front.len() && (#[trigger] front[k]).id == id;
                if a < gone.len() - 1 {
                    assert(leaving(front, rule)[a] == gone[a]);
                    assert(is_pending(leaving(front, rule), id));
                }
            } else {
                assert(is_pending(front, id));
                let k = choose|k: int| 0 <= k < front.len() && (#[trigger] front[k]).id == id;
                if b < kept.len() - 1 {
                    assert(staying(front, rule)[b] == kept[b]);
                    assert(is_pending(staying(front, rule), id));
                }
            }
        }
    }
}

/// The response channels of the requests that the node has accepted, with
/// the counts of those answered and of those abandoned unanswered.
#[derive(Debug)]
pub struct ResponseChannels {
    open: PendingRequests,
    answered: u64,
    abandoned: u64,
}

/// The response channels as a mathematical value.
pub struct ChannelsView {
    pub table: TableView,
    pub answered: u64,
    pub abandoned: u64,
}

impl View for ResponseChannels {
    type V = ChannelsView;

    closed spec fn view(&self) -> ChannelsView {
        ChannelsView { table: self.open@, answered: self.answered, abandoned: self.abandoned }
    }
}

/// A count raised by `by`, held at the largest number it can take.
pub open spec fn raised(count: u64, by: nat) -> u64 {
    if count + by > u64::MAX {
        u64::MAX
    } else {
        (count + by) as u64
    }
}

/// What `send_response` does to the channels, and whether the response is
/// taken: it is taken where the channel is open, and the channel is closed
/// by it; otherwise nothing changes.
pub open spec fn send_response_spec(channels: ChannelsView, channel: u64) -> (ChannelsView, bool) {
    if is_pending(channels.table.pending, channel) {
        (
            ChannelsView {
                table: TableView {
                    pending: staying(channels.table.pending, Rule::Handle(channel)),
                    next_id: channels.table.next_id,
                },
                answered: raised(channels.answered, 1),
                abandoned: channels.abandoned,
            },
            true,
        )
    } else {
        (channels, false)
    }
}

/// What accepting a request does to the channels, and the channel that it
/// opens: the next handle, while there is one. Once every handle has been
/// used the request is counted as abandoned.
pub open spec fn accept_spec(channels: ChannelsView, peer: Seq<char>, prompt: Seq<char>) -> (
    ChannelsView,
    Option<u64>,
) {
    if channels.table.next_id < u64::MAX {
        let id = channels.table.next_id;
        (
            ChannelsView {
                table: TableView {
                    pending: channels.table.pending.push(
                        PendingView { id, peer, prompt, deadline: None },
                    ),
                    next_id: (id + 1) as u64,
                },
                answered: channels.answered,
                abandoned: channels.abandoned,
            },
            Some(id),
        )
    } else {
        (
            ChannelsView {
                table: channels.table,
                answered: channels.answered,
                abandoned: raised(channels.abandoned, 1),
            },
            None,
        )
    }
}

/// What abandoning does to the channels: the entries that the rule concerns
/// leave unanswered, and are counted.
pub open spec fn abandon_spec(channels: ChannelsView, rule: Rule) -> ChannelsView {
    ChannelsView {
        table: TableView {
            pending: staying(channels.table.pending, rule),
            next_id: channels.table.next_id,
        },
        answered: channels.answered,
        abandoned: raised(channels.abandoned, leaving(channels.table.pending, rule).len()),
    }
}

/// Every request that was accepted is answered, abandoned or still open:
/// none is lost. (Stated while handles last; after that, each further
/// request is counted as abandoned at once.)
pub open spec fn accounted(channels: ChannelsView) -> bool {
    channels.table.next_id < u64::MAX ==> channels.answered + channels.abandoned
        + channels.table.pending.len() == channels.table.next_id
}

/// The invariant of the channels.
pub open spec fn channels_wf(channels: ChannelsView) -> bool {
    &&& table_wf(channels.table)
    &&& accounted(channels)
}

/// Every entry either leaves or stays.
pub proof fn lemma_parts_add_up(pending: Seq<PendingView>, rule: Rule)
    ensures
        leaving(pending, rule).len() + staying(pending, rule).len() == pending.len(),
    decreases pending.len(),
{
    if pending.len() > 0 {
        lemma_parts_add_up(pending.drop_last(), rule);
    }
}

/// Accepting, answering and abandoning keep the channels in order, and
/// keep every accepted request accounted for.
pub proof fn lemma_channels_stay_wf(
    channels: ChannelsView,
    peer: Seq<char>,
    prompt: Seq<char>,
    channel: u64,
    rule: Rule,
)
    requires
        channels_wf(channels),
    ensures
        channels_wf(accept_spec(channels, peer, prompt).0),
        channels_wf(send_response_spec(channels, channel).0),
        channels_wf(abandon_spec(channels, rule)),
{
    let pending = channels.table.pending;
    lemma_staying_wf(channels.table, Rule::Handle(channel));
    lemma_staying_wf(channels.table, rule);
    lemma_parts_add_up(pending, Rule::Handle(channel));
    lemma_parts_add_up(pending, rule);
    lemma_one_entry_per_handle(channels.table, channel);
    if channels.table.next_id < u64::MAX {
        let id = channels.table.next_id;
        let longer = pending.push(PendingView { id, peer, prompt, deadline: None });
        assert forall|i: int, j: int| 0 <= i < j < longer.len() implies (#[trigger] longer[i]).id
            < (#[trigger] longer[j]).id by {
            if j < pending.len() {
                assert(longer[i] == pending[i] && longer[j] == pending[j]);
            } else {
                assert(longer[i] == pending[i]);
            }
        }
        assert forall|i: int| 0 <= i < longer.len() implies (#[trigger] longer[i]).id < id + 1 by {
            if i < pending.len() {
                assert(longer[i] == pending[i]);
            }
        }
    }
}

/// Of two responses sent on one channel, the second is refused and changes
/// nothing; the first is taken exactly where the channel was open.
pub proof fn lemma_one_response_per_channel(channels: ChannelsView, channel: u64)
    ensures
        send_response_spec(channels, channel).1 == is_pending(channels.table.pending, channel),
        !send_response_spec(send_response_spec(channels, channel).0, channel).1,
        send_response_spec(send_response_spec(channels, channel).0, channel).0
            == send_response_spec(channels, channel).0,
{
    lemma_resolved_is_gone(channels.table.pending, channel);
}

impl ResponseChannels {
    /// The invariant of the channels.
    pub open spec fn wf(&self) -> bool {
        channels_wf(self@)
    }

    /// No channel yet.
    pub fn new() -> (channels: ResponseChannels)
        ensures
            channels.wf(),
            channels@.table.pending.len() == 0,
            channels@.table.next_id == 0,
            channels@.answered == 0,
            channels@.abandoned == 0,
    {
        ResponseChannels { open: PendingRequests::new(), answered: 0, abandoned: 0 }
    }

    /// Whether the channel is open.
    pub fn is_open(&self, channel: u64) -> (open: bool)
        ensures
            open == is_pending(self@.table.pending, channel),
    {
        self.open.is_pending(channel)
    }

    /// How many requests were answered.
    pub fn answered(&self) -> (count: u64)
        ensures
            count == self@.answered,
    {
        self.answered
    }

    /// How many requests were abandoned unanswered.
    pub fn abandoned(&self) -> (count: u64)
        ensures
            count == self@.abandoned,
    {
        self.abandoned
    }

    /// Accepts a request from `peer` and opens the channel for its one
    /// response. Once every handle has been used no channel is opened, and
    /// the request is counted as abandoned.
    pub fn accept_request(&mut self, peer: PeerIdentifier, request: PromptRequest) -> (channel:
        Option<u64>)
        requires
            old(self).wf(),
        ensures
            final(self).wf(),
            final(self)@ == accept_spec(old(self)@, peer@, request@).0,
            channel == accept_spec(old(self)@, peer@, request@).1,
    {
        proof {
            lemma_channels_stay_wf(self@, peer@, request@, 0, Rule::Handle(0));
        }
        let channel = self.open.send_request(peer, request, None);
        if channel.is_none() {
            self.abandoned = raise(self.abandoned, 1);
        }
        channel
    }

    /// Sends the response on the channel. The first response on an open
    /// channel is taken and closes it; on any other channel the call is
    /// refused and changes nothing.
    pub fn send_response(&mut self, channel: u64, response: PromptResponse) -> (sent: Result<
        Resolution,
        ChannelError,
    >)
        requires
            old(self).wf(),
        ensures
            final(self).wf(),
            final(self)@ == send_response_spec(old(self)@, channel).0,
            sent is Ok <==> send_response_spec(old(self)@, channel).1,
            sent matches Ok(r) ==> {
                &&& r.id == channel
                &&& leaving(old(self)@.table.pending, Rule::Handle(channel)).len() == 1
                &&& r.peer@ == leaving(old(self)@.table.pending, Rule::Handle(channel))[0].peer
                &&& response_view(r.outcome) == Ok::<Seq<char>, RequestError>(response@)
            },
            sent matches Err(e) ==> e == ChannelError::NotOpen,
            !is_pending(final(self)@.table.pending, channel),
    {
        proof {
            lemma_one_entry_per_handle(self@.table, channel);
            lemma_channels_stay_wf(self@, Seq::empty(), Seq::empty(), channel, Rule::Handle(channel));
            if !is_pending(self@.table.pending, channel) {
                lemma_none_leaves(self@.table.pending, channel);
            }
        }
        match self.open.resolve(channel, Ok(response)) {
            Some(end) => {
                if self.answered < u64::MAX {
                    self.answered = self.answered + 1;
                }
                Ok(end)
            },
            None => Err(ChannelError::NotOpen),
        }
    }

    /// Gives up the channels of `peer`, whose connection has closed before
    /// they were answered. Each is counted as abandoned.
    pub fn connection_closed(&mut self, peer: &PeerIdentifier) -> (count: usize)
        requires
            old(self).wf(),
        ensures
            final(self).wf(),
            final(self)@ == abandon_spec(old(self)@, Rule::Peer(peer@)),
            count == leaving(old(self)@.table.pending, Rule::Peer(peer@)).len(),
    {
        proof {
            lemma_channels_stay_wf(self@, Seq::empty(), Seq::empty(), 0, Rule::Peer(peer@));
        }
        let ends = self.open.connection_closed(peer);
        let count = ends.len();
        proof {
            assert(resolution_views(ends@).len() == ends@.len());
        }
        self.abandoned = raise(self.abandoned, count);
        count
    }

    /// Gives up one channel whose stream was abandoned before it was
    /// answered. It is counted; a channel that is not open is not.
    pub fn abandon(&mut self, channel: u64) -> (was_open: bool)
        requires
            old(self).wf(),
        ensures
            final(self).wf(),
            final(self)@ == abandon_spec(old(self)@, Rule::Handle(channel)),
            was_open == is_pending(old(self)@.table.pending, channel),
    {
        proof {
            lemma_one_entry_per_handle(self@.table, channel);
            lemma_channels_stay_wf(self@, Seq::empty(), Seq::empty(), channel, Rule::Handle(channel));
        }
        match self.open.resolve(channel, Err(RequestError::StreamFailed)) {
            Some(_) => {
                self.abandoned = raise(self.abandoned, 1);
                true
            },
            None => false,
        }
    }
}

/// A count raised by `by`, held at the largest number it can take.
fn raise(count: u64, by: usize) -> (sum: u64)
    ensures
        sum == raised(count, by as nat),
{
    if by as u64 > u64::MAX - count {
        u64::MAX
    } else {
        count + by as u64
    }
}

/// Where no entry has the handle, nothing stays behind changed.
pub proof fn lemma_none_leaves(pending: Seq<PendingView>, id: u64)
    requires
        !is_pending(pending, id),
    ensures
        staying(pending, Rule::Handle(id)) == pending,
        leaving(pending, Rule::Handle(id)).len() == 0,
{
    assert forall|i: int| 0 <= i < pending.len() implies !selected(
        #[trigger] pending[i],
        Rule::Handle(id),
    ) by {}
    lemma_nothing_selected(pending, Rule::Handle(id));
}

} // verus!
