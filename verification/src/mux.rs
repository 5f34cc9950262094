//! Connections and the streams they carry.
//!
//! A connection is one authenticated channel to one remote peer. It carries
//! any number of streams, each tagged with the protocol it serves. A stream
//! is closed on its own; closing the connection cancels every stream on it.

use vstd::prelude::*;
use vstd::string::StringExecFns;

use crate::error::HandshakeError;
use crate::error::MuxError;
use crate::identity::conclude_handshake;
use crate::identity::handshake_outcome;
use crate::identity::option_view;
use crate::identity::HandshakeReport;
use crate::identity::PeerIdentifier;

verus! {

/// One stream of a connection.
#[derive(Debug, PartialEq, Eq)]
pub struct Stream {
    /// The number of the stream on its connection.
    pub id: u64,
    /// The protocol that the stream carries.
    pub protocol: String,
    /// Whether the remote side opened it.
    pub inbound: bool,
}

/// A stream as a mathematical value.
pub struct StreamView {
    pub id: u64,
    pub protocol: Seq<char>,
    pub inbound: bool,
}

impl View for Stream {
    type V = StreamView;

    open spec fn view(&self) -> StreamView {
        StreamView { id: self.id, protocol: self.protocol@, inbound: self.inbound }
    }
}

/// The views of a sequence of streams.
pub open spec fn stream_views(streams: Seq<Stream>) -> Seq<StreamView> {
    streams.map_values(|s: Stream| s@)
}

/// A connection as a mathematical value.
pub struct ConnectionView {
    pub remote: Seq<char>,
    pub open: bool,
    pub streams: Seq<StreamView>,
    pub next_stream: u64,
}

/// The invariant of a connection: stream numbers grow along the streams and
/// lie below the next number, so none occurs twice; a closed connection has
/// no stream.
pub open spec fn connection_wf(c: ConnectionView) -> bool {
    &&& forall|i: int| 0 <= i < c.streams.len() ==> (#[trigger] c.streams[i]).id < c.next_stream
    &&& forall|i: int, j: int|
        0 <= i < j < c.streams.len() ==> (#[trigger] c.streams[i]).id < (#[trigger] c.streams[j]).id
    &&& !c.open ==> c.streams.len() == 0
}

/// Whether the connection has a stream with this number.
pub open spec fn has_stream(c: ConnectionView, id: u64) -> bool {
    exists|i: int| 0 <= i < c.streams.len() && (#[trigger] c.streams[i]).id == id
}

/// What opening a stream does: on an open connection with a number to
/// spare, the stream is added and gets the next number. Otherwise the
/// connection is, or from now on counts as, closed.
pub open spec fn add_stream_spec(c: ConnectionView, protocol: Seq<char>, inbound: bool) -> (
    ConnectionView,
    Result<u64, MuxError>,
) {
    if c.open && c.next_stream < u64::MAX {
        (
            ConnectionView {
                streams: c.streams.push(StreamView { id: c.next_stream, protocol, inbound }),
                next_stream: (c.next_stream + 1) as u64,
                ..c
            },
            Ok(c.next_stream),
        )
    } else {
        (
            ConnectionView { open: false, streams: Seq::<StreamView>::empty(), ..c },
            Err(MuxError::ConnectionClosed),
        )
    }
}

/// One authenticated channel to one remote peer.
#[derive(Debug)]
pub struct Connection {
    remote: PeerIdentifier,
    open: bool,
    streams: Vec<Stream>,
    next_stream: u64,
}

impl View for Connection {
    type V = ConnectionView;

    closed spec fn view(&self) -> ConnectionView {
        ConnectionView {
            remote: self.remote@,
            open: self.open,
            streams: stream_views(self.streams@),
            next_stream: self.next_stream,
        }
    }
}

impl Connection {
    /// The invariant of the connection.
    pub open spec fn wf(&self) -> bool {
        connection_wf(self@)
    }

    /// The connection that a handshake leaves behind: there is one exactly
    /// where the handshake completed with the expected remote.
    pub fn establish(report: HandshakeReport, expected: Option<&PeerIdentifier>) -> (made: Result<
        Connection,
        HandshakeError,
    >)
        ensures
            match made {
                Ok(connection) => {
                    &&& handshake_outcome(report, option_view(expected)) == Ok::<
                        Seq<char>,
                        HandshakeError,
                    >(connection@.remote)
                    &&& connection.wf()
                    &&& connection@.open
                    &&& connection@.streams.len() == 0
                    &&& connection@.next_stream == 0
                },
                Err(e) => handshake_outcome(report, option_view(expected)) == Err::<
                    Seq<char>,
                    HandshakeError,
                >(e),
            },
    {
        match conclude_handshake(report, expected) {
            Ok(remote) => Ok(
                Connection { remote, open: true, streams: Vec::new(), next_stream: 0 },
            ),
            Err(e) => Err(e),
        }
    }

    /// The peer at the other end.
    pub fn remote(&self) -> (remote: &PeerIdentifier)
        ensures
            remote@ == self@.remote,
    {
        &self.remote
    }

    /// Whether the connection is open.
    pub fn is_open(&self) -> (open: bool)
        ensures
            open == self@.open,
    {
        self.open
    }

    /// The number of open streams.
    pub fn stream_count(&self) -> (count: usize)
        ensures
            count == self@.streams.len(),
    {
        self.streams.len()
    }

    fn add_stream(&mut self, protocol: &str, inbound: bool) -> (added: Result<u64, MuxError>)
        requires
            old(self).wf(),
        ensures
            final(self).wf(),
            final(self)@ == add_stream_spec(old(self)@, protocol@, inbound).0,
            added == add_stream_spec(old(self)@, protocol@, inbound).1,
    {
        if self.open && self.next_stream < u64::MAX {
            let id = self.next_stream;
            let ghost before = self@.streams;
            let stream = Stream { id, protocol: String::from_str(protocol), inbound };
            let ghost added = stream@;
            self.streams.push(stream);
            self.next_stream = id + 1;
            proof {
                assert(self@.streams =~= before.push(added));
            }
            Ok(id)
        } else {
            self.open = false;
            self.streams = Vec::new();
            proof {
                assert(self@.streams =~= Seq::<StreamView>::empty());
            }
            Err(MuxError::ConnectionClosed)
        }
    }

    /// Opens a stream for `protocol_id`. On a connection that has
    /// terminated there is none to open.
    pub fn open_stream(&mut self, protocol_id: &str) -> (opened: Result<u64, MuxError>)
        requires
            old(self).wf(),
        ensures
            final(self).wf(),
            final(self)@ == add_stream_spec(old(self)@, protocol_id@, false).0,
            opened == add_stream_spec(old(self)@, protocol_id@, false).1,
    {
        self.add_stream(protocol_id, false)
    }

    /// Takes a stream that the remote side opened for `protocol_id`.
    pub fn accept_stream(&mut self, protocol_id: &str) -> (accepted: Result<u64, MuxError>)
        requires
            old(self).wf(),
        ensures
            final(self).wf(),
            final(self)@ == add_stream_spec(old(self)@, protocol_id@, true).0,
            accepted == add_stream_spec(old(self)@, protocol_id@, true).1,
    {
        self.add_stream(protocol_id, true)
    }

    /// Closes the stream with this number, if there is one. The connection
    /// and its other streams stay as they are.
    pub fn close_stream(&mut self, id: u64) -> (closed: bool)
        requires
            old(self).wf(),
        ensures
            final(self).wf(),
            closed == has_stream(old(self)@, id),
            !has_stream(final(self)@, id),
            final(self)@.remote == old(self)@.remote,
            final(self)@.open == old(self)@.open,
            final(self)@.next_stream == old(self)@.next_stream,
            closed ==> exists|i: int|
                0 <= i < old(self)@.streams.len() && (#[trigger] old(self)@.streams[i]).id == id
                    && final(self)@.streams == old(self)@.streams.remove(i),
            !closed ==> final(self)@.streams == old(self)@.streams,
    {
        let ghost before = self@.streams;
        let mut i: usize = 0;
        while i < self.streams.len()
            invariant
                i <= self.streams.len(),
                self@ == old(self)@,
                connection_wf(self@),
                before == self@.streams,
                forall|j: int| 0 <= j < i ==> (#[trigger] before[j]).id != id,
            decreases self.streams.len() - i,
        {
            proof {
                assert(before[i as int] == self.streams@[i as int]@);
            }
            if self.streams[i].id == id {
                self.streams.remove(i);
                proof {
                    let after = self@.streams;
                    assert(after =~= before.remove(i as int));
                    assert forall|j: int| 0 <= j < after.len() implies (#[trigger] after[j]).id
                        != id by {
                        if j < i {
                            assert(after[j] == before[j]);
                        } else {
                            assert(after[j] == before[j + 1]);
                            assert(before[i as int].id < before[j + 1].id);
                        }
                    }
                    assert forall|a: int, b: int| 0 <= a < b < after.len() implies (
                    #[trigger] after[a]).id < (#[trigger] after[b]).id by {
                        let x = if a < i { a } else { a + 1 };
                        let y = if b < i { b } else { b + 1 };
                        assert(after[a] == before[x]);
                        assert(after[b] == before[y]);
                        assert(before[x].id < before[y].id);
                    }
                    assert forall|a: int| 0 <= a < after.len() implies (#[trigger] after[a]).id
                        < self@.next_stream by {
                        let x = if a < i { a } else { a + 1 };
                        assert(after[a] == before[x]);
                    }
                }
                return true;
            }
            i += 1;
        }
        false
    }

    /// Closes the connection. Every stream on it is cancelled and handed
    /// back; from now on no stream can be opened.
    pub fn close(&mut self) -> (cancelled: Vec<Stream>)
        requires
            old(self).wf(),
        ensures
            final(self).wf(),
            stream_views(cancelled@) == old(self)@.streams,
            final(self)@ == (ConnectionView {
                open: false,
                streams: Seq::<StreamView>::empty(),
                ..old(self)@
            }),
    {
        let mut cancelled: Vec<Stream> = Vec::new();
        core::mem::swap(&mut self.streams, &mut cancelled);
        self.open = false;
        proof {
            assert(self@.streams =~= Seq::<StreamView>::empty());
        }
        cancelled
    }
}

/// On a connection that has terminated no stream is opened, whatever the
/// protocol; on an open one with a number to spare, one always is.
pub proof fn lemma_streams_need_a_connection(c: ConnectionView, protocol: Seq<char>, inbound: bool)
    ensures
        !c.open ==> add_stream_spec(c, protocol, inbound).1 == Err::<u64, MuxError>(
            MuxError::ConnectionClosed,
        ),
        c.open && c.next_stream < u64::MAX ==> add_stream_spec(c, protocol, inbound).1 is Ok
            && add_stream_spec(c, protocol, inbound).0.open,
{
}

} // verus!
