//! Peer identifiers and the identity check that closes a handshake.

use vstd::prelude::*;
use vstd::string::StringExecFns;

use crate::error::HandshakeError;
use crate::text::contains_char;

verus! {

/// The canonical text of the peer identifier that `text` denotes, if it
/// denotes one.
pub uninterp spec fn canonical_peer_text(text: Seq<char>) -> Option<Seq<char>>;

/// Whether `text` is the text of a peer identifier in its canonical spelling,
/// the only spelling under which this crate holds one.
pub open spec fn is_peer_text(text: Seq<char>) -> bool {
    &&& canonical_peer_text(text) == Some(text)
    &&& !text.contains('/')
}

/// Parses `text` with `libp2p::PeerId::from_str` and, where that succeeds,
/// renders the identifier again with `PeerId::to_base58`.
///
/// Trusted: the result is a function of the text alone. Nothing is claimed
/// about which texts are accepted.
#[verifier::external_body]
fn canonical_text(text: &str) -> (canonical: Option<String>)
    ensures
        canonical is Some <==> canonical_peer_text(text@) is Some,
        canonical matches Some(c) ==> canonical_peer_text(text@) == Some(c@),
{
    text.parse::<libp2p::PeerId>().ok().map(|peer| peer.to_base58())
}

/// The identifier of a peer, derived from its public key. Two peers are the
/// same exactly when their identifiers are equal.
#[derive(Debug, PartialEq, Eq)]
pub struct PeerIdentifier {
    text: String,
}

impl View for PeerIdentifier {
    type V = Seq<char>;

    closed spec fn view(&self) -> Seq<char> {
        self.text@
    }
}

impl PeerIdentifier {
    /// Every identifier is held in its canonical spelling.
    #[verifier::type_invariant]
    closed spec fn canonical(self) -> bool {
        is_peer_text(self.text@)
    }

    /// Reads a peer identifier from its text. Only the canonical spelling is
    /// taken, so that equal peers have equal text.
    pub fn parse(text: &str) -> (parsed: Option<PeerIdentifier>)
        ensures
            parsed is Some <==> is_peer_text(text@),
            parsed matches Some(peer) ==> peer@ == text@,
    {
        if contains_char(text, '/') {
            return None;
        }
        match canonical_text(text) {
            Some(canonical) => {
                let given = String::from_str(text);
                if canonical == given {
                    Some(PeerIdentifier { text: given })
                } else {
                    None
                }
            },
            None => None,
        }
    }

    /// The identifier's text.
    pub fn as_text(&self) -> (text: &str)
        ensures
            text@ == self@,
            is_peer_text(text@),
    {
        proof {
            use_type_invariant(self);
        }
        self.text.as_str()
    }

    /// Whether both identifiers name the same peer.
    pub fn equals(&self, other: &PeerIdentifier) -> (same: bool)
        ensures
            same == (self@ == other@),
    {
        self.text == other.text
    }

    /// A second handle on the same identifier.
    pub fn duplicate(&self) -> (copy: PeerIdentifier)
        ensures
            copy@ == self@,
    {
        proof {
            use_type_invariant(self);
        }
        PeerIdentifier { text: self.text.clone() }
    }
}

impl Clone for PeerIdentifier {
    fn clone(&self) -> (copy: PeerIdentifier)
        ensures
            copy@ == self@,
    {
        self.duplicate()
    }
}

/// The text of the peer identifier that belongs to a private key in its
/// encoded form: the identifier of the key's public half. An encoding that
/// holds no key has none.
pub uninterp spec fn key_peer_text(key: Seq<u8>) -> Option<Seq<char>>;

/// The identifier that a private key gives a node: the one that belongs to
/// the key, where this crate can hold it.
pub open spec fn identifier_of_key(key: Seq<u8>) -> Option<Seq<char>> {
    match key_peer_text(key) {
        Some(text) => if is_peer_text(text) {
            Some(text)
        } else {
            None
        },
        None => None,
    }
}

/// Draws a new key pair with `libp2p::identity::Keypair::generate_ed25519`
/// and encodes it with `Keypair::to_protobuf_encoding`.
///
/// Trusted: nothing is claimed of the key, which is drawn at random.
#[verifier::external_body]
fn fresh_key() -> (key: Option<Vec<u8>>) {
    libp2p::identity::Keypair::generate_ed25519().to_protobuf_encoding().ok()
}

/// Decodes `key` with `libp2p::identity::Keypair::from_protobuf_encoding`,
/// derives the peer identifier of its public half with `Keypair::public`
/// and `PublicKey::to_peer_id`, and writes it with `PeerId::to_base58`.
///
/// Trusted: the result is a function of the encoded key alone. Nothing is
/// claimed about which encodings hold a key.
#[verifier::external_body]
fn peer_text_of(key: &[u8]) -> (text: Option<String>)
    ensures
        text is Some <==> key_peer_text(key@) is Some,
        text matches Some(t) ==> key_peer_text(key@) == Some(t@),
{
    let pair = libp2p::identity::Keypair::from_protobuf_encoding(key).ok();
    pair.map(|pair| pair.public().to_peer_id().to_base58())
}

/// The private key of a node, in its encoded form. It is generated once, at
/// the start of the node, and never changes.
pub struct PrivateKey {
    encoded: Vec<u8>,
}

impl View for PrivateKey {
    type V = Seq<u8>;

    closed spec fn view(&self) -> Seq<u8> {
        self.encoded@
    }
}

impl PrivateKey {
    /// The key that `encoded` holds.
    pub fn from_bytes(encoded: Vec<u8>) -> (key: PrivateKey)
        ensures
            key@ == encoded@,
    {
        PrivateKey { encoded }
    }

    /// The key in its encoded form.
    pub fn as_bytes(&self) -> (encoded: &[u8])
        ensures
            encoded@ == self@,
    {
        self.encoded.as_slice()
    }

    /// The peer identifier that belongs to the key.
    pub fn peer_identifier(&self) -> (peer: Option<PeerIdentifier>)
        ensures
            peer is Some <==> identifier_of_key(self@) is Some,
            peer matches Some(p) ==> identifier_of_key(self@) == Some(p@),
    {
        match peer_text_of(self.encoded.as_slice()) {
            Some(text) => PeerIdentifier::parse(text.as_str()),
            None => None,
        }
    }
}

/// The identity that a private key makes: the key together with the peer
/// identifier that belongs to it. There is one exactly where the key has
/// such an identifier.
pub fn identity_from(key: PrivateKey) -> (identity: Option<(PrivateKey, PeerIdentifier)>)
    ensures
        identity is Some <==> identifier_of_key(key@) is Some,
        identity matches Some(pair) ==> pair.0@ == key@ && identifier_of_key(key@) == Some(
            pair.1@,
        ),
{
    match key.peer_identifier() {
        Some(peer) => Some((key, peer)),
        None => None,
    }
}

/// Generates the identity of a node: a new private key, and the peer
/// identifier that belongs to it. Which key is drawn is left to chance;
/// whichever it is, the identifier is the one of that key.
pub fn generate_identity() -> (identity: Option<(PrivateKey, PeerIdentifier)>)
    ensures
        identity matches Some(pair) ==> identifier_of_key(pair.0@) == Some(pair.1@),
{
    match fresh_key() {
        Some(encoded) => identity_from(PrivateKey::from_bytes(encoded)),
        None => None,
    }
}

/// What the transport observed while it ran the authenticated key exchange
/// on a raw connection.
#[derive(Debug, PartialEq, Eq)]
pub enum HandshakeReport {
    /// The exchange completed and the remote proved this identifier.
    Completed(PeerIdentifier),
    /// The peer did not answer within the bounded interval.
    TimedOut,
    /// The peer violated the protocol, or a byte failed authentication.
    Violated,
}

/// The outcome that `conclude_handshake` owes for a report and an expected
/// remote.
pub open spec fn handshake_outcome(
    report: HandshakeReport,
    expected: Option<Seq<char>>,
) -> Result<Seq<char>, HandshakeError> {
    match report {
        HandshakeReport::TimedOut => Err(HandshakeError::Timeout),
        HandshakeReport::Violated => Err(HandshakeError::Malformed),
        HandshakeReport::Completed(remote) => match expected {
            Some(wanted) => if wanted == remote@ {
                Ok(remote@)
            } else {
                Err(HandshakeError::Mismatch)
            },
            None => Ok(remote@),
        },
    }
}

/// Decides whether a connection comes into being. A completed exchange
/// yields the verified remote identifier, unless the dialed address named
/// another one.
pub fn conclude_handshake(report: HandshakeReport, expected: Option<&PeerIdentifier>) -> (outcome:
    Result<PeerIdentifier, HandshakeError>)
    ensures
        outcome is Ok <==> handshake_outcome(report, option_view(expected)) is Ok,
        outcome matches Ok(remote) ==> handshake_outcome(report, option_view(expected)) == Ok::<
            Seq<char>,
            HandshakeError,
        >(remote@),
        outcome matches Err(e) ==> handshake_outcome(report, option_view(expected)) == Err::<
            Seq<char>,
            HandshakeError,
        >(e),
{
    match report {
        HandshakeReport::TimedOut => Err(HandshakeError::Timeout),
        HandshakeReport::Violated => Err(HandshakeError::Malformed),
        HandshakeReport::Completed(remote) => match expected {
            Some(wanted) => {
                if wanted.equals(&remote) {
                    Ok(remote)
                } else {
                    Err(HandshakeError::Mismatch)
                }
            },
            None => Ok(remote),
        },
    }
}

/// There is a connection only after a completed exchange, its remote is the
/// identifier that the exchange proved, and where the dialed address named
/// an identifier, it is that one. Both sides of one exchange that each
/// proved the other's identifier therefore agree on who is who.
pub proof fn lemma_connection_needs_proof(report: HandshakeReport, expected: Option<Seq<char>>)
    ensures
        handshake_outcome(report, expected) matches Ok(remote) ==> {
            &&& report matches HandshakeReport::Completed(proved) && proved@ == remote
            &&& expected matches Some(wanted) ==> wanted == remote
        },
        report is TimedOut ==> handshake_outcome(report, expected) == Err::<
            Seq<char>,
            HandshakeError,
        >(HandshakeError::Timeout),
        report is Violated ==> handshake_outcome(report, expected) == Err::<
            Seq<char>,
            HandshakeError,
        >(HandshakeError::Malformed),
        (report matches HandshakeReport::Completed(proved) && expected matches Some(wanted)
            && wanted != proved@) ==> handshake_outcome(report, expected) == Err::<
            Seq<char>,
            HandshakeError,
        >(HandshakeError::Mismatch),
{
}

/// The text of an optional identifier.
pub open spec fn option_view(peer: Option<&PeerIdentifier>) -> Option<Seq<char>> {
    match peer {
        Some(p) => Some(p@),
        None => None,
    }
}

} // verus!
