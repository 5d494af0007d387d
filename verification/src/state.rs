//! The per-connection protocol state machine: phase transitions, the
//! encryption and compression negotiation during login, keep-alive
//! deadlines, and terminal, idempotent closure.

use vstd::prelude::*;

use crate::schema::ProtocolState;
use crate::WireError;

verus! {

/// What a handshake asks for next.
#[derive(Clone, Copy, PartialEq, Eq, Structural, Debug)]
pub enum HandshakeIntent {
    Status,
    Login,
}

/// One connection as the runtime sees it: its phase, the negotiated
/// cipher and compression contexts, the keep-alive challenge in flight,
/// and the bytes queued for its single writer.
#[derive(Debug)]
pub struct Connection {
    pub conn_id: u32,
    pub state: ProtocolState,
    /// The shared secret once encryption is negotiated; from then on every
    /// frame in both directions runs through the cipher derived from it.
    pub encryption_secret: Option<Vec<u8>>,
    /// The compression threshold once negotiated; payloads at or above it
    /// are sent compressed, smaller ones pass through marked uncompressed.
    pub compression_threshold: Option<u32>,
    /// The verify token sent with the encryption request, awaiting echo.
    pub pending_verify_token: Option<Vec<u8>>,
    /// The keep-alive challenge awaiting an answer, and its deadline tick.
    pub keep_alive_pending: Option<u64>,
    pub keep_alive_deadline: u64,
    /// Bytes queued for this connection's exclusive writer.
    pub outbound: Vec<u8>,
}

impl Connection {
    /// A fresh connection starts in `Handshake` with nothing negotiated.
    pub fn accept(conn_id: u32) -> (r: Self)
        ensures
            r.conn_id == conn_id,
            r.state == ProtocolState::Handshake,
            r.encryption_secret is None,
            r.compression_threshold is None,
            r.pending_verify_token is None,
            r.keep_alive_pending is None,
            r.outbound@.len() == 0,
    {
        Connection {
            conn_id,
            state: ProtocolState::Handshake,
            encryption_secret: None,
            compression_threshold: None,
            pending_verify_token: None,
            keep_alive_pending: None,
            keep_alive_deadline: 0,
            outbound: Vec::new(),
        }
    }

    /// The handshake names the next phase: status or login.
    pub fn handshake(&mut self, intent: HandshakeIntent)
        requires
            old(self).state == ProtocolState::Handshake,
        ensures
            final(self).state == (match intent {
                HandshakeIntent::Status => ProtocolState::Status,
                HandshakeIntent::Login => ProtocolState::Login,
            }),
            final(self).conn_id == old(self).conn_id,
            final(self).encryption_secret == old(self).encryption_secret,
            final(self).compression_threshold == old(self).compression_threshold,
            final(self).pending_verify_token == old(self).pending_verify_token,
            final(self).keep_alive_pending == old(self).keep_alive_pending,
            final(self).keep_alive_deadline == old(self).keep_alive_deadline,
            final(self).outbound == old(self).outbound,
    {
        match intent {
            HandshakeIntent::Status => {
                self.state = ProtocolState::Status;
            },
            HandshakeIntent::Login => {
                self.state = ProtocolState::Login;
            },
        }
    }

    /// The server asked the client to encrypt: remember the verify token
    /// the client must echo back.
    pub fn begin_encryption(&mut self, token: Vec<u8>)
        requires
            old(self).state == ProtocolState::Login,
        ensures
            final(self).pending_verify_token matches Some(t) && t@ == token@,
            final(self).state == old(self).state,
            final(self).conn_id == old(self).conn_id,
            final(self).encryption_secret == old(self).encryption_secret,
            final(self).compression_threshold == old(self).compression_threshold,
            final(self).keep_alive_pending == old(self).keep_alive_pending,
            final(self).keep_alive_deadline == old(self).keep_alive_deadline,
            final(self).outbound == old(self).outbound,
    {
        self.pending_verify_token = Some(token);
    }

    /// The client's encryption response, after the collaborator has
    /// decrypted it with the server's private key. The echoed token must
    /// match the one issued; on a match the symmetric context is
    /// installed and every later frame is encrypted, on a mismatch the
    /// connection closes for good.
    pub fn complete_encryption(&mut self, decrypted_token: &Vec<u8>, shared_secret: Vec<u8>) -> (r:
        Result<(), WireError>)
        requires
            old(self).state == ProtocolState::Login,
        ensures
            final(self).conn_id == old(self).conn_id,
            match r {
                Ok(()) => {
                    &&& old(self).pending_verify_token matches Some(t) && t@ == decrypted_token@
                    &&& final(self).state == ProtocolState::Login
                    &&& final(self).encryption_secret matches Some(s) && s@ == shared_secret@
                    &&& final(self).pending_verify_token is None
                    &&& final(self).compression_threshold == old(self).compression_threshold
                    &&& final(self).outbound == old(self).outbound
                },
                Err(e) => {
                    &&& e == WireError::CryptoError
                    &&& !(old(self).pending_verify_token matches Some(t) && t@
                        == decrypted_token@)
                    &&& final(self).state == ProtocolState::Closed
                    &&& final(self).outbound@.len() == 0
                },
            },
    {
        let matched: bool = match &self.pending_verify_token {
            Some(t) => eq_bytes(t, decrypted_token),
            None => false,
        };
        if matched {
            self.encryption_secret = Some(shared_secret);
            self.pending_verify_token = None;
            Ok(())
        } else {
            self.close();
            Err(WireError::CryptoError)
        }
    }

    /// Compression was announced: payloads at or above the threshold are
    /// compressed from now on.
    pub fn enable_compression(&mut self, threshold: u32)
        requires
            old(self).state == ProtocolState::Login,
        ensures
            final(self).compression_threshold == Some(threshold),
            final(self).state == old(self).state,
            final(self).conn_id == old(self).conn_id,
            final(self).encryption_secret == old(self).encryption_secret,
            final(self).pending_verify_token == old(self).pending_verify_token,
            final(self).keep_alive_pending == old(self).keep_alive_pending,
            final(self).keep_alive_deadline == old(self).keep_alive_deadline,
            final(self).outbound == old(self).outbound,
    {
        self.compression_threshold = Some(threshold);
    }

    /// Login finished: the connection enters `Play`.
    pub fn login_success(&mut self)
        requires
            old(self).state == ProtocolState::Login,
        ensures
            final(self).state == ProtocolState::Play,
            final(self).conn_id == old(self).conn_id,
            final(self).encryption_secret == old(self).encryption_secret,
            final(self).compression_threshold == old(self).compression_threshold,
            final(self).pending_verify_token == old(self).pending_verify_token,
            final(self).keep_alive_pending == old(self).keep_alive_pending,
            final(self).keep_alive_deadline == old(self).keep_alive_deadline,
            final(self).outbound == old(self).outbound,
    {
        self.state = ProtocolState::Play;
    }

    /// Closure is terminal and idempotent: closing a closed connection
    /// changes nothing further. The bytes still queued for the writer are
    /// dropped; nothing more will be written to this connection.
    pub fn close(&mut self)
        ensures
            final(self).state == ProtocolState::Closed,
            final(self).conn_id == old(self).conn_id,
            final(self).encryption_secret == old(self).encryption_secret,
            final(self).compression_threshold == old(self).compression_threshold,
            final(self).pending_verify_token == old(self).pending_verify_token,
            final(self).keep_alive_pending == old(self).keep_alive_pending,
            final(self).keep_alive_deadline == old(self).keep_alive_deadline,
            final(self).outbound@.len() == 0,
    {
        self.state = ProtocolState::Closed;
        self.outbound = Vec::new();
    }

    /// Issue a keep-alive challenge with a reply deadline.
    pub fn issue_keep_alive(&mut self, challenge: u64, deadline: u64)
        requires
            old(self).state == ProtocolState::Play,
        ensures
            final(self).keep_alive_pending == Some(challenge),
            final(self).keep_alive_deadline == deadline,
            final(self).state == old(self).state,
            final(self).conn_id == old(self).conn_id,
            final(self).encryption_secret == old(self).encryption_secret,
            final(self).compression_threshold == old(self).compression_threshold,
            final(self).pending_verify_token == old(self).pending_verify_token,
            final(self).outbound == old(self).outbound,
    {
        self.keep_alive_pending = Some(challenge);
        self.keep_alive_deadline = deadline;
    }

    /// The client answered a keep-alive: a matching answer clears the
    /// challenge, anything else is a protocol violation that closes the
    /// connection.
    pub fn answer_keep_alive(&mut self, answer: u64) -> (r: Result<(), WireError>)
        requires
            old(self).state == ProtocolState::Play,
        ensures
            final(self).conn_id == old(self).conn_id,
            final(self).encryption_secret == old(self).encryption_secret,
            final(self).compression_threshold == old(self).compression_threshold,
            match r {
                Ok(()) => {
                    &&& old(self).keep_alive_pending == Some(answer)
                    &&& final(self).keep_alive_pending is None
                    &&& final(self).state == ProtocolState::Play
                    &&& final(self).outbound == old(self).outbound
                },
                Err(e) => {
                    &&& e == WireError::MalformedFrame
                    &&& old(self).keep_alive_pending != Some(answer)
                    &&& final(self).state == ProtocolState::Closed
                    &&& final(self).outbound@.len() == 0
                },
            },
    {
        let ok: bool = match &self.keep_alive_pending {
            Some(c) => *c == answer,
            None => false,
        };
        if ok {
            self.keep_alive_pending = None;
            Ok(())
        } else {
            self.close();
            Err(WireError::MalformedFrame)
        }
    }

    /// The background sweep: a connection whose keep-alive deadline has
    /// passed without an answer is closed — through the one closure path,
    /// so its queued outbound is dropped too; any other is left alone.
    pub fn sweep_keep_alive(&mut self, now: u64)
        ensures
            final(self).conn_id == old(self).conn_id,
            final(self).encryption_secret == old(self).encryption_secret,
            final(self).compression_threshold == old(self).compression_threshold,
            final(self).pending_verify_token == old(self).pending_verify_token,
            final(self).keep_alive_pending == old(self).keep_alive_pending,
            final(self).keep_alive_deadline == old(self).keep_alive_deadline,
            final(self).state == (if old(self).keep_alive_pending is Some && now > old(
                self,
            ).keep_alive_deadline {
                ProtocolState::Closed
            } else {
                old(self).state
            }),
            (old(self).keep_alive_pending is Some && now > old(self).keep_alive_deadline)
                ==> final(self).outbound@.len() == 0,
            !(old(self).keep_alive_pending is Some && now > old(self).keep_alive_deadline)
                ==> final(self).outbound == old(self).outbound,
    {
        let timed_out: bool = match &self.keep_alive_pending {
            Some(_) => now > self.keep_alive_deadline,
            None => false,
        };
        if timed_out {
            self.close();
        }
    }
}

/// Byte-for-byte equality of two buffers.
pub fn eq_bytes(a: &Vec<u8>, b: &Vec<u8>) -> (r: bool)
    ensures
        r == (a@ == b@),
{
    if a.len() != b.len() {
        proof {
            assert(a@.len() != b@.len());
        }
        return false;
    }
    let mut i: usize = 0;
    while i < a.len()
        invariant
            i <= a@.len(),
            a@.len() == b@.len(),
            forall|j: int| 0 <= j < i ==> a@[j] == b@[j],
        decreases a@.len() - i,
    {
        if a[i] != b[i] {
            return false;
        }
        i = i + 1;
    }
    proof {
        assert(a@ =~= b@);
    }
    true
}

} // verus!
