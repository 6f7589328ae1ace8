//! The SSH transport capability interface.
//!
//! The session state machine drives an SSH connection only through this
//! trait, so the backing SSH implementation stays swappable and the bridge
//! logic can be exercised against a scripted transport. The trait's ghost
//! model — connection flags, the bytes delivered to the remote input, and the
//! resize calls in order — is what the session's own contracts speak of.

use vstd::prelude::*;

use crate::PtySize;

verus! {

/// How a transport operation failed.
#[derive(Clone, Copy, Debug, PartialEq, Eq, Structural)]
pub enum TransportError {
    /// The SSH host could not be reached.
    Connect,
    /// The credential was rejected.
    Auth,
    /// The PTY channel could not be opened.
    Channel,
    /// A read, write or resize failed mid-session.
    Io,
}

/// Which remote output stream a read came from.
#[derive(Clone, Copy, Debug, PartialEq, Eq, Structural)]
pub enum StreamKind {
    Stdout,
    Stderr,
}

/// One outcome of reading from the SSH channel.
#[derive(Debug)]
pub enum ReadOutcome {
    /// Bytes from one of the remote output streams.
    Data { stream: StreamKind, bytes: Vec<u8> },
    /// The remote side closed the stream.
    Eof,
    /// The channel failed mid-session.
    Failed,
}

/// A capability interface over an SSH client: connect, authenticate, open a
/// PTY, then read, write and resize it, and close everything down.
///
/// The spec functions model what the session logic relies on: `written` is
/// every byte delivered to the remote input so far, in order; `resizes` is
/// every applied geometry change, in order. An implementation must not
/// deliver bytes partially: a failed write delivers nothing.
pub trait SshTransport: Sized {
    /// Whether the transport holds an open connection. The default model
    /// says never, so an implementation the verifier reads must supply its
    /// own; one it never reads may leave the ghost model at the default.
    open spec fn connected(&self) -> bool {
        false
    }

    /// Whether the connection has been authenticated.
    open spec fn authenticated(&self) -> bool {
        false
    }

    /// Whether a PTY channel is open.
    open spec fn pty_open(&self) -> bool {
        false
    }

    /// Every byte delivered to the remote input so far, in order.
    open spec fn written(&self) -> Seq<u8> {
        Seq::<u8>::empty()
    }

    /// Every geometry change applied so far, in order.
    open spec fn resizes(&self) -> Seq<PtySize> {
        Seq::<PtySize>::empty()
    }

    /// Every `(host, port)` a connect call was asked for, in order.
    open spec fn connect_requests(&self) -> Seq<(Seq<u8>, u16)> {
        Seq::<(Seq<u8>, u16)>::empty()
    }

    /// Every `(username, secret)` an authenticate call presented, in order.
    open spec fn auth_requests(&self) -> Seq<(Seq<u8>, Seq<u8>)> {
        Seq::<(Seq<u8>, Seq<u8>)>::empty()
    }

    /// Every geometry an open_pty call asked for, in order.
    open spec fn pty_requests(&self) -> Seq<PtySize> {
        Seq::<PtySize>::empty()
    }

    /// Opens the connection to `host:port`. The attempt is recorded in
    /// `connect_requests` whatever comes of it.
    fn connect(&mut self, host: &[u8], port: u16) -> (r: Result<(), TransportError>)
        ensures
            final(self).written() == old(self).written(),
            final(self).resizes() == old(self).resizes(),
            final(self).connect_requests() == old(self).connect_requests().push((host@, port)),
            final(self).auth_requests() == old(self).auth_requests(),
            final(self).pty_requests() == old(self).pty_requests(),
            r is Ok ==> final(self).connected(),
            r matches Err(e) ==> e == TransportError::Connect,
    ;

    /// Presents the credential for `username`. The attempt is recorded in
    /// `auth_requests` whatever comes of it.
    fn authenticate(&mut self, username: &[u8], secret: &[u8]) -> (r: Result<(), TransportError>)
        ensures
            final(self).written() == old(self).written(),
            final(self).resizes() == old(self).resizes(),
            final(self).connect_requests() == old(self).connect_requests(),
            final(self).auth_requests() == old(self).auth_requests().push((username@, secret@)),
            final(self).pty_requests() == old(self).pty_requests(),
            final(self).connected() == old(self).connected(),
            r is Ok ==> final(self).authenticated(),
            r matches Err(e) ==> e == TransportError::Auth,
    ;

    /// Opens the PTY channel with an initial geometry. The attempt is
    /// recorded in `pty_requests` whatever comes of it.
    fn open_pty(&mut self, cols: u16, rows: u16) -> (r: Result<(), TransportError>)
        ensures
            final(self).written() == old(self).written(),
            final(self).resizes() == old(self).resizes(),
            final(self).connect_requests() == old(self).connect_requests(),
            final(self).auth_requests() == old(self).auth_requests(),
            final(self).pty_requests() == old(self).pty_requests().push(
                PtySize { cols, rows },
            ),
            final(self).connected() == old(self).connected(),
            final(self).authenticated() == old(self).authenticated(),
            r is Ok ==> final(self).pty_open(),
            r matches Err(e) ==> e == TransportError::Channel,
    ;

    /// Delivers `data` to the remote input: all of it, or none on failure.
    fn write(&mut self, data: &[u8]) -> (r: Result<(), TransportError>)
        ensures
            final(self).resizes() == old(self).resizes(),
            final(self).connect_requests() == old(self).connect_requests(),
            final(self).auth_requests() == old(self).auth_requests(),
            final(self).pty_requests() == old(self).pty_requests(),
            r is Ok ==> final(self).written() == old(self).written() + data@,
            r is Ok ==> final(self).connected() == old(self).connected(),
            r is Ok ==> final(self).authenticated() == old(self).authenticated(),
            r is Ok ==> final(self).pty_open() == old(self).pty_open(),
            r is Err ==> final(self).written() == old(self).written(),
            r matches Err(e) ==> e == TransportError::Io,
    ;

    /// Applies a new geometry to the PTY: applied once, or not at all.
    fn resize(&mut self, cols: u16, rows: u16) -> (r: Result<(), TransportError>)
        ensures
            final(self).written() == old(self).written(),
            final(self).connect_requests() == old(self).connect_requests(),
            final(self).auth_requests() == old(self).auth_requests(),
            final(self).pty_requests() == old(self).pty_requests(),
            r is Ok ==> final(self).resizes() == old(self).resizes().push(PtySize { cols, rows }),
            r is Ok ==> final(self).connected() == old(self).connected(),
            r is Ok ==> final(self).authenticated() == old(self).authenticated(),
            r is Ok ==> final(self).pty_open() == old(self).pty_open(),
            r is Err ==> final(self).resizes() == old(self).resizes(),
            r matches Err(e) ==> e == TransportError::Io,
    ;

    /// Reads once from the remote output streams. Reporting end-of-stream or
    /// a failure does not itself tear the transport down; `close` does.
    fn read(&mut self) -> (r: ReadOutcome)
        ensures
            final(self).written() == old(self).written(),
            final(self).resizes() == old(self).resizes(),
            final(self).connect_requests() == old(self).connect_requests(),
            final(self).auth_requests() == old(self).auth_requests(),
            final(self).pty_requests() == old(self).pty_requests(),
            final(self).connected() == old(self).connected(),
            final(self).authenticated() == old(self).authenticated(),
            final(self).pty_open() == old(self).pty_open(),
    ;

    /// Tears the channel and the connection down: afterwards nothing is
    /// connected, authenticated or open.
    fn close(&mut self)
        ensures
            final(self).written() == old(self).written(),
            final(self).resizes() == old(self).resizes(),
            final(self).connect_requests() == old(self).connect_requests(),
            final(self).auth_requests() == old(self).auth_requests(),
            final(self).pty_requests() == old(self).pty_requests(),
            !final(self).connected(),
            !final(self).authenticated(),
            !final(self).pty_open(),
    ;
}

/// A step of a scripted transport: what the next `read` call will yield.
#[derive(Debug)]
pub enum ScriptedRead {
    Output { stream: StreamKind, bytes: Vec<u8> },
    End,
    Break,
}

/// An in-memory transport for exercising the bridge: it accepts one
/// credential, records what is written and resized, and plays back a script
/// of read outcomes, ending with end-of-stream.
pub struct ScriptedTransport {
    /// Whether connecting is allowed to succeed at all.
    pub reachable: bool,
    /// The one username accepted.
    pub expect_user: Vec<u8>,
    /// The one secret accepted.
    pub expect_secret: Vec<u8>,
    /// The read outcomes still to be played back, in order.
    pub script: Vec<ScriptedRead>,
    /// How many script entries have been consumed.
    pub cursor: usize,
    pub is_connected: bool,
    pub is_authenticated: bool,
    pub is_pty_open: bool,
    /// Everything written, in order.
    pub sink: Vec<u8>,
    /// Every resize applied, in order.
    pub sizes: Vec<PtySize>,
    /// Every connect attempt, in order.
    pub connect_log: Vec<(Vec<u8>, u16)>,
    /// Every credential presented, in order.
    pub auth_log: Vec<(Vec<u8>, Vec<u8>)>,
    /// Every PTY geometry asked for, in order.
    pub pty_log: Vec<PtySize>,
}

impl ScriptedTransport {
    /// A fresh scripted transport that accepts the given credential and will
    /// play the given reads back.
    pub fn new(reachable: bool, expect_user: Vec<u8>, expect_secret: Vec<u8>, script: Vec<
        ScriptedRead,
    >) -> (r: ScriptedTransport)
        ensures
            r.reachable == reachable,
            r.expect_user@ == expect_user@,
            r.expect_secret@ == expect_secret@,
            r.script@ == script@,
            r.cursor == 0,
            !r.connected() && !r.authenticated() && !r.pty_open(),
            r.written() == Seq::<u8>::empty(),
            r.resizes() == Seq::<PtySize>::empty(),
            r.connect_requests() == Seq::<(Seq<u8>, u16)>::empty(),
            r.auth_requests() == Seq::<(Seq<u8>, Seq<u8>)>::empty(),
            r.pty_requests() == Seq::<PtySize>::empty(),
    {
        let r = ScriptedTransport {
            reachable,
            expect_user,
            expect_secret,
            script,
            cursor: 0,
            is_connected: false,
            is_authenticated: false,
            is_pty_open: false,
            sink: Vec::new(),
            sizes: Vec::new(),
            connect_log: Vec::new(),
            auth_log: Vec::new(),
            pty_log: Vec::new(),
        };
        proof {
            assert(r.connect_requests() =~= Seq::<(Seq<u8>, u16)>::empty());
            assert(r.auth_requests() =~= Seq::<(Seq<u8>, Seq<u8>)>::empty());
        }
        r
    }

    /// The bytes the scripted remote side has received, for inspection.
    pub fn received(&self) -> (r: &Vec<u8>)
        ensures
            r@ == self.written(),
    {
        &self.sink
    }

    /// The geometry changes applied so far, for inspection.
    pub fn applied_sizes(&self) -> (r: &Vec<PtySize>)
        ensures
            r@ == self.resizes(),
    {
        &self.sizes
    }
}

impl SshTransport for ScriptedTransport {
    open spec fn connected(&self) -> bool {
        self.is_connected
    }

    open spec fn authenticated(&self) -> bool {
        self.is_authenticated
    }

    open spec fn pty_open(&self) -> bool {
        self.is_pty_open
    }

    open spec fn written(&self) -> Seq<u8> {
        self.sink@
    }

    open spec fn resizes(&self) -> Seq<PtySize> {
        self.sizes@
    }

    open spec fn connect_requests(&self) -> Seq<(Seq<u8>, u16)> {
        self.connect_log@.map_values(|t: (Vec<u8>, u16)| (t.0@, t.1))
    }

    open spec fn auth_requests(&self) -> Seq<(Seq<u8>, Seq<u8>)> {
        self.auth_log@.map_values(|t: (Vec<u8>, Vec<u8>)| (t.0@, t.1@))
    }

    open spec fn pty_requests(&self) -> Seq<PtySize> {
        self.pty_log@
    }

    fn connect(&mut self, host: &[u8], port: u16) -> (r: Result<(), TransportError>) {
        let ghost before = self.connect_requests();
        let host_copy = crate::codec::copy_range(host, 0, host.len());
        proof {
            assert(host_copy@ =~= host@);
        }
        self.connect_log.push((host_copy, port));
        proof {
            assert(self.connect_requests() =~= before.push((host@, port)));
        }
        if self.reachable && host.len() > 0 {
            self.is_connected = true;
            Ok(())
        } else {
            Err(TransportError::Connect)
        }
    }

    fn authenticate(&mut self, username: &[u8], secret: &[u8]) -> (r: Result<
        (),
        TransportError,
    >) {
        let ghost before = self.auth_requests();
        let user_copy = crate::codec::copy_range(username, 0, username.len());
        let secret_copy = crate::codec::copy_range(secret, 0, secret.len());
        proof {
            assert(user_copy@ =~= username@);
            assert(secret_copy@ =~= secret@);
        }
        self.auth_log.push((user_copy, secret_copy));
        proof {
            assert(self.auth_requests() =~= before.push((username@, secret@)));
        }
        let user_ok = crate::codec::bytes_eq(username, self.expect_user.as_slice());
        let secret_ok = crate::codec::bytes_eq(secret, self.expect_secret.as_slice());
        if self.is_connected && user_ok && secret_ok {
            self.is_authenticated = true;
            Ok(())
        } else {
            Err(TransportError::Auth)
        }
    }

    fn open_pty(&mut self, cols: u16, rows: u16) -> (r: Result<(), TransportError>) {
        self.pty_log.push(PtySize { cols, rows });
        if self.is_connected && self.is_authenticated {
            self.is_pty_open = true;
            Ok(())
        } else {
            Err(TransportError::Channel)
        }
    }

    fn write(&mut self, data: &[u8]) -> (r: Result<(), TransportError>) {
        if self.is_pty_open {
            crate::codec::push_all(&mut self.sink, data);
            Ok(())
        } else {
            Err(TransportError::Io)
        }
    }

    fn resize(&mut self, cols: u16, rows: u16) -> (r: Result<(), TransportError>) {
        if self.is_pty_open {
            self.sizes.push(PtySize { cols, rows });
            Ok(())
        } else {
            Err(TransportError::Io)
        }
    }

    fn read(&mut self) -> (r: ReadOutcome) {
        if !self.is_pty_open || self.cursor >= self.script.len() {
            return ReadOutcome::Eof;
        }
        let i = self.cursor;
        self.cursor = i + 1;
        match &self.script[i] {
            ScriptedRead::Output { stream, bytes } => {
                let copied = crate::codec::copy_range(bytes.as_slice(), 0, bytes.len());
                proof {
                    assert(copied@ =~= self.script@[i as int]->Output_bytes@);
                }
                ReadOutcome::Data { stream: *stream, bytes: copied }
            },
            ScriptedRead::End => ReadOutcome::Eof,
            ScriptedRead::Break => ReadOutcome::Failed,
        }
    }

    fn close(&mut self) {
        self.is_connected = false;
        self.is_authenticated = false;
        self.is_pty_open = false;
    }
}

} // verus!
