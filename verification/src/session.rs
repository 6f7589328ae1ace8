//! The session state machine.
//!
//! A `Session` owns one SSH transport and one outbound frame queue, consumes
//! decoded inbound frames, and produces outbound frames. Every public step is
//! described by a step relation over the session's model: which state it may
//! move to, which frames it may enqueue, and what the transport must have
//! received. The relations compose into `event_steps`, over which the
//! stream-ordering and termination laws are proved.

use vstd::prelude::*;

use crate::PtySize;
use crate::codec;
use crate::codec::FrameKind;
use crate::codec::DecodeError;
use crate::codec::encoded;
use crate::control;
use crate::control::ControlMessage;
use crate::transport::SshTransport;
use crate::transport::TransportError;
use crate::transport::ReadOutcome;
use crate::transport::StreamKind;

verus! {

/// The lifecycle of a session.
#[derive(Clone, Copy, Debug, PartialEq, Eq, Structural)]
pub enum SessionState {
    /// No `connect` instruction has arrived yet.
    Uninitialized,
    /// The transport is being connected.
    Connecting,
    /// The credential is being presented.
    Authenticating,
    /// The terminal is live: stdin, resize and output flow.
    Interactive,
    /// Teardown has been decided on but not performed yet.
    Closing,
    /// Terminal state: everything is closed and the queue is sealed.
    Closed,
}

/// The outbound frame queue: frames not yet handed to the socket writer, and
/// whether the queue has been sealed. It is sealed exactly once, when the
/// session reaches its terminal state.
pub struct Outbound {
    pub frames: Vec<Vec<u8>>,
    pub closed: bool,
}

impl Outbound {
    /// The queued frames, as byte sequences.
    pub open spec fn queue(&self) -> Seq<Seq<u8>> {
        self.frames@.map_values(|v: Vec<u8>| v@)
    }

    /// A fresh, open, empty queue.
    pub fn new() -> (r: Outbound)
        ensures
            r.queue() == Seq::<Seq<u8>>::empty(),
            !r.closed,
    {
        let r = Outbound { frames: Vec::new(), closed: false };
        proof {
            assert(r.queue() =~= Seq::<Seq<u8>>::empty());
        }
        r
    }

    /// Enqueues one frame.
    fn push_frame(&mut self, f: Vec<u8>)
        requires
            !old(self).closed,
        ensures
            !final(self).closed,
            final(self).queue() == old(self).queue().push(f@),
    {
        let ghost before = self.queue();
        self.frames.push(f);
        proof {
            assert(self.queue() =~= before.push(f@));
        }
    }

    /// Seals the queue. Called exactly once.
    fn close(&mut self)
        requires
            !old(self).closed,
        ensures
            final(self).closed,
            final(self).queue() == old(self).queue(),
    {
        self.closed = true;
    }

    /// Hands every queued frame out, leaving the queue empty; the seal is
    /// untouched.
    pub fn take_frames(&mut self) -> (r: Vec<Vec<u8>>)
        ensures
            r@.map_values(|v: Vec<u8>| v@) == old(self).queue(),
            final(self).queue() == Seq::<Seq<u8>>::empty(),
            final(self).closed == old(self).closed,
    {
        let mut r: Vec<Vec<u8>> = Vec::new();
        core::mem::swap(&mut r, &mut self.frames);
        proof {
            assert(self.queue() =~= Seq::<Seq<u8>>::empty());
        }
        r
    }
}

/// The text of the one `error` frame each failure produces.
pub open spec fn err_text(e: TransportError) -> Seq<u8> {
    match e {
        TransportError::Connect => seq![99u8, 111, 110, 110, 101, 99, 116, 32, 102, 97, 105, 108, 101, 100],
        TransportError::Auth => seq![97u8, 117, 116, 104, 101, 110, 116, 105, 99, 97, 116, 105, 111, 110, 32, 102, 97, 105, 108, 101, 100],
        TransportError::Channel => seq![99u8, 104, 97, 110, 110, 101, 108, 32, 102, 97, 105, 108, 101, 100],
        TransportError::Io => seq![105u8, 111, 32, 101, 114, 114, 111, 114],
    }
}

/// The wire frame reporting a failure: an `error` frame around `err_text`.
pub open spec fn err_frame(e: TransportError) -> Seq<u8> {
    encoded(FrameKind::Error, err_text(e))
}

/// The executable bytes of `err_text`.
fn err_text_vec(e: TransportError) -> (r: Vec<u8>)
    ensures
        r@ == err_text(e),
{
    let mut v: Vec<u8> = Vec::new();
    match e {
        TransportError::Connect => {
            v.push(99);
            v.push(111);
            v.push(110);
            v.push(110);
            v.push(101);
            v.push(99);
            v.push(116);
            v.push(32);
            v.push(102);
            v.push(97);
            v.push(105);
            v.push(108);
            v.push(101);
            v.push(100);
        },
        TransportError::Auth => {
            v.push(97);
            v.push(117);
            v.push(116);
            v.push(104);
            v.push(101);
            v.push(110);
            v.push(116);
            v.push(105);
            v.push(99);
            v.push(97);
            v.push(116);
            v.push(105);
            v.push(111);
            v.push(110);
            v.push(32);
            v.push(102);
            v.push(97);
            v.push(105);
            v.push(108);
            v.push(101);
            v.push(100);
        },
        TransportError::Channel => {
            v.push(99);
            v.push(104);
            v.push(97);
            v.push(110);
            v.push(110);
            v.push(101);
            v.push(108);
            v.push(32);
            v.push(102);
            v.push(97);
            v.push(105);
            v.push(108);
            v.push(101);
            v.push(100);
        },
        TransportError::Io => {
            v.push(105);
            v.push(111);
            v.push(32);
            v.push(101);
            v.push(114);
            v.push(114);
            v.push(111);
            v.push(114);
        },
    }
    proof {
        assert(v@ =~= err_text(e));
    }
    v
}

/// The frame kind an output stream's bytes are reported under.
pub open spec fn stream_frame_kind(s: StreamKind) -> FrameKind {
    match s {
        StreamKind::Stdout => FrameKind::Stdout,
        StreamKind::Stderr => FrameKind::Stderr,
    }
}

/// One session: its lifecycle state, its transport, and its outbound queue.
pub struct Session<T: SshTransport> {
    pub state: SessionState,
    pub transport: T,
    pub out: Outbound,
}

/// The transport's observable model is untouched between `pre` and `post`.
pub open spec fn model_preserved<T: SshTransport>(pre: Session<T>, post: Session<T>) -> bool {
    &&& post.transport.written() == pre.transport.written()
    &&& post.transport.resizes() == pre.transport.resizes()
}

/// No connect, authenticate or open_pty request was made between `pre` and
/// `post`.
pub open spec fn requests_preserved<T: SshTransport>(pre: Session<T>, post: Session<T>) -> bool {
    &&& post.transport.connect_requests() == pre.transport.connect_requests()
    &&& post.transport.auth_requests() == pre.transport.auth_requests()
    &&& post.transport.pty_requests() == pre.transport.pty_requests()
}

/// The session's transport has been torn down: nothing is connected,
/// authenticated or open.
pub open spec fn transport_closed<T: SshTransport>(s: Session<T>) -> bool {
    &&& !s.transport.connected()
    &&& !s.transport.authenticated()
    &&& !s.transport.pty_open()
}

impl<T: SshTransport> Session<T> {
    /// The session's structural invariant: the queue is sealed exactly in the
    /// terminal state, and an interactive session really holds an
    /// authenticated connection with an open PTY.
    pub open spec fn wf(&self) -> bool {
        &&& self.state is Closed <==> self.out.closed
        &&& self.state is Interactive ==> self.transport.connected() && self.transport.authenticated()
            && self.transport.pty_open()
        &&& self.state is Closed ==> transport_closed(*self)
    }

    /// A fresh session around an injected transport.
    pub fn new(transport: T) -> (r: Session<T>)
        ensures
            r.wf(),
            r.state is Uninitialized,
            r.out.queue() == Seq::<Seq<u8>>::empty(),
            !r.out.closed,
            r.transport == transport,
    {
        Session { state: SessionState::Uninitialized, transport, out: Outbound::new() }
    }

    /// Emits one error frame, tears everything down and seals the queue.
    fn fail_close(&mut self, e: TransportError)
        requires
            !old(self).out.closed,
        ensures
            final(self).state is Closed,
            final(self).out.closed,
            final(self).out.queue() == old(self).out.queue().push(err_frame(e)),
            model_preserved(*old(self), *final(self)),
            requests_preserved(*old(self), *final(self)),
            transport_closed(*final(self)),
    {
        let text = err_text_vec(e);
        let fr = codec::encode(FrameKind::Error, text.as_slice());
        self.out.push_frame(fr);
        self.transport.close();
        self.out.close();
        self.state = SessionState::Closed;
    }

    /// Emits one error frame and decides on teardown, without sealing yet.
    fn io_fail(&mut self)
        requires
            !old(self).out.closed,
        ensures
            final(self).state is Closing,
            !final(self).out.closed,
            final(self).out.queue() == old(self).out.queue().push(
                err_frame(TransportError::Io),
            ),
            final(self).transport == old(self).transport,
    {
        let text = err_text_vec(TransportError::Io);
        let fr = codec::encode(FrameKind::Error, text.as_slice());
        self.out.push_frame(fr);
        self.state = SessionState::Closing;
    }
}

/// The session ended in the terminal state over one failure: exactly one
/// `error` frame naming the failure was queued, the queue was sealed, the
/// transport was torn down, and nothing reached the remote side meanwhile.
pub open spec fn closed_with_error<T: SshTransport>(
    pre: Session<T>,
    post: Session<T>,
    e: TransportError,
) -> bool {
    &&& post.state is Closed
    &&& post.out.closed
    &&& post.out.queue() == pre.out.queue().push(err_frame(e))
    &&& model_preserved(pre, post)
    &&& transport_closed(post)
}

/// What one control message may do to a session.
///
/// A `connect` in the initial state either brings the session interactive or
/// reports one error frame and closes; elsewhere it is ignored. `stdin` and
/// `resize` act only in the interactive state: on success exactly their
/// payload reaches the transport's model, on failure one `io error` frame is
/// queued and teardown is decided. `disconnect` decides teardown. Every
/// ignored message leaves the session untouched.
pub open spec fn message_step<T: SshTransport>(
    pre: Session<T>,
    m: ControlMessage,
    post: Session<T>,
) -> bool {
    match m {
        ControlMessage::Connect { host, port, username, secret } => {
            if pre.state is Uninitialized {
                ||| {
                    // connected, authenticated and holding a PTY, with exactly
                    // the message's fields handed through
                    &&& post.state is Interactive
                    &&& post.transport.connected()
                    &&& post.transport.authenticated()
                    &&& post.transport.pty_open()
                    &&& post.out.queue() == pre.out.queue()
                    &&& !post.out.closed
                    &&& model_preserved(pre, post)
                    &&& post.transport.connect_requests() == pre.transport.connect_requests().push(
                        (host@, port),
                    )
                    &&& post.transport.auth_requests() == pre.transport.auth_requests().push(
                        (username@, secret@),
                    )
                    &&& post.transport.pty_requests() == pre.transport.pty_requests().push(
                        PtySize { cols: 80, rows: 24 },
                    )
                }
                ||| {
                    // the host could not be reached
                    &&& closed_with_error(pre, post, TransportError::Connect)
                    &&& post.transport.connect_requests() == pre.transport.connect_requests().push(
                        (host@, port),
                    )
                    &&& post.transport.auth_requests() == pre.transport.auth_requests()
                    &&& post.transport.pty_requests() == pre.transport.pty_requests()
                }
                ||| {
                    // the credential was rejected
                    &&& closed_with_error(pre, post, TransportError::Auth)
                    &&& post.transport.connect_requests() == pre.transport.connect_requests().push(
                        (host@, port),
                    )
                    &&& post.transport.auth_requests() == pre.transport.auth_requests().push(
                        (username@, secret@),
                    )
                    &&& post.transport.pty_requests() == pre.transport.pty_requests()
                }
                ||| {
                    // the PTY channel could not be opened
                    &&& closed_with_error(pre, post, TransportError::Channel)
                    &&& post.transport.connect_requests() == pre.transport.connect_requests().push(
                        (host@, port),
                    )
                    &&& post.transport.auth_requests() == pre.transport.auth_requests().push(
                        (username@, secret@),
                    )
                    &&& post.transport.pty_requests() == pre.transport.pty_requests().push(
                        PtySize { cols: 80, rows: 24 },
                    )
                }
            } else {
                post == pre
            }
        },
        ControlMessage::Stdin { data } => {
            if pre.state is Interactive {
                ||| {
                    &&& post.state is Interactive
                    &&& post.out.queue() == pre.out.queue()
                    &&& !post.out.closed
                    &&& post.transport.written() == pre.transport.written() + data@
                    &&& post.transport.resizes() == pre.transport.resizes()
                    &&& requests_preserved(pre, post)
                }
                ||| {
                    &&& post.state is Closing
                    &&& !post.out.closed
                    &&& post.out.queue() == pre.out.queue().push(err_frame(TransportError::Io))
                    &&& model_preserved(pre, post)
                    &&& requests_preserved(pre, post)
                }
            } else {
                post == pre
            }
        },
        ControlMessage::Resize { cols, rows } => {
            if pre.state is Interactive {
                ||| {
                    &&& post.state is Interactive
                    &&& post.out.queue() == pre.out.queue()
                    &&& !post.out.closed
                    &&& post.transport.resizes() == pre.transport.resizes().push(
                        PtySize { cols, rows },
                    )
                    &&& post.transport.written() == pre.transport.written()
                    &&& requests_preserved(pre, post)
                }
                ||| {
                    &&& post.state is Closing
                    &&& !post.out.closed
                    &&& post.out.queue() == pre.out.queue().push(err_frame(TransportError::Io))
                    &&& model_preserved(pre, post)
                    &&& requests_preserved(pre, post)
                }
            } else {
                post == pre
            }
        },
        ControlMessage::Disconnect => {
            if pre.state is Interactive {
                &&& post.state is Closing
                &&& !post.out.closed
                &&& post.out.queue() == pre.out.queue()
                &&& model_preserved(pre, post)
                &&& requests_preserved(pre, post)
            } else {
                post == pre
            }
        },
    }
}

/// What one SSH read outcome may do to a session. Output bytes become one
/// `stdout` or `stderr` frame (none when the read was empty); end-of-stream
/// decides teardown silently; a failure queues one `io error` frame and
/// decides teardown. Outside the interactive state nothing happens.
pub open spec fn read_step<T: SshTransport>(
    pre: Session<T>,
    o: ReadOutcome,
    post: Session<T>,
) -> bool {
    if pre.state is Interactive {
        match o {
            ReadOutcome::Data { stream, bytes } => {
                &&& post.state is Interactive
                &&& !post.out.closed
                &&& (if bytes@.len() == 0 {
                    post.out.queue() == pre.out.queue()
                } else {
                    post.out.queue() == pre.out.queue().push(
                        encoded(stream_frame_kind(stream), bytes@),
                    )
                })
                &&& model_preserved(pre, post)
                &&& requests_preserved(pre, post)
            },
            ReadOutcome::Eof => {
                &&& post.state is Closing
                &&& !post.out.closed
                &&& post.out.queue() == pre.out.queue()
                &&& model_preserved(pre, post)
                &&& requests_preserved(pre, post)
            },
            ReadOutcome::Failed => {
                &&& post.state is Closing
                &&& !post.out.closed
                &&& post.out.queue() == pre.out.queue().push(err_frame(TransportError::Io))
                &&& model_preserved(pre, post)
                &&& requests_preserved(pre, post)
            },
        }
    } else {
        &&& post.state == pre.state
        &&& post.out.queue() == pre.out.queue()
        &&& post.out.closed == pre.out.closed
        &&& model_preserved(pre, post)
        &&& requests_preserved(pre, post)
    }
}

/// Performing the decided teardown: from `Closing`, the transport really is
/// closed and the queue sealed, with no further frames; elsewhere nothing
/// happens.
pub open spec fn finish_step<T: SshTransport>(pre: Session<T>, post: Session<T>) -> bool {
    if pre.state is Closing {
        &&& post.state is Closed
        &&& post.out.closed
        &&& post.out.queue() == pre.out.queue()
        &&& model_preserved(pre, post)
        &&& requests_preserved(pre, post)
        &&& transport_closed(post)
    } else {
        post == pre
    }
}

/// The browser side went away: everything is torn down silently — no frame
/// is ever queued — and the queue is sealed if it was not already.
pub open spec fn hangup_step<T: SshTransport>(pre: Session<T>, post: Session<T>) -> bool {
    if pre.state is Closed {
        post == pre
    } else {
        &&& post.state is Closed
        &&& post.out.closed
        &&& post.out.queue() == pre.out.queue()
        &&& model_preserved(pre, post)
        &&& requests_preserved(pre, post)
        &&& transport_closed(post)
    }
}

impl<T: SshTransport> Session<T> {
    /// Consumes one decoded control message, as `message_step` describes.
    pub fn handle_message(&mut self, m: ControlMessage)
        requires
            old(self).wf(),
        ensures
            final(self).wf(),
            message_step(*old(self), m, *final(self)),
    {
        match m {
            ControlMessage::Connect { host, port, username, secret } => {
                if self.state == SessionState::Uninitialized {
                    self.state = SessionState::Connecting;
                    match self.transport.connect(host.as_slice(), port) {
                        Err(e) => self.fail_close(e),
                        Ok(()) => {
                            self.state = SessionState::Authenticating;
                            match self.transport.authenticate(
                                username.as_slice(),
                                secret.as_slice(),
                            ) {
                                Err(e) => self.fail_close(e),
                                Ok(()) => {
                                    match self.transport.open_pty(80, 24) {
                                        Err(e) => self.fail_close(e),
                                        Ok(()) => {
                                            self.state = SessionState::Interactive;
                                        },
                                    }
                                },
                            }
                        },
                    }
                }
            },
            ControlMessage::Stdin { data } => {
                if self.state == SessionState::Interactive {
                    match self.transport.write(data.as_slice()) {
                        Ok(()) => {},
                        Err(_) => self.io_fail(),
                    }
                }
            },
            ControlMessage::Resize { cols, rows } => {
                if self.state == SessionState::Interactive {
                    match self.transport.resize(cols, rows) {
                        Ok(()) => {},
                        Err(_) => self.io_fail(),
                    }
                }
            },
            ControlMessage::Disconnect => {
                if self.state == SessionState::Interactive {
                    self.state = SessionState::Closing;
                }
            },
        }
    }

    /// Consumes one raw inbound frame. A frame that does not decode to a
    /// control message is dropped: the session is left exactly as it was,
    /// and the error says why: `Malformed` exactly when the envelope does not
    /// parse, `UnknownKind` exactly when the `type` names no kind or an
    /// outbound one, `BadPayload` when the data segment is no canonical
    /// base64 or its bytes do not fit the kind's schema. A frame whose data
    /// decodes to a payload fitting its kind's schema is owed `Ok`, and then
    /// acts as `message_step` says, on the very message the bytes denote.
    pub fn handle_frame(&mut self, frame: &[u8]) -> (r: Result<(), DecodeError>)
        requires
            old(self).wf(),
        ensures
            final(self).wf(),
            r matches Err(_) ==> *final(self) == *old(self),
            r is Ok ==> exists|m: ControlMessage, k: FrameKind, b: Seq<u8>|
                {
                    &&& frame@ == #[trigger] encoded(k, b)
                    &&& control::message_of(k, b, m)
                    &&& #[trigger] message_step(*old(self), m, *final(self))
                },
            r == Err::<(), DecodeError>(DecodeError::Malformed) <==> codec::envelope(
                frame@,
            ) is None,
            r == Err::<(), DecodeError>(DecodeError::UnknownKind) <==> (codec::envelope(
                frame@,
            ) matches Some(nd) && (codec::kind_of_name(nd.0) is None || (codec::kind_of_name(
                nd.0,
            ) matches Some(k) && control::outbound_kind(k) && (exists|b: Seq<u8>|
                #[trigger] codec::b64_enc(b) == nd.1)))),
            (codec::envelope(frame@) matches Some(nd) && codec::kind_of_name(nd.0) matches Some(k)
                && (exists|b: Seq<u8>| #[trigger] codec::b64_enc(b) == nd.1) && (forall|
                b: Seq<u8>,
            | #[trigger] codec::b64_enc(b) == nd.1 ==> control::parse_ok(k, b))) ==> r is Ok,
            r == Err::<(), DecodeError>(DecodeError::BadPayload) ==> (codec::envelope(
                frame@,
            ) matches Some(nd) && codec::kind_of_name(nd.0) matches Some(k) && ((forall|
                b: Seq<u8>,
            | #[trigger] codec::b64_enc(b) != nd.1) || (exists|b: Seq<u8>|
                #[trigger] codec::b64_enc(b) == nd.1 && !control::parse_ok(k, b)))),
            (codec::envelope(frame@) matches Some(nd) && codec::kind_of_name(nd.0) is Some
                && (forall|b: Seq<u8>| #[trigger] codec::b64_enc(b) != nd.1)) ==> r == Err::<
                (),
                DecodeError,
            >(DecodeError::BadPayload),
    {
        let f = match codec::decode(frame) {
            Err(e) => {
                return Err(e);
            },
            Ok(f) => f,
        };
        proof {
            codec::lemma_kind_of_name_id(f.kind);
        }
        let m = match control::parse_control(f.kind, f.payload.as_slice()) {
            Err(e) => {
                return Err(e);
            },
            Ok(m) => m,
        };
        let ghost gk = f.kind;
        let ghost gb = f.payload@;
        let ghost gm = m;
        self.handle_message(m);
        proof {
            assert(frame@ == encoded(gk, gb));
            assert(control::message_of(gk, gb, gm));
            assert(message_step(*old(self), gm, *self));
        }
        Ok(())
    }

    /// Applies one SSH read outcome, as `read_step` describes; the transport
    /// itself is not touched.
    pub fn apply_read(&mut self, o: ReadOutcome)
        requires
            old(self).wf(),
        ensures
            final(self).wf(),
            read_step(*old(self), o, *final(self)),
            final(self).transport == old(self).transport,
    {
        if self.state != SessionState::Interactive {
            return ;
        }
        match o {
            ReadOutcome::Data { stream, bytes } => {
                if bytes.len() > 0 {
                    let kind = match stream {
                        StreamKind::Stdout => FrameKind::Stdout,
                        StreamKind::Stderr => FrameKind::Stderr,
                    };
                    let fr = codec::encode(kind, bytes.as_slice());
                    self.out.push_frame(fr);
                }
            },
            ReadOutcome::Eof => {
                self.state = SessionState::Closing;
            },
            ReadOutcome::Failed => {
                self.io_fail();
            },
        }
    }

    /// Reads once from the SSH channel and applies the outcome. Some read
    /// outcome explains the session's step; which one arrives is the
    /// transport's affair.
    pub fn poll_ssh(&mut self)
        requires
            old(self).wf(),
        ensures
            final(self).wf(),
            exists|o: ReadOutcome| #[trigger] read_step(*old(self), o, *final(self)),
    {
        if self.state != SessionState::Interactive {
            let ghost o = ReadOutcome::Eof;
            proof {
                assert(read_step(*old(self), o, *self));
            }
            return ;
        }
        let outcome = self.transport.read();
        let ghost witness = outcome;
        self.apply_read(outcome);
        proof {
            assert(read_step(*old(self), witness, *self));
        }
    }

    /// Performs the decided teardown, as `finish_step` describes: closes the
    /// transport and seals the queue, exactly once.
    pub fn finish(&mut self)
        requires
            old(self).wf(),
        ensures
            final(self).wf(),
            finish_step(*old(self), *final(self)),
    {
        if self.state == SessionState::Closing {
            self.transport.close();
            self.out.close();
            self.state = SessionState::Closed;
        }
    }

    /// Tears everything down after the browser side went away, as
    /// `hangup_step` describes: silently, with no outbound frame.
    pub fn hangup(&mut self)
        requires
            old(self).wf(),
        ensures
            final(self).wf(),
            hangup_step(*old(self), *final(self)),
    {
        if self.state != SessionState::Closed {
            self.transport.close();
            self.out.close();
            self.state = SessionState::Closed;
        }
    }
}

} // verus!
