//! The bridge's global laws, proved over iterated step relations.
//!
//! An `Event` is anything one session reacts to: a decoded control message,
//! one SSH read outcome, the decided teardown being performed, or the browser
//! side going away. `event_steps` chains the per-step relations of
//! `crate::session`; the lemmas below state what any such chain preserves.

use vstd::prelude::*;

use crate::PtySize;
use crate::control::ControlMessage;
use crate::session::Session;
use crate::session::SessionState;
use crate::session::message_step;
use crate::session::read_step;
use crate::session::finish_step;
use crate::session::hangup_step;
use crate::session::model_preserved;
use crate::transport::SshTransport;
use crate::transport::ReadOutcome;

verus! {

/// One occurrence a running session reacts to.
pub enum Event {
    /// A decoded inbound control message.
    Message(ControlMessage),
    /// One outcome of reading the SSH channel.
    SshRead(ReadOutcome),
    /// The decided teardown is performed.
    Finish,
    /// The browser side went away.
    Hangup,
}

/// What one event may do to a session: the per-step relations of
/// `crate::session`, dispatched on the event.
pub open spec fn event_step<T: SshTransport>(
    pre: Session<T>,
    ev: Event,
    post: Session<T>,
) -> bool {
    match ev {
        Event::Message(m) => message_step(pre, m, post),
        Event::SshRead(o) => read_step(pre, o, post),
        Event::Finish => finish_step(pre, post),
        Event::Hangup => hangup_step(pre, post),
    }
}

/// A chain of events, each step witnessed by `event_step`.
pub open spec fn event_steps<T: SshTransport>(
    pre: Session<T>,
    evs: Seq<Event>,
    post: Session<T>,
) -> bool
    decreases evs.len(),
{
    if evs.len() == 0 {
        post == pre
    } else {
        exists|mid: Session<T>|
            #[trigger] event_step(pre, evs[0], mid) && event_steps(mid, evs.skip(1), post)
    }
}

/// The bytes all `stdin` messages of a chain submit, in order.
pub open spec fn stdin_payloads(evs: Seq<Event>) -> Seq<u8>
    decreases evs.len(),
{
    if evs.len() == 0 {
        Seq::<u8>::empty()
    } else {
        (match evs[0] {
            Event::Message(ControlMessage::Stdin { data }) => data@,
            _ => Seq::<u8>::empty(),
        }) + stdin_payloads(evs.skip(1))
    }
}

/// The geometries all `resize` messages of a chain request, in order.
pub open spec fn resize_requests(evs: Seq<Event>) -> Seq<PtySize>
    decreases evs.len(),
{
    if evs.len() == 0 {
        Seq::<PtySize>::empty()
    } else {
        (match evs[0] {
            Event::Message(ControlMessage::Resize { cols, rows }) => seq![PtySize { cols, rows }],
            _ => Seq::<PtySize>::empty(),
        }) + resize_requests(evs.skip(1))
    }
}

/// Teardown has been decided on or performed.
pub open spec fn settled(s: SessionState) -> bool {
    s is Closing || s is Closed
}

/// Once teardown is decided, no event produces another outbound frame, the
/// session never becomes interactive again, and nothing more reaches the
/// transport.
pub proof fn lemma_teardown_sticks<T: SshTransport>(
    pre: Session<T>,
    evs: Seq<Event>,
    post: Session<T>,
)
    requires
        event_steps(pre, evs, post),
        settled(pre.state),
    ensures
        settled(post.state),
        post.out.queue() == pre.out.queue(),
        model_preserved(pre, post),
    decreases evs.len(),
{
    if evs.len() > 0 {
        let mid = choose|mid: Session<T>|
            #[trigger] event_step(pre, evs[0], mid) && event_steps(mid, evs.skip(1), post);
        assert(settled(mid.state) && mid.out.queue() == pre.out.queue() && model_preserved(
            pre,
            mid,
        ));
        lemma_teardown_sticks(mid, evs.skip(1), post);
    }
}

/// The terminal state really is terminal: from `Closed`, no event changes
/// the state, the queue, its seal, or what the transport received.
pub proof fn lemma_closed_is_terminal<T: SshTransport>(
    pre: Session<T>,
    evs: Seq<Event>,
    post: Session<T>,
)
    requires
        event_steps(pre, evs, post),
        pre.state is Closed,
    ensures
        post.state is Closed,
        post.out.queue() == pre.out.queue(),
        post.out.closed == pre.out.closed,
        model_preserved(pre, post),
    decreases evs.len(),
{
    if evs.len() > 0 {
        let mid = choose|mid: Session<T>|
            #[trigger] event_step(pre, evs[0], mid) && event_steps(mid, evs.skip(1), post);
        lemma_closed_is_terminal(mid, evs.skip(1), post);
    }
}

/// The stdin stream is delivered whole and in order: over any chain of
/// events through which the session stays interactive, the transport
/// receives exactly the bytes of the `stdin` messages, in the order
/// submitted, appended to what it had before — no loss, no duplication,
/// whatever else is interleaved.
pub proof fn lemma_stdin_in_order<T: SshTransport>(
    pre: Session<T>,
    evs: Seq<Event>,
    post: Session<T>,
)
    requires
        event_steps(pre, evs, post),
        pre.state is Interactive,
        post.state is Interactive,
    ensures
        post.transport.written() == pre.transport.written() + stdin_payloads(evs),
    decreases evs.len(),
{
    if evs.len() == 0 {
        assert(pre.transport.written() + stdin_payloads(evs) =~= pre.transport.written());
    } else {
        let mid = choose|mid: Session<T>|
            #[trigger] event_step(pre, evs[0], mid) && event_steps(mid, evs.skip(1), post);
        if !(mid.state is Interactive) {
            assert(settled(mid.state));
            lemma_teardown_sticks(mid, evs.skip(1), post);
            assert(false);
        }
        lemma_stdin_in_order(mid, evs.skip(1), post);
        assert(post.transport.written() =~= pre.transport.written() + stdin_payloads(evs));
    }
}

/// Resize requests reach the PTY in the order issued, whatever `stdin`
/// traffic or reads are interleaved: over any chain of events through which
/// the session stays interactive, the transport's applied geometry changes
/// are exactly the requested ones, in sequence.
pub proof fn lemma_resizes_in_order<T: SshTransport>(
    pre: Session<T>,
    evs: Seq<Event>,
    post: Session<T>,
)
    requires
        event_steps(pre, evs, post),
        pre.state is Interactive,
        post.state is Interactive,
    ensures
        post.transport.resizes() == pre.transport.resizes() + resize_requests(evs),
    decreases evs.len(),
{
    if evs.len() == 0 {
        assert(pre.transport.resizes() + resize_requests(evs) =~= pre.transport.resizes());
    } else {
        let mid = choose|mid: Session<T>|
            #[trigger] event_step(pre, evs[0], mid) && event_steps(mid, evs.skip(1), post);
        if !(mid.state is Interactive) {
            assert(settled(mid.state));
            lemma_teardown_sticks(mid, evs.skip(1), post);
            assert(false);
        }
        lemma_resizes_in_order(mid, evs.skip(1), post);
        assert(post.transport.resizes() =~= pre.transport.resizes() + resize_requests(evs));
    }
}

/// After the SSH channel signals end-of-stream, no further `stdout` or
/// `stderr` frame is ever produced, and performing the decided teardown
/// seals the queue without adding anything: whatever events follow the
/// `Eof` read, the queue holds exactly what it held when `Eof` arrived.
pub proof fn lemma_eof_ends_output<T: SshTransport>(
    pre: Session<T>,
    mid: Session<T>,
    evs: Seq<Event>,
    post: Session<T>,
)
    requires
        pre.state is Interactive,
        read_step(pre, ReadOutcome::Eof, mid),
        event_steps(mid, evs, post),
    ensures
        post.out.queue() == pre.out.queue(),
        settled(post.state),
        model_preserved(pre, post),
{
    lemma_teardown_sticks(mid, evs, post);
}

} // verus!
