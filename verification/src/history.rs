//! What a session comes to over a history of calls: whom it serves, and what
//! its nodes hold, told from what happened and not from what it remembers.

use vstd::prelude::*;

use crate::attribute::{
    read_bytes, read_result_bytes, write_bytes, ReadResultView, ReadView, WriteView,
};
use crate::channel::MESSAGE;
use crate::node::NodeIdView;
use crate::service::{BAD_SESSION_ID_INVALID, BAD_SESSION_NOT_ACTIVATED, GOOD};
use crate::session::{
    answering, can_reply, law_call_leaves_the_channel, law_event_tells_what_changed,
    law_read_is_answered, law_write_is_answered, replies, target_of, EventView, SessionView,
    ANONYMOUS_POLICY,
};
use crate::wire::DataValueView;

verus! {

/// One call on the channel: the request it is, what it says, and when it
/// arrived.
pub struct Call {
    pub request_id: u32,
    pub body: Seq<u8>,
    pub now: i64,
}

/// The session after one call, and the reply to it where it could be sent.
pub open spec fn after_call(session: SessionView, call: Call) -> SessionView {
    let (after, answer, _) = session.answers(call.body, call.now);
    if can_reply(after, MESSAGE@, call.request_id, answer) {
        after.replied(answer)
    } else {
        after
    }
}

/// The session after some calls.
pub open spec fn after_calls(session: SessionView, calls: Seq<Call>) -> SessionView
    decreases calls.len(),
{
    if calls.len() == 0 {
        session
    } else {
        after_call(after_calls(session, calls.drop_last()), calls.last())
    }
}

/// What the client did with the call at `at`.
#[verifier::opaque]
pub open spec fn event_of(session: SessionView, calls: Seq<Call>, at: int) -> EventView {
    after_calls(session, calls.take(at)).answers(calls[at].body, calls[at].now).2
}

/// That a session was created, and none was closed since.
pub open spec fn is_open(session: SessionView, calls: Seq<Call>) -> bool {
    exists|at: int|
        0 <= at < calls.len() && #[trigger] event_of(session, calls, at) is SessionCreated
            && no_close_behind(session, calls, at)
}

/// That no session was closed behind the call at `at`.
pub open spec fn no_close_behind(session: SessionView, calls: Seq<Call>, at: int) -> bool {
    forall|later: int|
        at < later < calls.len() ==> #[trigger] event_of(session, calls, later) !is SessionClosed
}

/// That an anonymous identity was taken, and no session was created or closed
/// since.
pub open spec fn is_activated(session: SessionView, calls: Seq<Call>) -> bool {
    exists|at: int|
        0 <= at < calls.len() && #[trigger] event_of(session, calls, at)
            == EventView::SessionActivated(ANONYMOUS_POLICY@) && no_change_behind(
            session,
            calls,
            at,
        )
}

/// That no session was created or closed behind the call at `at`.
pub open spec fn no_change_behind(session: SessionView, calls: Seq<Call>, at: int) -> bool {
    forall|later: int|
        at < later < calls.len() ==> {
            let event = #[trigger] event_of(session, calls, later);
            event !is SessionCreated && event !is SessionClosed
        }
}

/// The node that a call wrote, where it wrote one.
pub open spec fn wrote(session: SessionView, call: Call) -> Option<NodeIdView> {
    if session.answers(call.body, call.now).2 is Written {
        target_of(call.body)
    } else {
        None
    }
}

/// Where a session replies to a call as it answers it, it is after that what
/// one more call of the history makes of it.
pub proof fn law_reply_is_one_more_call(
    session: SessionView,
    call: Call,
    after: SessionView,
    sent_before: Seq<u8>,
    sent_after: Seq<u8>,
)
    requires
        replies(
            session.answers(call.body, call.now).0,
            after,
            MESSAGE@,
            call.request_id,
            session.answers(call.body, call.now).1,
            sent_before,
            sent_after,
        ),
    ensures
        after == after_call(session, call),
{
}

/// The events of a history are those of the history without its last call,
/// and one more.
proof fn lemma_events(session: SessionView, calls: Seq<Call>)
    requires
        calls.len() > 0,
    ensures
        ({
            let before = calls.drop_last();
            let last = calls.len() - 1;
            &&& forall|at: int|
                0 <= at < last ==> #[trigger] event_of(session, calls, at) == event_of(
                    session,
                    before,
                    at,
                )
            &&& event_of(session, calls, last) == after_calls(session, before).answers(
                calls.last().body,
                calls.last().now,
            ).2
        }),
{
    reveal(event_of);
    let before = calls.drop_last();
    let last = calls.len() - 1;
    assert forall|at: int| 0 <= at < last implies #[trigger] event_of(session, calls, at)
        == event_of(session, before, at) by {
        assert(calls.take(at) =~= before.take(at));
    }
    assert(calls.take(last) =~= before);
}

proof fn lemma_open_after(session: SessionView, calls: Seq<Call>)
    requires
        calls.len() > 0,
    ensures
        ({
            let before = calls.drop_last();
            let event = event_of(session, calls, calls.len() - 1);
            &&& is_open(session, calls) <==> event is SessionCreated || (is_open(session, before)
                && event !is SessionClosed)
            &&& is_activated(session, calls) <==> event == EventView::SessionActivated(
                ANONYMOUS_POLICY@,
            ) || (is_activated(session, before) && event !is SessionCreated
                && event !is SessionClosed)
        }),
{
    lemma_events(session, calls);
    let before = calls.drop_last();
    let last = calls.len() - 1;
    let event = event_of(session, calls, last);
    if is_open(session, before) && event !is SessionClosed {
        let at = choose|at: int|
            0 <= at < before.len() && #[trigger] event_of(session, before, at) is SessionCreated
                && no_close_behind(session, before, at);
        assert(event_of(session, calls, at) is SessionCreated);
        assert forall|later: int| at < later < calls.len() implies #[trigger] event_of(
            session,
            calls,
            later,
        ) !is SessionClosed by {
            if later < last {
                assert(event_of(session, before, later) !is SessionClosed);
            }
        }
        assert(no_close_behind(session, calls, at));
    }
    if event is SessionCreated {
        assert(no_close_behind(session, calls, last));
    }
    if is_open(session, calls) && event !is SessionCreated {
        let at = choose|at: int|
            0 <= at < calls.len() && #[trigger] event_of(session, calls, at) is SessionCreated
                && no_close_behind(session, calls, at);
        assert(event_of(session, calls, last) !is SessionClosed);
        assert(event_of(session, before, at) is SessionCreated);
        assert forall|later: int| at < later < before.len() implies #[trigger] event_of(
            session,
            before,
            later,
        ) !is SessionClosed by {
            assert(event_of(session, calls, later) !is SessionClosed);
        }
        assert(no_close_behind(session, before, at));
    }
    let taken = EventView::SessionActivated(ANONYMOUS_POLICY@);
    if is_activated(session, before) && event !is SessionCreated && event !is SessionClosed {
        let at = choose|at: int|
            0 <= at < before.len() && #[trigger] event_of(session, before, at) == taken
                && no_change_behind(session, before, at);
        assert(event_of(session, calls, at) == taken);
        assert forall|later: int| at < later < calls.len() implies {
            let event = #[trigger] event_of(session, calls, later);
            event !is SessionCreated && event !is SessionClosed
        } by {
            if later < last {
                let _ = event_of(session, before, later);
            }
        }
        assert(no_change_behind(session, calls, at));
    }
    if event == taken {
        assert(no_change_behind(session, calls, last));
    }
    if is_activated(session, calls) && event != taken {
        let at = choose|at: int|
            0 <= at < calls.len() && #[trigger] event_of(session, calls, at) == taken
                && no_change_behind(session, calls, at);
        assert(event_of(session, before, at) == taken);
        assert forall|later: int| at < later < before.len() implies {
            let event = #[trigger] event_of(session, before, later);
            event !is SessionCreated && event !is SessionClosed
        } by {
            let _ = event_of(session, calls, later);
        }
        assert(no_change_behind(session, before, at));
    }
}

/// What one call does to whom a session serves, by the event it is.
proof fn lemma_call(session: SessionView, call: Call)
    ensures
        ({
            let after = after_call(session, call);
            let event = session.answers(call.body, call.now).2;
            &&& after.channel_id == session.channel_id
            &&& event matches EventView::SessionActivated(policy) ==> policy == ANONYMOUS_POLICY@
            &&& after.token == match event {
                EventView::SessionCreated(_) => Some(session.own_token()),
                EventView::SessionClosed => None,
                _ => session.token,
            }
            &&& after.activated == match event {
                EventView::SessionCreated(_) => false,
                EventView::SessionActivated(_) => true,
                EventView::SessionClosed => false,
                _ => session.activated,
            }
        }),
{
    law_event_tells_what_changed(session, call.body, call.now);
    law_call_leaves_the_channel(session, call.body, call.now);
}

proof fn lemma_history(session: SessionView, calls: Seq<Call>)
    requires
        session.token is None,
        !session.activated,
    ensures
        ({
            let after = after_calls(session, calls);
            &&& after.channel_id == session.channel_id
            &&& after.token == if is_open(session, calls) {
                Some(session.own_token())
            } else {
                None
            }
            &&& after.activated == is_activated(session, calls)
        }),
    decreases calls.len(),
{
    if calls.len() > 0 {
        lemma_history(session, calls.drop_last());
        lemma_events(session, calls);
        lemma_open_after(session, calls);
        lemma_call(after_calls(session, calls.drop_last()), calls.last());
    }
}

/// Whatever calls were answered on a connection, one more with `token` is
/// refused as of no session exactly where none is open, none created yet or
/// closed since, or the token is another; else as not activated exactly where
/// no anonymous identity was taken since the session was created; else it is
/// served.
pub proof fn law_history_decides_who_is_served(
    session: SessionView,
    calls: Seq<Call>,
    token: NodeIdView,
)
    requires
        session.token is None,
        !session.activated,
    ensures
        after_calls(session, calls).refusal(token) == if !is_open(session, calls) || token
            != session.own_token() {
            Some(BAD_SESSION_ID_INVALID)
        } else if !is_activated(session, calls) {
            Some(BAD_SESSION_NOT_ACTIVATED)
        } else {
            None
        },
{
    lemma_history(session, calls);
}

/// A node holds what it held through any calls of which none wrote it.
pub proof fn law_node_keeps_its_value_until_written(
    session: SessionView,
    calls: Seq<Call>,
    node: NodeIdView,
)
    requires
        forall|at: int|
            0 <= at < calls.len() ==> wrote(
                after_calls(session, calls.take(at)),
                #[trigger] calls[at],
            ) != Some(node),
    ensures
        after_calls(session, calls).served(node) == session.served(node),
    decreases calls.len(),
{
    if calls.len() > 0 {
        let before = calls.drop_last();
        let last = calls.len() - 1;
        assert(calls.take(last) =~= before);
        assert(wrote(after_calls(session, calls.take(last)), calls[last]) != Some(node));
        assert forall|at: int| 0 <= at < before.len() implies wrote(
            after_calls(session, before.take(at)),
            #[trigger] before[at],
        ) != Some(node) by {
            assert(before.take(at) =~= calls.take(at));
            assert(before[at] == calls[at]);
        }
        law_node_keeps_its_value_until_written(session, before, node);
        let earlier = after_calls(session, before);
        law_event_tells_what_changed(earlier, calls[last].body, calls[last].now);
    }
}

/// What was last written to a node is what a read of it gives, whatever calls
/// came between: its bytes, good, with the stamp it was written with, or that
/// of the write where it had none. Left out are names and values too long for
/// their length field.
pub proof fn law_last_written_value_is_read(
    session: SessionView,
    request_id: u32,
    write: WriteView,
    now: i64,
    calls: Seq<Call>,
    read: ReadView,
    later: i64,
)
    requires
        write.fits(),
        read.fits(),
        session.refusal(write.header.token) is None,
        write.value.bytes is Some,
        read.node == write.node,
        ({
            let written = after_call(session, Call { request_id, body: write_bytes(write), now });
            &&& forall|at: int|
                0 <= at < calls.len() ==> wrote(
                    after_calls(written, calls.take(at)),
                    #[trigger] calls[at],
                ) != Some(write.node)
            &&& after_calls(written, calls).refusal(read.header.token) is None
        }),
    ensures
        ({
            let written = after_call(session, Call { request_id, body: write_bytes(write), now });
            let after = after_calls(written, calls);
            let stamp = match write.value.source_timestamp {
                Some(stamp) => stamp,
                None => now,
            };
            after.answers(read_bytes(read), later) == (
                after,
                read_result_bytes(
                    ReadResultView {
                        header: answering(read.header.handle, GOOD, later),
                        value: DataValueView {
                            bytes: write.value.bytes,
                            status: GOOD,
                            source_timestamp: Some(stamp),
                        },
                    },
                ),
                EventView::Read(read.node),
            )
        }),
{
    let written = after_call(session, Call { request_id, body: write_bytes(write), now });
    law_write_is_answered(session, write, now);
    law_node_keeps_its_value_until_written(written, calls, write.node);
    law_read_is_answered(after_calls(written, calls), read, later);
}

} // verus!
