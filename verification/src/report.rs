//! The client side of the expense-report protocol.
//!
//! The transport (one request/reply exchange with the report service) lives
//! outside the crate; here are the rules it follows: how a reply payload is
//! normalized into host path segments, and the state machine of one report
//! request.

use crate::text::strs_view;
use vstd::prelude::*;

verus! {

/// A failure of the report transport.
#[derive(Debug, Clone, Copy, PartialEq, Eq, Structural)]
pub enum ProtocolError {
    /// Connecting to the service failed.
    Connect,
    /// Sending the request failed.
    Send,
    /// Receiving the reply failed.
    Recv,
}

/// The segments of a path written with the foreign (backslash) separator.
pub open spec fn split_on_backslash(s: Seq<char>) -> Seq<Seq<char>>
    decreases s.len(),
{
    if s.len() == 0 {
        seq![Seq::<char>::empty()]
    } else if s.last() == '\\' {
        split_on_backslash(s.drop_last()).push(Seq::<char>::empty())
    } else {
        let sp = split_on_backslash(s.drop_last());
        sp.update(sp.len() - 1, sp.last().push(s.last()))
    }
}

/// Splitting yields at least one segment.
pub proof fn lemma_split_nonempty(s: Seq<char>)
    ensures
        split_on_backslash(s).len() >= 1,
    decreases s.len(),
{
    if s.len() > 0 {
        lemma_split_nonempty(s.drop_last());
    }
}

/// Normalizes a reply payload into host path segments: the payload split on
/// the foreign backslash separator, final file name preserved as the last
/// segment.
pub fn normalize_report_path(payload: &str) -> (segs: Vec<String>)
    ensures
        strs_view(segs@) == split_on_backslash(payload@),
{
    let len = payload.unicode_len();
    let mut segs: Vec<String> = Vec::new();
    let mut cur: Vec<char> = Vec::new();
    let mut i: usize = 0;
    proof {
        assert(payload@.subrange(0, 0) =~= Seq::<char>::empty());
        assert(strs_view(segs@).push(cur@) =~= split_on_backslash(payload@.subrange(0, 0)));
    }
    while i < len
        invariant
            len == payload@.len(),
            0 <= i <= len,
            strs_view(segs@).push(cur@) == split_on_backslash(payload@.subrange(0, i as int)),
        decreases len - i,
    {
        let ghost segs0 = segs@;
        let ghost cur0 = cur@;
        proof {
            let p = payload@.subrange(0, i + 1);
            assert(p.drop_last() =~= payload@.subrange(0, i as int));
            assert(p.last() == payload@[i as int]);
            lemma_split_nonempty(p.drop_last());
        }
        let c = payload.get_char(i);
        if c == '\\' {
            segs.push(crate::numerals::chars_to_string(&cur));
            cur = Vec::new();
            proof {
                assert(strs_view(segs@).push(cur@) =~= split_on_backslash(
                    payload@.subrange(0, i + 1),
                ));
            }
        } else {
            cur.push(c);
            proof {
                let sp = split_on_backslash(payload@.subrange(0, i as int));
                assert(strs_view(segs0).push(cur0) == sp);
                assert(strs_view(segs@).push(cur@) =~= sp.update(sp.len() - 1, sp.last().push(
                    payload@[i as int],
                )));
            }
        }
        i = i + 1;
    }
    segs.push(crate::numerals::chars_to_string(&cur));
    proof {
        assert(payload@.subrange(0, len as int) =~= payload@);
        assert(strs_view(segs@) =~= split_on_backslash(payload@));
    }
    segs
}

/// Where one expense-report request stands.
#[derive(Debug)]
pub enum ReportState {
    /// No request is under way.
    Idle,
    /// The request was sent; the reply has not arrived.
    AwaitingReply,
    /// The reply held a path, here as host path segments.
    Succeeded(Vec<String>),
    /// The reply arrived without a decodable path.
    NoPath,
    /// The transport failed.
    Failed(ProtocolError),
    /// The request was cancelled, or its deadline passed.
    Cancelled,
}

/// What the session reports to the state machine.
#[derive(Debug)]
pub enum ReportEvent {
    /// The report view was opened.
    Open,
    /// The reply arrived, with its payload when decodable as text.
    Reply(Option<String>),
    /// The transport failed.
    Transport(ProtocolError),
    /// The user cancelled the request.
    Cancel,
    /// The request's deadline passed.
    Timeout,
}

/// What the caller must do next.
#[derive(Debug, Clone, Copy, PartialEq, Eq, Structural)]
pub enum ReportAction {
    /// Serialize the ledger and issue the request.
    SendRequest,
    /// Nothing.
    Nothing,
}

/// Advances one report request by one event.
///
/// Opening the report view from any settled state issues a fresh request:
/// nothing is cached, a second view repeats the full round trip.  While a
/// reply is awaited, the reply, a transport failure, a cancellation or a
/// timeout settles the request; any other pairing changes nothing.
pub fn report_step(state: ReportState, event: ReportEvent) -> (r: (ReportState, ReportAction))
    ensures
        !(state is AwaitingReply) && event is Open ==> r.0 is AwaitingReply && r.1
            == ReportAction::SendRequest,
        state is AwaitingReply && event is Open ==> r.0 is AwaitingReply && r.1
            == ReportAction::Nothing,
        state is AwaitingReply ==> (match event {
            ReportEvent::Reply(Some(p)) => r.0 matches ReportState::Succeeded(segs)
                && strs_view(segs@) == split_on_backslash(p@),
            ReportEvent::Reply(None) => r.0 is NoPath,
            ReportEvent::Transport(e) => r.0 matches ReportState::Failed(f) && f == e,
            ReportEvent::Cancel => r.0 is Cancelled,
            ReportEvent::Timeout => r.0 is Cancelled,
            ReportEvent::Open => r.0 is AwaitingReply,
        }) && r.1 == ReportAction::Nothing,
        !(state is AwaitingReply) && !(event is Open) ==> r == (state, ReportAction::Nothing),
{
    match state {
        ReportState::AwaitingReply => {
            match event {
                ReportEvent::Open => (ReportState::AwaitingReply, ReportAction::Nothing),
                ReportEvent::Reply(Some(p)) => {
                    let segs = normalize_report_path(p.as_str());
                    (ReportState::Succeeded(segs), ReportAction::Nothing)
                },
                ReportEvent::Reply(None) => (ReportState::NoPath, ReportAction::Nothing),
                ReportEvent::Transport(e) => (ReportState::Failed(e), ReportAction::Nothing),
                ReportEvent::Cancel => (ReportState::Cancelled, ReportAction::Nothing),
                ReportEvent::Timeout => (ReportState::Cancelled, ReportAction::Nothing),
            }
        },
        _ => {
            match event {
                ReportEvent::Open => (ReportState::AwaitingReply, ReportAction::SendRequest),
                _ => (state, ReportAction::Nothing),
            }
        },
    }
}

} // verus!
