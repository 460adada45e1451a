//! Saying once, and only for the latest: the generation counter every superseding piece
//! of work in a window goes through, and which file-monitor events can mean that a
//! document's text changed.
//!
//! One save is rarely one write, one keystroke is rarely the last, and a render in
//! flight is stale the moment another is asked for. Each of these takes a ticket from
//! a [`Generation`] when it starts and asks, when it would act, whether its ticket is
//! still the current one: only the last of a burst ever is, so a burst of five writes
//! is one reload, a paragraph of typing is one render, and a page the reader has moved
//! past is never shown.
use vstd::prelude::*;

verus! {

/// A counter of superseding requests: each new one makes every earlier one stale.
pub struct Generation {
    latest: u64,
}

impl Generation {
    /// The ticket the most recent request was given; `0` before there was any.
    pub closed spec fn latest(&self) -> u64 {
        self.latest
    }

    /// A counter no request has been made of.
    pub fn new() -> (g: Generation)
        ensures
            g.latest() == 0,
    {
        Generation { latest: 0 }
    }

    /// Whether another ticket can be given out.
    pub fn can_begin(&self) -> (yes: bool)
        ensures
            yes == (self.latest() < u64::MAX),
    {
        self.latest < u64::MAX
    }

    /// Starts a request, superseding every one before it, and answers with its ticket.
    pub fn begin(&mut self) -> (ticket: u64)
        requires
            old(self).latest() < u64::MAX,
        ensures
            ticket == old(self).latest() + 1,
            final(self).latest() == ticket,
    {
        self.latest = self.latest + 1;
        self.latest
    }

    /// Whether the request holding `ticket` is still the one wanted.
    pub fn is_current(&self, ticket: u64) -> (yes: bool)
        ensures
            yes == (ticket == self.latest()),
    {
        ticket == self.latest
    }
}

/// The latest ticket once `n` more requests have begun after the one holding `latest`.
pub open spec fn after(latest: u64, n: nat) -> int
    decreases n,
{
    if n == 0 {
        latest as int
    } else {
        after(latest, (n - 1) as nat) + 1
    }
}

/// Of a burst of requests, only the last is ever acted on: a ticket handed out before
/// another request began is never current again, however many more follow, and the
/// last one handed out is.
pub proof fn law_only_the_latest_request_is_acted_on(ticket: u64, more: nat)
    ensures
        more > 0 ==> after(ticket, more) != ticket as int,
        after(ticket, more) == ticket + more,
    decreases more,
{
    if more > 0 {
        law_only_the_latest_request_is_acted_on(ticket, (more - 1) as nat);
    }
}

/// What a file monitor can say happened to a watched path.
#[derive(Clone, Copy, Debug, PartialEq, Eq, Structural)]
pub enum FileEvent {
    Changed,
    ChangesDoneHint,
    Deleted,
    Created,
    AttributeChanged,
    PreUnmount,
    Unmounted,
    Moved,
    Renamed,
    MovedIn,
    MovedOut,
    /// An event this build has never heard of.
    Other,
}

/// Whether an event can mean the document's text is now different.
///
/// Everything is taken to mean it except the events that cannot: a permission or
/// timestamp change is not a save, and an unmount takes the file away without rewriting
/// it. An event this build has never heard of counts as a change, because re-reading a
/// file that did not change costs a render and missing one that did costs the reader
/// their document.
pub fn may_change_the_document(event: FileEvent) -> (may: bool)
    ensures
        may == !(event is AttributeChanged || event is PreUnmount || event is Unmounted),
{
    match event {
        FileEvent::AttributeChanged | FileEvent::PreUnmount | FileEvent::Unmounted => false,
        _ => true,
    }
}

} // verus!
