//! What is told of names that could not be resolved.
use crate::collections::AssocMap;
use crate::ipc::ClientHandle;
use crate::service::DnsEvent;
use crate::text::{opt_text, same};
use vstd::prelude::*;
use vstd::string::StringExecFns;

verus! {

/// Whether a failure is another one than the last.
pub fn failure_is_news(last: &Option<String>, error: &str) -> (r: bool)
    ensures
        r == (opt_text(*last) != Some(error@)),
{
    match last {
        Some(text) => !same(text.as_str(), error),
        None => true,
    }
}

/// The message about a name that could not be resolved.
pub open spec fn failure_text(hostname: Seq<char>, error: Seq<char>) -> Seq<char> {
    "could not resolve "@ + hostname + ": "@ + error
}

/// What is told of an event of the resolver.
pub enum Report {
    /// Nothing: it is no failure.
    Nothing,
    /// A failure that is new: a warning.
    Warning(String),
    /// The failure that was told last: not worth a warning.
    Repeated(String),
}

/// What is told of an event of the resolver, in mathematical terms.
pub enum ReportView {
    Nothing,
    Warning(Seq<char>),
    Repeated(Seq<char>),
}

impl View for Report {
    type V = ReportView;

    open spec fn view(&self) -> ReportView {
        match self {
            Report::Nothing => ReportView::Nothing,
            Report::Warning(text) => ReportView::Warning(text@),
            Report::Repeated(text) => ReportView::Repeated(text@),
        }
    }
}

/// What is told of an event, where these are the last failures of the clients.
pub open spec fn reported(last: Map<u64, Seq<char>>, event: DnsEvent) -> ReportView {
    match event {
        DnsEvent::Resolved(handle, hostname, Err(e)) => {
            let text = failure_text(hostname@, e@);
            if last.dom().contains(handle) && last[handle] == text {
                ReportView::Repeated(text)
            } else {
                ReportView::Warning(text)
            }
        },
        _ => ReportView::Nothing,
    }
}

/// The last failures of the clients after an event. A name that was resolved
/// has none.
pub open spec fn last_failures(last: Map<u64, Seq<char>>, event: DnsEvent) -> Map<u64, Seq<char>> {
    match event {
        DnsEvent::Resolving(_) => last,
        DnsEvent::Resolved(handle, _, Ok(_)) => last.remove(handle),
        DnsEvent::Resolved(handle, hostname, Err(e)) => last.insert(
            handle,
            failure_text(hostname@, e@),
        ),
    }
}

/// The last failures of the clients.
pub struct Failures {
    pub last: AssocMap<u64, String>,
}

impl View for Failures {
    type V = Map<u64, Seq<char>>;

    open spec fn view(&self) -> Map<u64, Seq<char>> {
        self.last@.map_values(|s: String| s@)
    }
}

impl Failures {
    /// Whether the map is in order.
    pub open spec fn wf(&self) -> bool {
        self.last.wf()
    }

    /// No failures.
    pub fn new() -> (f: Failures)
        ensures
            f.wf(),
            f@ == Map::<u64, Seq<char>>::empty(),
    {
        let f = Failures { last: AssocMap::new() };
        assert(f@ =~= Map::<u64, Seq<char>>::empty());
        f
    }

    /// Notes an event of the resolver, and returns what is told of it.
    pub fn note(&mut self, event: &DnsEvent) -> (report: Report)
        requires
            old(self).wf(),
        ensures
            final(self).wf(),
            final(self)@ == last_failures(old(self)@, *event),
            report@ == reported(old(self)@, *event),
    {
        match event {
            DnsEvent::Resolving(_) => Report::Nothing,
            DnsEvent::Resolved(handle, _, Ok(_)) => {
                self.last.remove(handle);
                assert(self@ =~= last_failures(old(self)@, *event));
                Report::Nothing
            },
            DnsEvent::Resolved(handle, hostname, Err(e)) => {
                let mut text = String::from_str("could not resolve ");
                text.append(hostname.as_str());
                text.append(": ");
                text.append(e.as_str());
                let last = match self.last.get(handle) {
                    Some(last) => Some(last.clone()),
                    None => None,
                };
                let news = failure_is_news(&last, text.as_str());
                self.last.insert(*handle, text.clone());
                assert(self@ =~= last_failures(old(self)@, *event));
                if news {
                    Report::Warning(text)
                } else {
                    Report::Repeated(text)
                }
            },
        }
    }
}

/// The last failures of the clients after events, one after the other.
pub open spec fn after_events(last: Map<u64, Seq<char>>, events: Seq<DnsEvent>) -> Map<
    u64,
    Seq<char>,
>
    decreases events.len(),
{
    if events.len() == 0 {
        last
    } else {
        last_failures(after_events(last, events.drop_last()), events.last())
    }
}

/// Whether the event tells what became of a client's name.
pub open spec fn settles(event: DnsEvent, handle: ClientHandle) -> bool {
    match event {
        DnsEvent::Resolving(_) => false,
        DnsEvent::Resolved(h, _, _) => h == handle,
    }
}

/// Whether the event is a failure of a client with this message.
pub open spec fn fails_with(event: DnsEvent, handle: ClientHandle, text: Seq<char>) -> bool {
    match event {
        DnsEvent::Resolved(h, hostname, Err(e)) => h == handle && failure_text(hostname@, e@)
            == text,
        _ => false,
    }
}

/// A failure that comes again is a warning only once: as long as nothing else
/// becomes of the client's name, however often it is tried and whatever happens
/// to other clients.
pub proof fn repeated_failures_are_quiet(
    last: Map<u64, Seq<char>>,
    handle: ClientHandle,
    text: Seq<char>,
    failure: DnsEvent,
    between: Seq<DnsEvent>,
    again: DnsEvent,
)
    requires
        fails_with(failure, handle, text),
        forall|i: int|
            0 <= i < between.len() && #[trigger] settles(between[i], handle) ==> fails_with(
                between[i],
                handle,
                text,
            ),
        fails_with(again, handle, text),
    ensures
        reported(after_events(last_failures(last, failure), between), again)
            == ReportView::Repeated(text),
        after_events(last_failures(last, failure), between).dom().contains(handle),
        after_events(last_failures(last, failure), between)[handle] == text,
    decreases between.len(),
{
    if between.len() > 0 {
        let rest = between.drop_last();
        assert forall|i: int| 0 <= i < rest.len() && #[trigger] settles(
            rest[i],
            handle,
        ) implies fails_with(rest[i], handle, text) by {
            assert(settles(between[i], handle));
        }
        repeated_failures_are_quiet(last, handle, text, failure, rest, again);
        assert(between[between.len() - 1] == between.last());
        assert(settles(between[between.len() - 1], handle) ==> fails_with(
            between.last(),
            handle,
            text,
        ));
    }
}

/// A failure with another message, and any failure of a name that was resolved
/// since, is a warning.
pub proof fn other_failures_are_told(
    last: Map<u64, Seq<char>>,
    handle: ClientHandle,
    text: Seq<char>,
    before: DnsEvent,
    failure: DnsEvent,
)
    requires
        settles(before, handle),
        !fails_with(before, handle, text),
        fails_with(failure, handle, text),
    ensures
        reported(last_failures(last, before), failure) == ReportView::Warning(text),
{
}

/// Only failures are told, and each names the host and what went wrong, in this
/// order. A name that is being resolved, or was, tells nothing.
pub proof fn only_failures_are_told(last: Map<u64, Seq<char>>, event: DnsEvent)
    ensures
        match event {
            DnsEvent::Resolved(_, hostname, Err(e)) => {
                let text = "could not resolve "@ + hostname@ + ": "@ + e@;
                reported(last, event) == ReportView::Warning(text) || reported(last, event)
                    == ReportView::Repeated(text)
            },
            _ => reported(last, event) is Nothing,
        },
{
}

/// What becomes of one client's name does not touch what is known of another's.
pub proof fn failures_are_kept_apart(
    last: Map<u64, Seq<char>>,
    event: DnsEvent,
    handle: ClientHandle,
)
    requires
        !settles(event, handle),
    ensures
        last_failures(last, event).dom().contains(handle) == last.dom().contains(handle),
        last.dom().contains(handle) ==> last_failures(last, event)[handle] == last[handle],
{
}

/// A failure is news for a client of which none is known.
pub proof fn first_failure_is_told(last: Map<u64, Seq<char>>, handle: ClientHandle, failure: DnsEvent, text: Seq<char>)
    requires
        fails_with(failure, handle, text),
        !last.dom().contains(handle),
    ensures
        reported(last, failure) == ReportView::Warning(text),
{
}

} // verus!
