//! Builds: what comes of them, and what they say while they run.

use vstd::prelude::*;

use crate::server::event::{close_event, event, json_string};
use crate::server::event::{close_event_text, event_text, to_json};

verus! {

/// What a client is told of a build. `D` is what the compiler has to say about a
/// place in the source.
pub struct BuildResult<D> {
    pub messages: Vec<String>,
    pub errors: Vec<D>,
    pub push_data_key: Option<String>,
}

impl<D> BuildResult<D> {
    /// The result of a build, given what was found in its output.
    pub fn from_build(errors: Vec<D>, messages: Vec<String>) -> (r: BuildResult<D>)
        ensures
            r == (BuildResult { messages, errors, push_data_key: None }),
    {
        BuildResult { messages, errors, push_data_key: None }
    }
}

/// What a line of the output of a build turns out to be. A diagnostic comes with
/// its JSON.
pub enum ParsedError<D> {
    Diagnostic { diagnostic: D, json: String },
    Message(String),
    Error,
}

/// The event that tells a client of a line of output, if it is told at all.
pub open spec fn update_event<D>(parsed: ParsedError<D>) -> Option<Seq<char>> {
    match parsed {
        ParsedError::Diagnostic { json, .. } => Some(event("error"@, json@)),
        ParsedError::Message(s) => Some(event("message"@, json_string(s@))),
        ParsedError::Error => None,
    }
}

/// The events for lines of output, in order.
pub open spec fn update_events<D>(parsed: Seq<ParsedError<D>>) -> Seq<Seq<char>>
    decreases parsed.len(),
{
    if parsed.len() == 0 {
        Seq::empty()
    } else {
        match update_event(parsed.last()) {
            Some(event) => update_events(parsed.drop_last()).push(event),
            None => update_events(parsed.drop_last()),
        }
    }
}

/// The diagnostics among lines of output, in order.
pub open spec fn diagnostics_in<D>(parsed: Seq<ParsedError<D>>) -> Seq<D>
    decreases parsed.len(),
{
    if parsed.len() == 0 {
        Seq::empty()
    } else {
        match parsed.last() {
            ParsedError::Diagnostic { diagnostic, .. } => diagnostics_in(parsed.drop_last()).push(
                diagnostic,
            ),
            _ => diagnostics_in(parsed.drop_last()),
        }
    }
}

/// What a running build says: its updates, how many of them have been passed on,
/// the diagnostics found in those, and whether it is over.
pub struct BuildUpdateHandler<D> {
    pub updates: Vec<String>,
    pub seen: usize,
    pub diagnostics: Vec<D>,
    pub complete: bool,
}

/// The updates of a build that wait to be passed on.
pub open spec fn waiting<D>(handler: BuildUpdateHandler<D>) -> Seq<Seq<char>> {
    handler.updates.deep_view().skip(handler.seen as int)
}

/// The updates of a build that have been passed on.
pub open spec fn told<D>(handler: BuildUpdateHandler<D>) -> Seq<Seq<char>> {
    handler.updates.deep_view().take(handler.seen as int)
}

impl<D> BuildUpdateHandler<D> {
    /// No more updates have been passed on than there are.
    pub open spec fn wf(self) -> bool {
        self.seen <= self.updates.len()
    }

    /// A build of which nothing is known yet.
    pub fn new() -> (r: BuildUpdateHandler<D>)
        ensures
            r.wf(),
            r.updates@ == Seq::<String>::empty(),
            r.seen == 0,
            r.diagnostics@ == Seq::<D>::empty(),
            !r.complete,
    {
        BuildUpdateHandler {
            updates: Vec::new(),
            seen: 0,
            diagnostics: Vec::new(),
            complete: false,
        }
    }

    /// Adds what a build has to say, and notes whether it is over. Once over, it
    /// stays over.
    pub fn push_updates(&mut self, updates: &[&str], done: bool)
        ensures
            final(self).updates.deep_view() == old(self).updates.deep_view() + updates.deep_view(),
            final(self).complete == (old(self).complete || done),
            final(self).seen == old(self).seen,
            final(self).diagnostics == old(self).diagnostics,
            old(self).wf() ==> final(self).wf(),
            old(self).wf() ==> told(*final(self)) == told(*old(self)),
            old(self).wf() ==> waiting(*final(self)) == waiting(*old(self)) + updates.deep_view(),
    {
        let ghost before = self.updates.deep_view();
        let mut i: usize = 0;
        while i < updates.len()
            invariant
                i <= updates.len(),
                self.updates.deep_view() == before + updates.deep_view().take(i as int),
                self.complete == old(self).complete,
                self.seen == old(self).seen,
                self.diagnostics == old(self).diagnostics,
            decreases updates.len() - i,
        {
            let ghost so_far = self.updates.deep_view();
            let update = updates[i].to_owned();
            self.updates.push(update);
            assert(self.updates.deep_view() == so_far.push(update@));
            assert(updates.deep_view()[i as int] == updates@[i as int].deep_view());
            i += 1;
        }
        assert(updates.deep_view().take(i as int) == updates.deep_view());
        assert(self.updates.len() == self.updates.deep_view().len());
        assert(old(self).updates.len() == before.len());
        if done {
            self.complete = true;
        }
        assert(old(self).wf() ==> told(*self) == told(*old(self)));
        assert(old(self).wf() ==> waiting(*self) == waiting(*old(self)) + updates.deep_view());
    }

    /// Hands out the updates that wait to be passed on, which then wait no more.
    pub fn take_updates(&mut self) -> (r: Vec<String>)
        requires
            old(self).wf(),
        ensures
            r.deep_view() == waiting(*old(self)),
            waiting(*final(self)) == Seq::<Seq<char>>::empty(),
            told(*final(self)) == told(*old(self)) + r.deep_view(),
            final(self).wf(),
            final(self).updates == old(self).updates,
            final(self).seen == final(self).updates.len(),
            final(self).diagnostics == old(self).diagnostics,
            final(self).complete == old(self).complete,
    {
        let ghost all = self.updates.deep_view();
        let mut taken: Vec<String> = Vec::new();
        let mut i: usize = self.seen;
        while i < self.updates.len()
            invariant
                *self == *old(self),
                self.seen <= i <= self.updates.len(),
                all == self.updates.deep_view(),
                taken.deep_view() == all.subrange(self.seen as int, i as int),
            decreases self.updates.len() - i,
        {
            let ghost before = taken.deep_view();
            let update = self.updates[i].clone();
            taken.push(update);
            assert(taken.deep_view() == before.push(all[i as int]));
            i += 1;
        }
        self.seen = self.updates.len();
        taken
    }

    /// The events that tell a client of lines of output, with the one that ends
    /// the updates once the build is over. The diagnostics among the lines are
    /// kept.
    pub fn pass_on(&mut self, parsed: Vec<ParsedError<D>>) -> (r: Vec<String>)
        ensures
            r.deep_view() == if old(self).complete {
                update_events(parsed@).push(close_event())
            } else {
                update_events(parsed@)
            },
            final(self).diagnostics@ == old(self).diagnostics@ + diagnostics_in(parsed@),
            final(self).updates == old(self).updates,
            final(self).seen == old(self).seen,
            final(self).complete == old(self).complete,
    {
        let ghost all = parsed@;
        let ghost kept = self.diagnostics@;
        let mut events: Vec<String> = Vec::new();
        let mut rest = parsed;
        let ghost mut done: Seq<ParsedError<D>> = Seq::empty();
        assert(events.deep_view() == update_events(done));
        assert(self.diagnostics@ == kept + diagnostics_in(done));
        while rest.len() > 0
            invariant
                all == done + rest@,
                events.deep_view() == update_events(done),
                self.diagnostics@ == kept + diagnostics_in(done),
                self.updates == old(self).updates,
                self.seen == old(self).seen,
                self.complete == old(self).complete,
            decreases rest.len(),
        {
            let ghost before = events.deep_view();
            let ghost left = rest@;
            let one = rest.remove(0);
            proof {
                let more = done.push(one);
                assert(more.drop_last() == done);
                assert(all == more + rest@);
                done = more;
            }
            match one {
                ParsedError::Diagnostic { diagnostic, json } => {
                    let text = event_text("error", json.as_str());
                    events.push(text);
                    assert(events.deep_view() == before.push(text@));
                    self.diagnostics.push(diagnostic);
                },
                ParsedError::Message(s) => {
                    let json = to_json(s.as_str());
                    let text = event_text("message", json.as_str());
                    events.push(text);
                    assert(events.deep_view() == before.push(text@));
                },
                ParsedError::Error => {},
            }
        }
        assert(done == all);
        if self.complete {
            let ghost before = events.deep_view();
            let text = close_event_text();
            events.push(text);
            assert(events.deep_view() == before.push(text@));
        }
        events
    }

    /// Hands out the diagnostics kept so far, which are then kept no more.
    pub fn take_diagnostics(&mut self) -> (r: Vec<D>)
        ensures
            r == old(self).diagnostics,
            final(self).diagnostics@ == Seq::<D>::empty(),
            final(self).updates == old(self).updates,
            final(self).seen == old(self).seen,
            final(self).complete == old(self).complete,
    {
        let mut taken: Vec<D> = Vec::new();
        std::mem::swap(&mut taken, &mut self.diagnostics);
        taken
    }
}

/// Every update of a build has been passed on or waits to be, never both, and in
/// the order in which the updates came.
pub proof fn law_no_update_is_lost<D>(handler: BuildUpdateHandler<D>)
    requires
        handler.wf(),
    ensures
        handler.updates.deep_view() == told(handler) + waiting(handler),
{
    let all = handler.updates.deep_view();
    assert(all.take(handler.seen as int) + all.skip(handler.seen as int) == all);
}

/// However the output of a build is cut into pieces, the client gets the same
/// events and the same diagnostics are kept.
pub proof fn law_pieces_of_output_add_up<D>(a: Seq<ParsedError<D>>, b: Seq<ParsedError<D>>)
    ensures
        update_events(a + b) == update_events(a) + update_events(b),
        diagnostics_in(a + b) == diagnostics_in(a) + diagnostics_in(b),
    decreases b.len(),
{
    if b.len() == 0 {
        assert(a + b == a);
    } else {
        law_pieces_of_output_add_up(a, b.drop_last());
        assert((a + b).drop_last() == a + b.drop_last());
        assert((a + b).last() == b.last());
    }
}

/// A message is told as an event `message` with its JSON string, a diagnostic as an
/// event `error` with its JSON; anything else is not told. Diagnostics alone are
/// kept.
pub proof fn law_each_line_is_told_by_what_it_is<D>(
    before: Seq<ParsedError<D>>,
    diagnostic: D,
    json: String,
    message: String,
)
    ensures
        ({
            let one = ParsedError::Diagnostic { diagnostic, json };
            &&& update_events(before.push(one)) == update_events(before).push(
                event("error"@, json@),
            )
            &&& diagnostics_in(before.push(one)) == diagnostics_in(before).push(diagnostic)
        }),
        update_events(before.push(ParsedError::Message(message))) == update_events(before).push(
            event("message"@, json_string(message@)),
        ),
        diagnostics_in(before.push(ParsedError::Message(message))) == diagnostics_in(before),
        update_events(before.push(ParsedError::Error)) == update_events(before),
        diagnostics_in(before.push(ParsedError::Error)) == diagnostics_in(before),
        update_events(Seq::<ParsedError<D>>::empty()) == Seq::<Seq<char>>::empty(),
        diagnostics_in(Seq::<ParsedError<D>>::empty()) == Seq::<D>::empty(),
{
    assert(before.push(ParsedError::Diagnostic { diagnostic, json }).drop_last() == before);
    assert(before.push(ParsedError::Message(message)).drop_last() == before);
    assert(before.push(ParsedError::Error).drop_last() == before);
}

/// The updates passed on are the first ones, and those that wait are the others.
pub proof fn law_updates_are_told_from_the_first_on<D>(handler: BuildUpdateHandler<D>, i: int)
    requires
        handler.wf(),
        0 <= i < handler.updates.len(),
    ensures
        told(handler).len() == handler.seen,
        waiting(handler).len() == handler.updates.len() - handler.seen,
        i < handler.seen ==> told(handler)[i] == handler.updates[i]@,
        i >= handler.seen ==> waiting(handler)[i - handler.seen] == handler.updates[i]@,
{
    assert(handler.updates.deep_view().len() == handler.updates.len());
    assert(handler.updates.deep_view()[i] == handler.updates[i]@);
}

} // verus!
