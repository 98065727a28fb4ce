//! Turning accepted events into plain text.
use vstd::prelude::*;

use crate::filter::Filter;
use crate::reader::{EventResult, EventView, MessageEvent};

verus! {

/// Writes the bodies of the kept messages one after another, each followed by
/// `delimiter`.
pub struct TextWriter {
    pub delimiter: String,
}

/// The text assembled so far, and whether the message being read has body text
/// that still awaits its delimiter.
pub struct TextOutput {
    pub text: String,
    pub open: bool,
}

/// Relies on `String::push_str`: `t` is appended to `s`.
#[verifier::external_body]
fn append(s: &mut String, t: &str)
    ensures
        final(s)@ == old(s)@ + t@,
{
    s.push_str(t);
}

impl TextOutput {
    /// Nothing written yet.
    pub fn new() -> (r: TextOutput)
        ensures
            r.text@ == Seq::<char>::empty(),
            !r.open,
    {
        TextOutput { text: String::new(), open: false }
    }
}

impl TextWriter {
    /// The output after `e` has reached the writer: a start closes the previous
    /// message's body with the delimiter, and a non-empty body part is appended.
    pub open spec fn absorbed(self, text: Seq<char>, open: bool, e: EventView) -> (Seq<char>, bool) {
        match e {
            EventView::Start(_) => if open {
                (text + self.delimiter@, false)
            } else {
                (text, false)
            },
            EventView::BodyPart(b) => if b.len() > 0 {
                (text + b, true)
            } else {
                (text, open)
            },
            _ => (text, open),
        }
    }

    /// The reducer of a text export: an event that `filter` rejects skips the
    /// message and leaves the output as it is; any other is absorbed. The reducer
    /// protocol has no failure answer, so a date the filter cannot compare
    /// skips its message too.
    pub fn absorb(&self, filter: &Filter, acc: TextOutput, event: MessageEvent) -> (r: EventResult<TextOutput>)
        ensures
            !(filter.judges(event@) && filter.passes(event@)) ==> (r matches EventResult::SkipMessage(o) && o == acc),
            filter.judges(event@) && filter.passes(event@) ==> (r matches EventResult::Consumed(o)
                && (o.text@, o.open) == self.absorbed(acc.text@, acc.open, event@)),
    {
        let ghost ev = event@;
        match filter.screen_event(event) {
            Err(_) | Ok(None) => EventResult::SkipMessage(acc),
            Ok(Some(e)) => {
                let mut acc = acc;
                match e {
                    MessageEvent::Start(_) => {
                        if acc.open {
                            append(&mut acc.text, self.delimiter.as_str());
                        }
                        acc.open = false;
                    },
                    MessageEvent::BodyPartExtracted(body) => {
                        let v = body.as_str();
                        if !v.is_empty() {
                            append(&mut acc.text, v);
                            acc.open = true;
                        }
                    },
                    _ => {},
                }
                EventResult::Consumed(acc)
            },
        }
    }

    /// The finished text: the last message's body gets its delimiter too.
    pub fn finish(&self, acc: TextOutput) -> (r: String)
        ensures
            r@ == (if acc.open {
                acc.text@ + self.delimiter@
            } else {
                acc.text@
            }),
    {
        let mut acc = acc;
        if acc.open {
            append(&mut acc.text, self.delimiter.as_str());
        }
        acc.text
    }
}

} // verus!
