//! What a model response stream delivers, and how a response is gathered from it.
use vstd::prelude::*;

use crate::context::{item_views, Item, ItemView};
use crate::error::Error;

verus! {

/// Tokens a response consumed, as the provider reports them.
#[derive(Debug, Clone, Copy, Default, PartialEq, Eq)]
pub struct Usage {
    pub input_tokens: u32,
    pub output_tokens: u32,
    pub total_tokens: u32,
    pub cached_input_tokens: u32,
}

/// One event of a response stream.
#[derive(Debug, Clone, PartialEq, Eq)]
pub enum Event {
    /// A piece of the response's text.
    TextDelta(String),
    /// A finished output item, kept for the context.
    OutputItem(Item),
    /// The response is complete.
    Done { usage: Usage },
}

/// An event as a value.
pub enum EventView {
    TextDelta(Seq<char>),
    OutputItem(ItemView),
    Done { usage: Usage },
}

impl View for Event {
    type V = EventView;

    open spec fn view(&self) -> EventView {
        match self {
            Event::TextDelta(t) => EventView::TextDelta(t@),
            Event::OutputItem(i) => EventView::OutputItem(i@),
            Event::Done { usage } => EventView::Done { usage: *usage },
        }
    }
}

/// A response gathered so far: the text, the output items and, once the stream said
/// so, the usage.
pub struct Gathered {
    pub text: Seq<char>,
    pub output: Seq<ItemView>,
    pub usage: Option<Usage>,
}

/// What the events `events` gather to: the text deltas joined in order, the output
/// items in order, and the usage of the last `Done` event.
pub open spec fn gather(events: Seq<EventView>) -> Gathered
    decreases events.len(),
{
    if events.len() == 0 {
        Gathered { text: seq![], output: seq![], usage: None }
    } else {
        let g = gather(events.drop_last());
        match events.last() {
            EventView::TextDelta(t) => Gathered { text: g.text + t, ..g },
            EventView::OutputItem(i) => Gathered { output: g.output.push(i), ..g },
            EventView::Done { usage } => Gathered { usage: Some(usage), ..g },
        }
    }
}

/// The message of the error for a stream that ended without completing.
pub open spec fn incomplete_message() -> Seq<char> {
    "response stream ended before completion"@
}

/// Gathers a response from the events of its stream, one at a time.
pub struct ResponseCollector {
    pub text: String,
    pub output: Vec<Item>,
    pub usage: Option<Usage>,
    pub seen: Ghost<Seq<EventView>>,
}

impl ResponseCollector {
    /// The collector holds what its events gather to.
    pub open spec fn consistent(&self) -> bool {
        let g = gather(self.seen@);
        &&& self.text@ == g.text
        &&& item_views(self.output@) == g.output
        &&& self.usage == g.usage
    }

    /// A collector that has seen nothing.
    pub fn new() -> (c: ResponseCollector)
        ensures
            c.consistent(),
            c.seen@ == Seq::<EventView>::empty(),
    {
        let c = ResponseCollector {
            text: String::new(),
            output: Vec::new(),
            usage: None,
            seen: Ghost(Seq::empty()),
        };
        proof {
            assert(item_views(c.output@) =~= Seq::<ItemView>::empty());
        }
        c
    }

    /// Takes in the next event of the stream.
    pub fn feed(&mut self, event: Event)
        requires
            old(self).consistent(),
        ensures
            final(self).consistent(),
            final(self).seen@ == old(self).seen@.push(event@),
    {
        let ghost before = self.seen@;
        let ghost ev = event@;
        proof {
            assert(before.push(ev).drop_last() =~= before);
        }
        match event {
            Event::TextDelta(delta) => {
                self.text.append(delta.as_str());
            },
            Event::OutputItem(item) => {
                let ghost old_output = self.output@;
                self.output.push(item);
                proof {
                    assert(item_views(self.output@) =~= item_views(old_output).push(ev->OutputItem_0));
                }
            },
            Event::Done { usage } => {
                self.usage = Some(usage);
            },
        }
        self.seen = Ghost(before.push(ev));
    }

    /// The finished response: its text, its output items and its usage. A stream that
    /// ended without a `Done` event is an error.
    pub fn finish(self) -> (r: Result<(String, Vec<Item>, Usage), Error>)
        requires
            self.consistent(),
        ensures
            match gather(self.seen@).usage {
                Some(u) => r matches Ok((text, output, usage)) && text@ == gather(self.seen@).text
                    && item_views(output@) == gather(self.seen@).output && usage == u,
                None => r matches Err(Error::Model(m)) && m@ == incomplete_message(),
            },
    {
        match self.usage {
            Some(u) => Ok((self.text, self.output, u)),
            None => Err(Error::Model(String::from_str("response stream ended before completion"))),
        }
    }
}

/// A stream can be gathered in two parts: the text of the whole is the text of the
/// first part followed by the text of the second, the output items likewise, and the
/// usage is the second part's if it has one, else the first's. So a text delta adds
/// its text after what came before, and other events leave the text as it is.
pub proof fn lemma_gather_concat(a: Seq<EventView>, b: Seq<EventView>)
    ensures
        gather(a + b).text == gather(a).text + gather(b).text,
        gather(a + b).output == gather(a).output + gather(b).output,
        gather(a + b).usage == (if gather(b).usage is Some {
            gather(b).usage
        } else {
            gather(a).usage
        }),
    decreases b.len(),
{
    if b.len() == 0 {
        assert(a + b =~= a);
        assert(gather(a).text + gather(b).text =~= gather(a).text);
        assert(gather(a).output + gather(b).output =~= gather(a).output);
    } else {
        lemma_gather_concat(a, b.drop_last());
        assert((a + b).drop_last() =~= a + b.drop_last());
        assert((a + b).last() == b.last());
        let ga = gather(a);
        let gb = gather(b.drop_last());
        match b.last() {
            EventView::TextDelta(t) => {
                assert(ga.text + (gb.text + t) =~= (ga.text + gb.text) + t);
            },
            EventView::OutputItem(i) => {
                assert(ga.output + gb.output.push(i) =~= (ga.output + gb.output).push(i));
            },
            EventView::Done { usage } => {},
        }
    }
}

/// The text of a stream is its text deltas joined in order: a delta adds exactly its
/// text at the end, and any other event adds none.
pub proof fn lemma_gather_text_step(events: Seq<EventView>, e: EventView)
    ensures
        gather(events.push(e)).text == gather(events).text + (match e {
            EventView::TextDelta(t) => t,
            _ => Seq::<char>::empty(),
        }),
{
    assert(events.push(e).drop_last() =~= events);
    match e {
        EventView::TextDelta(t) => {},
        _ => {
            assert(gather(events).text + Seq::<char>::empty() =~= gather(events).text);
        },
    }
}

} // verus!
