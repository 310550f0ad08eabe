//! The life of a virtual output, as the compositor reports it.
use vstd::prelude::*;

verus! {

/// How long the compositor may take to create an output, in nanoseconds.
pub const CREATE_TIMEOUT_NS: u128 = 5_000_000_000;

/// How the pointer shows in the stream.
#[derive(Clone, Copy, Debug, PartialEq, Eq, Structural)]
pub enum Pointer {
    Hidden,
    Embedded,
    Metadata,
}

/// The number that stands for a way to show the pointer.
pub open spec fn pointer_wire(pointer: Pointer) -> u32 {
    match pointer {
        Pointer::Hidden => 1,
        Pointer::Embedded => 2,
        Pointer::Metadata => 4,
    }
}

/// Each way to show the pointer has a bit of its own, from the lowest on.
pub proof fn pointers_have_a_bit_each(a: Pointer, b: Pointer)
    ensures
        pointer_wire(a) == pointer_wire(b) <==> a == b,
        pointer_wire(Pointer::Embedded) == 2 * pointer_wire(Pointer::Hidden),
        pointer_wire(Pointer::Metadata) == 2 * pointer_wire(Pointer::Embedded),
        pointer_wire(Pointer::Hidden) == 1,
{
}

impl Pointer {
    /// The number that stands for it in the compositor's protocol.
    pub fn wire(self) -> (r: u32)
        ensures
            r == pointer_wire(self),
    {
        match self {
            Pointer::Hidden => 1,
            Pointer::Embedded => 2,
            Pointer::Metadata => 4,
        }
    }
}

/// A report of the compositor on the stream of a virtual output.
pub enum StreamEvent {
    /// The stream comes from this node.
    Created(u32),
    /// There will be none; why, in words.
    Failed(String),
    Closed,
    /// A report of no concern here.
    Other,
}

/// What is known of a virtual output.
pub struct Shared {
    pub node: Option<u32>,
    pub failed: Option<String>,
    pub closed: bool,
}

/// What is to be made of a virtual output that was asked for.
pub enum Creation {
    /// Its stream comes from this node.
    Ready(u32),
    /// It will not come; why, in words.
    Failed(String),
    /// Wait for the next report.
    Wait,
}

/// What is known after a report.
pub open spec fn noted(s: Shared, event: StreamEvent) -> Shared {
    match event {
        StreamEvent::Created(node) => Shared { node: Some(node), ..s },
        StreamEvent::Failed(why) => Shared { failed: Some(why), ..s },
        StreamEvent::Closed => Shared { closed: true, ..s },
        StreamEvent::Other => s,
    }
}

/// What is made of an output that was asked for `elapsed_ns` ago: its node, why it will not come, or
/// nothing yet.
pub open spec fn made_of(s: Shared, elapsed_ns: u128) -> Option<Result<u32, Seq<char>>> {
    if s.node is Some {
        Some(Ok(s.node->0))
    } else if s.failed is Some {
        Some(Err("virtual output creation failed: "@ + s.failed->0@))
    } else if s.closed {
        Some(Err("stream closed before it was created"@))
    } else if elapsed_ns > CREATE_TIMEOUT_NS {
        Some(Err("timed out waiting for KWin to create the virtual output"@))
    } else {
        None
    }
}

/// A report changes what it is about and nothing else.
pub proof fn reports_are_noted(s: Shared, event: StreamEvent)
    ensures
        noted(s, event).closed <==> s.closed || event is Closed,
        event matches StreamEvent::Created(node) ==> noted(s, event).node == Some(node),
        !(event is Created) ==> noted(s, event).node == s.node,
        event matches StreamEvent::Failed(why) ==> noted(s, event).failed == Some(why),
        !(event is Failed) ==> noted(s, event).failed == s.failed,
        event is Other ==> noted(s, event) == s,
{
}

/// An output that was created is used, however long that took and whatever was reported besides.
pub proof fn created_outputs_are_used(
    s: Shared,
    node: u32,
    event: StreamEvent,
    elapsed_ns: u128,
)
    requires
        !(event is Created),
    ensures
        made_of(noted(s, StreamEvent::Created(node)), elapsed_ns) == Some(
            Ok::<u32, Seq<char>>(node),
        ),
        made_of(noted(noted(s, StreamEvent::Created(node)), event), elapsed_ns) == Some(
            Ok::<u32, Seq<char>>(node),
        ),
{
}

/// An output of which no node is known is waited for during five seconds, unless the compositor has
/// refused it or taken it away; a refusal is handed on with its reason. What has failed once does not
/// come any more as time goes by.
pub proof fn outputs_get_five_seconds(s: Shared, elapsed_ns: u128, later_ns: u128)
    requires
        s.node is None,
        elapsed_ns <= later_ns,
    ensures
        made_of(s, elapsed_ns) is None <==> s.failed is None && !s.closed && elapsed_ns
            <= 5_000_000_000,
        !(made_of(s, elapsed_ns) matches Some(Ok(_))),
        s.failed matches Some(reason) ==> (made_of(s, elapsed_ns) matches Some(Err(why))
            && reason@.is_suffix_of(why)),
        made_of(s, elapsed_ns) is Some ==> made_of(s, later_ns) == made_of(s, elapsed_ns),
{
}

impl Shared {
    /// Nothing is known yet.
    pub fn new() -> (r: Self)
        ensures
            r.node is None,
            r.failed is None,
            !r.closed,
    {
        Shared { node: None, failed: None, closed: false }
    }

    /// Takes note of a report.
    pub fn note(&mut self, event: StreamEvent)
        ensures
            *final(self) == noted(*old(self), event),
    {
        match event {
            StreamEvent::Created(node) => {
                self.node = Some(node);
            },
            StreamEvent::Failed(why) => {
                self.failed = Some(why);
            },
            StreamEvent::Closed => {
                self.closed = true;
            },
            StreamEvent::Other => {},
        }
    }

    /// Whether the compositor has taken the output away.
    pub fn is_closed(&self) -> (r: bool)
        ensures
            r == self.closed,
    {
        self.closed
    }

    /// What is to be made of an output that was asked for `elapsed_ns` ago. A node counts before a
    /// failure, a failure before the end of the stream, and that before the time.
    pub fn creation(&self, elapsed_ns: u128) -> (r: Creation)
        ensures
            made_of(*self, elapsed_ns) == (match r {
                Creation::Ready(node) => Some(Ok::<u32, Seq<char>>(node)),
                Creation::Failed(why) => Some(Err::<u32, Seq<char>>(why@)),
                Creation::Wait => None,
            }),
    {
        if let Some(node) = self.node {
            return Creation::Ready(node);
        }
        if let Some(e) = &self.failed {
            let mut why = "virtual output creation failed: ".to_owned();
            why.append(e.as_str());
            return Creation::Failed(why);
        }
        if self.closed {
            return Creation::Failed("stream closed before it was created".to_owned());
        }
        if elapsed_ns > CREATE_TIMEOUT_NS {
            return Creation::Failed(
                "timed out waiting for KWin to create the virtual output".to_owned(),
            );
        }
        Creation::Wait
    }
}

} // verus!
