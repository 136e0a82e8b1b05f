//! The two message families that cross the room's boundary, and the exact
//! text of every line the room renders.

use vstd::prelude::*;
use vstd::string::StringExecFns;

verus! {

/// What a delivery message is, as mathematics.
pub enum MsgView {
    /// Deliver to every subscriber except the given connection.
    AllBut(usize, Seq<char>),
    /// Deliver to the given connection only.
    Only(usize, Seq<char>),
}

/// A rendered line from the room to the sessions, with its addressing.
#[derive(Clone, Debug)]
pub enum Msg {
    /// Deliver to every user but `id`.
    All { id: usize, text: String },
    /// Deliver to only user `id`.
    One { id: usize, text: String },
}

impl View for Msg {
    type V = MsgView;

    open spec fn view(&self) -> MsgView {
        match self {
            Msg::All { id, text } => MsgView::AllBut(*id, text@),
            Msg::One { id, text } => MsgView::Only(*id, text@),
        }
    }
}

/// What an inbound session event is, as mathematics.
pub enum EvtView {
    Text(usize, Seq<char>),
    Leave(usize),
    Arrive(usize, Seq<char>),
}

/// An action a session reports to the room.
#[derive(Clone, Debug)]
pub enum Evt {
    /// A line of text from connection `id`, terminator included.
    Text { id: usize, text: String },
    /// Connection `id` has gone.
    Leave(usize),
    /// Connection `id` joins under `name`.
    Arrive { id: usize, name: String },
}

impl View for Evt {
    type V = EvtView;

    open spec fn view(&self) -> EvtView {
        match self {
            Evt::Text { id, text } => EvtView::Text(*id, text@),
            Evt::Leave(id) => EvtView::Leave(*id),
            Evt::Arrive { id, name } => EvtView::Arrive(*id, name@),
        }
    }
}

/// The text that message `m` puts on connection `me`, if it is meant for it.
pub open spec fn delivered_to(m: MsgView, me: usize) -> Option<Seq<char>> {
    match m {
        MsgView::AllBut(x, t) => if x != me {
            Some(t)
        } else {
            None
        },
        MsgView::Only(x, t) => if x == me {
            Some(t)
        } else {
            None
        },
    }
}

/// The views of a sequence of messages, in order.
pub open spec fn views_of(ms: Seq<Msg>) -> Seq<MsgView> {
    ms.map_values(|m: Msg| m@)
}

/// The broadcast announcing that `name` has joined.
pub open spec fn joins_line(name: Seq<char>) -> Seq<char> {
    name + " joins.\n"@
}

/// The broadcast announcing that `name` has left.
pub open spec fn leaves_line(name: Seq<char>) -> Seq<char> {
    name + " leaves.\n"@
}

/// The broadcast of `text` (terminator included) said by `name`.
pub open spec fn said_line(name: Seq<char>, text: Seq<char>) -> Seq<char> {
    "["@ + name + "] "@ + text
}

/// `names` separated by a comma and a space.
pub open spec fn comma_list(names: Seq<Seq<char>>) -> Seq<char>
    decreases names.len(),
{
    if names.len() == 0 {
        Seq::empty()
    } else if names.len() == 1 {
        names[0]
    } else {
        comma_list(names.drop_last()) + ", "@ + names.last()
    }
}

/// The roster sent to a newcomer, listing `names` in order.
pub open spec fn roster_line(names: Seq<Seq<char>>) -> Seq<char> {
    "Also here: "@ + comma_list(names) + "\n"@
}

impl Msg {
    /// The line this message writes on connection `me`, or `None` where the
    /// receiver must discard it.
    pub fn text_for(&self, me: usize) -> (r: Option<String>)
        ensures
            r is Some <==> delivered_to(self@, me) is Some,
            r is Some ==> r->Some_0@ == delivered_to(self@, me)->Some_0,
    {
        match self {
            Msg::All { id, text } => if *id != me {
                Some(text.clone())
            } else {
                None
            },
            Msg::One { id, text } => if *id == me {
                Some(text.clone())
            } else {
                None
            },
        }
    }
}

/// Render the broadcast announcing that `name` has joined.
pub fn joins_text(name: &str) -> (r: String)
    ensures
        r@ == joins_line(name@),
{
    let mut s = name.to_owned();
    s.append(" joins.\n");
    s
}

/// Render the broadcast announcing that `name` has left.
pub fn leaves_text(name: &str) -> (r: String)
    ensures
        r@ == leaves_line(name@),
{
    let mut s = name.to_owned();
    s.append(" leaves.\n");
    s
}

/// Render `text` said by `name`.
pub fn said_text(name: &str, text: &str) -> (r: String)
    ensures
        r@ == said_line(name@, text@),
{
    let mut s = String::from_str("[");
    s.append(name);
    s.append("] ");
    s.append(text);
    s
}

/// Render the roster listing `names` in order.
pub fn roster_text(names: &Vec<&str>) -> (r: String)
    ensures
        r@ == roster_line(names@.map_values(|n: &str| n@)),
{
    let ghost views = names@.map_values(|n: &str| n@);
    let mut list = String::new();
    let mut i: usize = 0;
    while i < names.len()
        invariant
            i <= names.len(),
            views == names@.map_values(|n: &str| n@),
            list@ == comma_list(views.take(i as int)),
        decreases names.len() - i,
    {
        if i > 0 {
            list.append(", ");
        }
        list.append(names[i]);
        proof {
            let next = views.take(i + 1);
            assert(next.drop_last() =~= views.take(i as int));
            assert(next.last() == names@[i as int]@);
            if i == 0 {
                assert(comma_list(next) == next[0]);
            }
        }
        i += 1;
    }
    assert(views.take(names.len() as int) =~= views);
    let mut s = String::from_str("Also here: ");
    s.append(list.as_str());
    s.append("\n");
    s
}

} // verus!
