//! The room: sole owner of the membership table. It takes inbound events one
//! at a time and decides, for each, the outbound lines and the new table.

use vstd::prelude::*;
use crate::name::valid_name;
use crate::message::{
    delivered_to, joins_line, joins_text, leaves_line, leaves_text, roster_line, roster_text, said_line, said_text,
    views_of, Evt, EvtView, Msg, MsgView,
};

verus! {

/// The membership table as mathematics: (connection id, display name) pairs
/// in order of arrival.
pub type Members = Seq<(usize, Seq<char>)>;

/// No connection id appears twice.
pub open spec fn ids_unique(ms: Members) -> bool {
    forall|i: int, j: int| 0 <= i < j < ms.len() ==> ms[i].0 != ms[j].0
}

/// Connection `id` is a member.
pub open spec fn present(ms: Members, id: usize) -> bool {
    exists|i: int| 0 <= i < ms.len() && ms[i].0 == id
}

/// The place of member `id` (meaningful where it is present).
pub open spec fn index_of(ms: Members, id: usize) -> int {
    choose|i: int| 0 <= i < ms.len() && ms[i].0 == id
}

/// The display names, in order of arrival.
pub open spec fn names(ms: Members) -> Seq<Seq<char>> {
    ms.map_values(|m: (usize, Seq<char>)| m.1)
}

/// Why the room refuses an event: each one is a defect upstream.
#[derive(Clone, Copy, Debug, PartialEq, Eq, Structural)]
pub enum RoomError {
    /// The event names a connection that is not (or no longer) a member.
    Unknown(usize),
    /// An arrival names a connection that is already a member.
    AlreadyPresent(usize),
}

/// What the room does with event `e` on table `ms`: the new table and the
/// outbound messages in the order they are published, or `None` where the
/// event contradicts the table.
pub open spec fn room_step(ms: Members, e: EvtView) -> Option<(Members, Seq<MsgView>)> {
    match e {
        EvtView::Arrive(id, name) => if present(ms, id) {
            None
        } else {
            Some(
                (
                    ms.push((id, name)),
                    seq![MsgView::AllBut(id, joins_line(name)), MsgView::Only(id, roster_line(names(ms)))],
                ),
            )
        },
        EvtView::Text(id, text) => if present(ms, id) {
            Some((ms, seq![MsgView::AllBut(id, said_line(ms[index_of(ms, id)].1, text))]))
        } else {
            None
        },
        EvtView::Leave(id) => if present(ms, id) {
            let i = index_of(ms, id);
            Some((ms.remove(i), seq![MsgView::AllBut(id, leaves_line(ms[i].1))]))
        } else {
            None
        },
    }
}

/// The error the room reports for event `e` where `room_step` gives `None`.
pub open spec fn step_error(e: EvtView) -> RoomError {
    match e {
        EvtView::Arrive(id, _) => RoomError::AlreadyPresent(id),
        EvtView::Text(id, _) => RoomError::Unknown(id),
        EvtView::Leave(id) => RoomError::Unknown(id),
    }
}

/// The membership table of the chat room.
pub struct Room {
    users: Vec<(usize, String)>,
}

impl View for Room {
    type V = Members;

    closed spec fn view(&self) -> Members {
        self.users@.map_values(|u: (usize, String)| (u.0, u.1@))
    }
}

proof fn lemma_index_of(ms: Members, id: usize, k: int)
    requires
        ids_unique(ms),
        0 <= k < ms.len(),
        ms[k].0 == id,
    ensures
        present(ms, id),
        index_of(ms, id) == k,
{
    assert(ms[k].0 == id);
    let i = index_of(ms, id);
    assert(0 <= i < ms.len() && ms[i].0 == id);
}

impl Room {
    /// Each connection holds at most one entry.
    pub open spec fn wf(&self) -> bool {
        ids_unique(self@)
    }

    /// An empty room.
    pub fn new() -> (r: Room)
        ensures
            r.wf(),
            r@ == Seq::<(usize, Seq<char>)>::empty(),
    {
        let r = Room { users: Vec::new() };
        assert(r@ =~= Seq::<(usize, Seq<char>)>::empty());
        r
    }

    /// Where member `id` stands in the table, if it is there.
    fn position(&self, id: usize) -> (r: Option<usize>)
        requires
            self.wf(),
        ensures
            r is Some <==> present(self@, id),
            r is Some ==> r->Some_0 < self@.len() && r->Some_0 == index_of(self@, id),
    {
        let mut i: usize = 0;
        while i < self.users.len()
            invariant
                i <= self.users.len(),
                self.wf(),
                forall|j: int| 0 <= j < i ==> self@[j].0 != id,
            decreases self.users.len() - i,
        {
            if self.users[i].0 == id {
                proof {
                    lemma_index_of(self@, id, i as int);
                }
                return Some(i);
            }
            i += 1;
        }
        None
    }

    /// The roster line listing every current member's name in order.
    fn name_list(&self) -> (r: String)
        ensures
            r@ == roster_line(names(self@)),
    {
        let mut list: Vec<&str> = Vec::new();
        let mut i: usize = 0;
        while i < self.users.len()
            invariant
                i <= self.users.len(),
                list@.len() == i,
                forall|j: int| 0 <= j < i ==> #[trigger] list@[j]@ == names(self@)[j],
            decreases self.users.len() - i,
        {
            let ghost before = list@;
            let n = self.users[i].1.as_str();
            list.push(n);
            assert(names(self@)[i as int] == n@);
            assert(list@ == before.push(n));
            i += 1;
        }
        assert(list@.map_values(|n: &str| n@) =~= names(self@));
        roster_text(&list)
    }

    /// Handle one inbound event: update the table and return the messages
    /// to publish, in order. An event that contradicts the table is refused
    /// and leaves the table as it was.
    pub fn step(&mut self, evt: Evt) -> (r: Result<Vec<Msg>, RoomError>)
        requires
            old(self).wf(),
        ensures
            final(self).wf(),
            match room_step(old(self)@, evt@) {
                Some((ms, out)) => r is Ok && final(self)@ == ms && views_of(r->Ok_0@) == out,
                None => r is Err && r->Err_0 == step_error(evt@) && final(self)@ == old(self)@,
            },
    {
        match evt {
            Evt::Arrive { id, name } => {
                if self.position(id).is_some() {
                    return Err(RoomError::AlreadyPresent(id));
                }
                let joins = Msg::All { id, text: joins_text(name.as_str()) };
                let roster = Msg::One { id, text: self.name_list() };
                self.users.push((id, name));
                let out = vec![joins, roster];
                assert(self@ =~= old(self)@.push((id, evt@->Arrive_1)));
                assert(views_of(out@) =~= room_step(old(self)@, evt@)->Some_0.1);
                Ok(out)
            },
            Evt::Text { id, text } => {
                match self.position(id) {
                    None => Err(RoomError::Unknown(id)),
                    Some(i) => {
                        let line = said_text(self.users[i].1.as_str(), text.as_str());
                        let out = vec![Msg::All { id, text: line }];
                        assert(views_of(out@) =~= room_step(old(self)@, evt@)->Some_0.1);
                        Ok(out)
                    },
                }
            },
            Evt::Leave(id) => {
                match self.position(id) {
                    None => Err(RoomError::Unknown(id)),
                    Some(i) => {
                        let (_, name) = self.users.remove(i);
                        let out = vec![Msg::All { id, text: leaves_text(name.as_str()) }];
                        assert(self@ =~= old(self)@.remove(i as int));
                        assert(views_of(out@) =~= room_step(old(self)@, evt@)->Some_0.1);
                        Ok(out)
                    },
                }
            },
        }
    }
}

/// A newcomer to a room that has just had `first` and then `second` join
/// receives a roster that lists exactly those two names, in join order.
pub proof fn roster_lists_joiners_in_order(
    id1: usize,
    n1: Seq<char>,
    id2: usize,
    n2: Seq<char>,
    id3: usize,
    n3: Seq<char>,
)
    requires
        valid_name(n1),
        valid_name(n2),
        valid_name(n3),
        n1 != n2,
        id1 != id2,
        id1 != id3,
        id2 != id3,
    ensures
        ({
            let e = Seq::<(usize, Seq<char>)>::empty();
            let a = room_step(e, EvtView::Arrive(id1, n1));
            let b = room_step(a->Some_0.0, EvtView::Arrive(id2, n2));
            let c = room_step(b->Some_0.0, EvtView::Arrive(id3, n3));
            &&& a is Some && b is Some && c is Some
            &&& c->Some_0.1[1] == MsgView::Only(id3, roster_line(seq![n1, n2]))
        }),
{
    let e = Seq::<(usize, Seq<char>)>::empty();
    let ms1 = e.push((id1, n1));
    let ms2 = ms1.push((id2, n2));
    assert(!present(e, id1));
    assert(!present(ms1, id2)) by {
        assert(ms1.len() == 1 && ms1[0].0 == id1);
    }
    assert(!present(ms2, id3)) by {
        assert(ms2.len() == 2 && ms2[0].0 == id1 && ms2[1].0 == id2);
    }
    assert(names(ms2) =~= seq![n1, n2]);
}

/// Two clients may join under the same display name: both arrivals succeed
/// and the roster a later newcomer receives lists the name twice.
pub proof fn duplicate_names_are_allowed(
    id1: usize,
    id2: usize,
    n: Seq<char>,
    id3: usize,
    n3: Seq<char>,
)
    requires
        valid_name(n),
        valid_name(n3),
        id1 != id2,
        id1 != id3,
        id2 != id3,
    ensures
        ({
            let e = Seq::<(usize, Seq<char>)>::empty();
            let a = room_step(e, EvtView::Arrive(id1, n));
            let b = room_step(a->Some_0.0, EvtView::Arrive(id2, n));
            let c = room_step(b->Some_0.0, EvtView::Arrive(id3, n3));
            &&& a is Some && b is Some && c is Some
            &&& names(b->Some_0.0) == seq![n, n]
            &&& c->Some_0.1[1] == MsgView::Only(id3, roster_line(seq![n, n]))
        }),
{
    let e = Seq::<(usize, Seq<char>)>::empty();
    let ms1 = e.push((id1, n));
    let ms2 = ms1.push((id2, n));
    assert(!present(e, id1));
    assert(!present(ms1, id2)) by {
        assert(ms1.len() == 1 && ms1[0].0 == id1);
    }
    assert(!present(ms2, id3)) by {
        assert(ms2.len() == 2 && ms2[0].0 == id1 && ms2[1].0 == id2);
    }
    assert(names(ms2) =~= seq![n, n]);
}

/// A line of text from member `k` reaches every other member as
/// `[name] text`, and is never delivered back to its sender.
pub proof fn text_reaches_everyone_but_sender(ms: Members, k: int, text: Seq<char>)
    requires
        ids_unique(ms),
        0 <= k < ms.len(),
    ensures
        ({
            let r = room_step(ms, EvtView::Text(ms[k].0, text));
            &&& r is Some
            &&& r->Some_0.0 == ms
            &&& r->Some_0.1.len() == 1
            &&& delivered_to(r->Some_0.1[0], ms[k].0) is None
            &&& forall|j: int|
                0 <= j < ms.len() && j != k ==> delivered_to(r->Some_0.1[0], #[trigger] ms[j].0)
                    == Some(said_line(ms[k].1, text))
        }),
{
    lemma_index_of(ms, ms[k].0, k);
}

/// When member `k` leaves, every remaining member is told `name leaves.`,
/// the table no longer holds it, and the roster of a later newcomer lists
/// the remaining names only; where no other member shares the departed
/// name, that name is absent from it.
pub proof fn departure_is_announced_and_forgotten(
    ms: Members,
    k: int,
    newcomer: usize,
    name: Seq<char>,
)
    requires
        ids_unique(ms),
        0 <= k < ms.len(),
        forall|j: int| 0 <= j < ms.len() && j != k ==> #[trigger] ms[j].0 != newcomer,
    ensures
        ({
            let gone = ms[k];
            let r = room_step(ms, EvtView::Leave(gone.0));
            let rest = ms.remove(k);
            let a = room_step(rest, EvtView::Arrive(newcomer, name));
            &&& r is Some
            &&& r->Some_0.0 == rest
            &&& !present(rest, gone.0)
            &&& r->Some_0.1 == seq![MsgView::AllBut(gone.0, leaves_line(gone.1))]
            &&& forall|j: int|
                0 <= j < ms.len() && j != k ==> delivered_to(r->Some_0.1[0], #[trigger] ms[j].0)
                    == Some(leaves_line(gone.1))
            &&& a is Some
            &&& a->Some_0.1[1] == MsgView::Only(newcomer, roster_line(names(rest)))
            &&& names(rest) == names(ms).remove(k)
            &&& (forall|j: int| 0 <= j < ms.len() && j != k ==> #[trigger] ms[j].1 != gone.1)
                ==> !names(rest).contains(gone.1)
        }),
{
    let gone = ms[k];
    let rest = ms.remove(k);
    lemma_index_of(ms, gone.0, k);
    assert forall|i: int| 0 <= i < rest.len() implies rest[i].0 != gone.0 by {
        if i < k {
            assert(rest[i] == ms[i]);
        } else {
            assert(rest[i] == ms[i + 1]);
        }
    }
    assert forall|i: int| 0 <= i < rest.len() implies rest[i].0 != newcomer by {
        if i < k {
            assert(rest[i] == ms[i]);
        } else {
            assert(rest[i] == ms[i + 1]);
        }
    }
    assert(names(rest) =~= names(ms).remove(k));
    if forall|j: int| 0 <= j < ms.len() && j != k ==> #[trigger] ms[j].1 != gone.1 {
        if names(rest).contains(gone.1) {
            let i = choose|i: int| 0 <= i < names(rest).len() && names(rest)[i] == gone.1;
            if i < k {
                assert(ms[i].1 == gone.1);
            } else {
                assert(ms[i + 1].1 == gone.1);
            }
        }
    }
}

/// The table after the events `es`, handled in order from `ms`, or `None`
/// where the room refuses one of them.
pub open spec fn replay(ms: Members, es: Seq<EvtView>) -> Option<Members>
    decreases es.len(),
{
    if es.len() == 0 {
        Some(ms)
    } else {
        match replay(ms, es.drop_last()) {
            Some(m) => match room_step(m, es.last()) {
                Some((m2, _)) => Some(m2),
                None => None,
            },
            None => None,
        }
    }
}

/// Handling one more event extends a replay by one `room_step`: the table
/// after successive `Room::step` calls is the replay of their events.
pub proof fn replay_extends(ms: Members, es: Seq<EvtView>, e: EvtView)
    ensures
        replay(ms, es.push(e)) == match replay(ms, es) {
            Some(m) => match room_step(m, e) {
                Some((m2, _)) => Some(m2),
                None => None,
            },
            None => None,
        },
{
    assert(es.push(e).drop_last() =~= es);
}

/// `e` is the arrival of connection `id`.
pub open spec fn arrives(e: EvtView, id: usize) -> bool {
    match e {
        EvtView::Arrive(x, _) => x == id,
        _ => false,
    }
}

proof fn lemma_remove_keeps(ms: Members, i: int, id: usize)
    requires
        ids_unique(ms),
        0 <= i < ms.len(),
    ensures
        ids_unique(ms.remove(i)),
        !present(ms, id) ==> !present(ms.remove(i), id),
        !present(ms.remove(i), ms[i].0),
{
    let r = ms.remove(i);
    assert forall|a: int| 0 <= a < r.len() implies #[trigger] r[a] == (if a < i {
        ms[a]
    } else {
        ms[a + 1]
    }) by {}
    assert forall|a: int, b: int| 0 <= a < b < r.len() implies r[a].0 != r[b].0 by {
        assert(r[a] == (if a < i { ms[a] } else { ms[a + 1] }));
        assert(r[b] == (if b < i { ms[b] } else { ms[b + 1] }));
    }
    if !present(ms, id) {
        assert forall|a: int| 0 <= a < r.len() implies r[a].0 != id by {
            assert(r[a] == (if a < i { ms[a] } else { ms[a + 1] }));
        }
    }
    assert forall|a: int| 0 <= a < r.len() implies r[a].0 != ms[i].0 by {
        assert(r[a] == (if a < i { ms[a] } else { ms[a + 1] }));
    }
}

proof fn lemma_step_keeps(ms: Members, e: EvtView, id: usize)
    requires
        ids_unique(ms),
        room_step(ms, e) is Some,
    ensures
        ids_unique(room_step(ms, e)->Some_0.0),
        !present(ms, id) && !arrives(e, id) ==> !present(room_step(ms, e)->Some_0.0, id),
{
    match e {
        EvtView::Arrive(x, n) => {
            let r = ms.push((x, n));
            assert forall|a: int, b: int| 0 <= a < b < r.len() implies r[a].0 != r[b].0 by {
                if b == ms.len() {
                    assert(ms[a].0 != x);
                }
            }
            if !present(ms, id) && x != id {
                assert forall|a: int| 0 <= a < r.len() implies r[a].0 != id by {
                    if a < ms.len() {
                        assert(r[a] == ms[a]);
                    }
                }
            }
        },
        EvtView::Text(_, _) => {},
        EvtView::Leave(x) => {
            lemma_remove_keeps(ms, index_of(ms, x), id);
        },
    }
}

proof fn lemma_replay_keeps(ms: Members, es: Seq<EvtView>, id: usize)
    requires
        ids_unique(ms),
        replay(ms, es) is Some,
    ensures
        ids_unique(replay(ms, es)->Some_0),
        !present(ms, id) && (forall|t: int| 0 <= t < es.len() ==> !arrives(#[trigger] es[t], id))
            ==> !present(replay(ms, es)->Some_0, id),
    decreases es.len(),
{
    if es.len() > 0 {
        let front = es.drop_last();
        lemma_replay_keeps(ms, front, id);
        let m = replay(ms, front)->Some_0;
        lemma_step_keeps(m, es.last(), id);
        if !present(ms, id) && (forall|t: int| 0 <= t < es.len() ==> !arrives(#[trigger] es[t], id)) {
            assert forall|t: int| 0 <= t < front.len() implies !arrives(#[trigger] front[t], id) by {
                assert(front[t] == es[t]);
            }
            assert(!arrives(es[es.len() - 1], id));
        }
    }
}

/// After member `k` leaves, whatever events follow that are not its own
/// arrival, its entry stays out of the table: a later newcomer's roster
/// lists exactly the names of the members then present.
pub proof fn departed_member_stays_out(
    ms: Members,
    k: int,
    es: Seq<EvtView>,
    newcomer: usize,
    name: Seq<char>,
)
    requires
        ids_unique(ms),
        0 <= k < ms.len(),
        forall|t: int| 0 <= t < es.len() ==> !arrives(#[trigger] es[t], ms[k].0),
        replay(ms.remove(k), es) is Some,
        !present(replay(ms.remove(k), es)->Some_0, newcomer),
    ensures
        ({
            let gone = ms[k];
            let left = room_step(ms, EvtView::Leave(gone.0));
            let cur = replay(ms.remove(k), es)->Some_0;
            let a = room_step(cur, EvtView::Arrive(newcomer, name));
            &&& left is Some && left->Some_0.0 == ms.remove(k)
            &&& !present(cur, gone.0)
            &&& a is Some
            &&& a->Some_0.1[1] == MsgView::Only(newcomer, roster_line(names(cur)))
        }),
{
    let gone = ms[k];
    lemma_index_of(ms, gone.0, k);
    lemma_remove_keeps(ms, k, gone.0);
    lemma_replay_keeps(ms.remove(k), es, gone.0);
}

} // verus!
