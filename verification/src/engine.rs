//! The registry of open connections behind the UI. Connection 0 is always
//! the local file system; protocol connections get consecutive ids as they
//! are opened.

use std::collections::HashMap;

use vstd::prelude::*;

use crate::error::string_from;

verus! {

broadcast use vstd::std_specs::hash::group_hash_axioms;

/// The id of the local file system.
pub const LOCAL_CONN: u32 = 0;

/// Open connections by id; `B` is the connection handle.
pub struct Engine<B> {
    conns: HashMap<u32, B>,
    next_id: u32,
}

/// The mathematical state of an [`Engine`].
pub struct EngineView<B> {
    pub conns: Map<u32, B>,
    pub next_id: u32,
}

impl<B> View for Engine<B> {
    type V = EngineView<B>;

    closed spec fn view(&self) -> EngineView<B> {
        EngineView { conns: self.conns@, next_id: self.next_id }
    }
}

/// A fresh registry holding only the local connection.
pub open spec fn engine_new<B>(local: B) -> EngineView<B> {
    EngineView { conns: Map::empty().insert(LOCAL_CONN, local), next_id: 1 }
}

/// The connection under `id`, if it is open.
pub open spec fn engine_get<B>(e: EngineView<B>, id: u32) -> Option<B> {
    if e.conns.contains_key(id) {
        Some(e.conns[id])
    } else {
        None
    }
}

/// Registering a connection under the next id; ids wrap around after
/// `u32::MAX` like the atomic counter they come from.
pub open spec fn engine_insert<B>(e: EngineView<B>, b: B) -> EngineView<B> {
    EngineView {
        conns: e.conns.insert(e.next_id, b),
        next_id: if e.next_id == u32::MAX { 0 } else { (e.next_id + 1) as u32 },
    }
}

/// Closing a connection; the local one cannot be closed.
pub open spec fn engine_remove<B>(e: EngineView<B>, id: u32) -> EngineView<B> {
    if id != LOCAL_CONN {
        EngineView { conns: e.conns.remove(id), ..e }
    } else {
        e
    }
}

impl<B> Engine<B> {
    pub fn new(local: B) -> (r: Engine<B>)
        ensures
            r@ == engine_new(local),
    {
        let mut conns: HashMap<u32, B> = HashMap::new();
        conns.insert(LOCAL_CONN, local);
        let r = Engine { conns, next_id: 1 };
        assert(r@.conns =~= engine_new(local).conns);
        r
    }

    /// The connection under `id`, or the message that it is closed.
    pub fn get(&self, id: u32) -> (r: Result<&B, String>)
        ensures
            match r {
                Ok(b) => engine_get(self@, id) == Some(*b),
                Err(msg) => engine_get(self@, id) is None && msg@ == "Verbindung ist nicht mehr offen"@,
            },
    {
        match self.conns.get(&id) {
            Some(b) => Ok(b),
            None => Err(string_from("Verbindung ist nicht mehr offen")),
        }
    }

    /// Registers `b` and returns its id.
    pub fn insert(&mut self, b: B) -> (id: u32)
        ensures
            id == old(self)@.next_id,
            final(self)@ == engine_insert(old(self)@, b),
    {
        let id = self.next_id;
        self.next_id = self.next_id.wrapping_add(1);
        self.conns.insert(id, b);
        id
    }

    /// Closes the connection `id` (the local one stays).
    pub fn remove(&mut self, id: u32)
        ensures
            final(self)@ == engine_remove(old(self)@, id),
    {
        if id != LOCAL_CONN {
            self.conns.remove(&id);
        }
    }
}

// ---------------------------------------------------------------------
// Laws
// ---------------------------------------------------------------------

/// A connection is found under the id it was registered with.
pub proof fn law_get_after_insert<B>(e: EngineView<B>, b: B)
    ensures
        engine_get(engine_insert(e, b), e.next_id) == Some(b),
{
}

/// Registering or closing one connection leaves every other id as it was.
pub proof fn law_other_ids_unchanged<B>(e: EngineView<B>, b: B, id: u32, other: u32)
    requires
        other != e.next_id,
        other != id,
    ensures
        engine_get(engine_insert(e, b), other) == engine_get(e, other),
        engine_get(engine_remove(e, id), other) == engine_get(e, other),
{
}

/// A closed connection is gone; closing the local one changes nothing.
pub proof fn law_remove<B>(e: EngineView<B>, id: u32)
    ensures
        id != LOCAL_CONN ==> engine_get(engine_remove(e, id), id) is None,
        engine_remove(e, LOCAL_CONN) == e,
{
}

/// The local connection is open from the start and stays open through every
/// registration and closing.
pub proof fn law_local_stays_open<B>(e: EngineView<B>, b: B, id: u32, local: B)
    ensures
        engine_get(engine_new(local), LOCAL_CONN) == Some(local),
        e.conns.contains_key(LOCAL_CONN) ==> engine_insert(e, b).conns.contains_key(LOCAL_CONN),
        e.conns.contains_key(LOCAL_CONN) ==> engine_remove(e, id).conns.contains_key(LOCAL_CONN),
{
}

/// Before the id counter wraps around, registering a connection never
/// replaces the local one.
pub proof fn law_local_kept_before_wrap<B>(e: EngineView<B>, b: B)
    requires
        e.next_id != LOCAL_CONN,
    ensures
        engine_get(engine_insert(e, b), LOCAL_CONN) == engine_get(e, LOCAL_CONN),
{
}

/// One call on the registry, for laws over sequences of calls.
pub enum EngineOp<B> {
    Insert(B),
    Remove(u32),
}

pub open spec fn engine_apply<B>(e: EngineView<B>, op: EngineOp<B>) -> EngineView<B> {
    match op {
        EngineOp::Insert(b) => engine_insert(e, b),
        EngineOp::Remove(id) => engine_remove(e, id),
    }
}

/// The registry after the calls `ops`, made in order.
pub open spec fn engine_run<B>(e: EngineView<B>, ops: Seq<EngineOp<B>>) -> EngineView<B>
    decreases ops.len(),
{
    if ops.len() == 0 {
        e
    } else {
        engine_apply(engine_run(e, ops.drop_last()), ops.last())
    }
}

/// The number of registrations among `ops`.
pub open spec fn insert_count<B>(ops: Seq<EngineOp<B>>) -> nat
    decreases ops.len(),
{
    if ops.len() == 0 {
        0
    } else {
        insert_count(ops.drop_last()) + if ops.last() is Insert {
            1nat
        } else {
            0nat
        }
    }
}

/// What holds of a registry that was made by [`Engine::new`] with `local`:
/// the local connection is open, ids count the registrations from 1, and
/// every open id other than the local one was handed out already.
pub open spec fn engine_made<B>(e: EngineView<B>, local: B, inserted: nat) -> bool {
    &&& e.conns.contains_key(LOCAL_CONN)
    &&& e.conns[LOCAL_CONN] == local
    &&& e.next_id == 1 + inserted
    &&& forall|k: u32| #[trigger] e.conns.contains_key(k) ==> k == LOCAL_CONN || 1 <= k < e.next_id
}

proof fn lemma_engine_run<B>(local: B, ops: Seq<EngineOp<B>>)
    requires
        insert_count(ops) < u32::MAX,
    ensures
        engine_made(engine_run(engine_new(local), ops), local, insert_count(ops)),
    decreases ops.len(),
{
    if ops.len() > 0 {
        let prev = ops.drop_last();
        lemma_engine_run(local, prev);
        let e = engine_run(engine_new(local), prev);
        match ops.last() {
            EngineOp::Insert(b) => {
                let n = engine_insert(e, b);
                assert forall|k: u32| #[trigger] n.conns.contains_key(k) implies k == LOCAL_CONN || 1 <= k < n.next_id by {
                    if k != e.next_id {
                        assert(e.conns.contains_key(k));
                    }
                }
            },
            EngineOp::Remove(id) => {
                let n = engine_remove(e, id);
                assert forall|k: u32| #[trigger] n.conns.contains_key(k) implies k == LOCAL_CONN || 1 <= k < n.next_id by {
                    assert(e.conns.contains_key(k));
                }
            },
        }
    } else {
        let e = engine_new(local);
        assert forall|k: u32| #[trigger] e.conns.contains_key(k) implies k == LOCAL_CONN || 1 <= k < e.next_id by {}
    }
}

/// Over every sequence of registrations and closings after [`Engine::new`]
/// (with fewer than `u32::MAX` registrations, before the ids wrap): the
/// local connection stays open, the registrations so far have taken the
/// ids 1, 2, … in order (the next one gets `next_id`), and no open id other
/// than the local one is `next_id` or above — a new registration never
/// reuses an id.
pub proof fn law_local_always_open<B>(local: B, ops: Seq<EngineOp<B>>)
    requires
        insert_count(ops) < u32::MAX,
    ensures
        engine_get(engine_run(engine_new(local), ops), LOCAL_CONN) == Some(local),
        engine_run(engine_new(local), ops).next_id == 1 + insert_count(ops),
        forall|k: u32|
            #[trigger] engine_run(engine_new(local), ops).conns.contains_key(k) ==> k == LOCAL_CONN || 1 <= k
                < engine_run(engine_new(local), ops).next_id,
{
    lemma_engine_run(local, ops);
}

pub open spec fn inserts_of<B>(bs: Seq<B>) -> Seq<EngineOp<B>> {
    Seq::new(bs.len(), |i: int| EngineOp::Insert(bs[i]))
}

/// Registering `bs` one after another from [`Engine::new`] gives them the
/// ids 1, 2, …, `bs.len()`: each is found under its id, and the local
/// connection under 0.
pub proof fn law_sequential_ids<B>(local: B, bs: Seq<B>)
    requires
        bs.len() < u32::MAX,
    ensures
        engine_run(engine_new(local), inserts_of(bs)).next_id == bs.len() + 1,
        engine_get(engine_run(engine_new(local), inserts_of(bs)), LOCAL_CONN) == Some(local),
        forall|i: int| 0 <= i < bs.len() ==> engine_get(engine_run(engine_new(local), inserts_of(bs)), (i + 1) as u32)
            == Some(#[trigger] bs[i]),
    decreases bs.len(),
{
    if bs.len() > 0 {
        let prev = bs.drop_last();
        law_sequential_ids(local, prev);
        assert(inserts_of(bs).drop_last() =~= inserts_of(prev));
        lemma_insert_count_inserts(bs);
        lemma_engine_run(local, inserts_of(prev));
        let e = engine_run(engine_new(local), inserts_of(prev));
        assert forall|i: int| 0 <= i < bs.len() implies engine_get(engine_run(engine_new(local), inserts_of(bs)), (i + 1) as u32)
            == Some(#[trigger] bs[i]) by {
            if i < prev.len() {
                assert(prev[i] == bs[i]);
            }
        }
    } else {
        assert(inserts_of(bs) =~= Seq::<EngineOp<B>>::empty());
    }
}

proof fn lemma_insert_count_inserts<B>(bs: Seq<B>)
    ensures
        insert_count(inserts_of(bs)) == bs.len(),
    decreases bs.len(),
{
    if bs.len() > 0 {
        assert(inserts_of(bs).drop_last() =~= inserts_of(bs.drop_last()));
        lemma_insert_count_inserts(bs.drop_last());
    } else {
        assert(inserts_of(bs) =~= Seq::<EngineOp<B>>::empty());
    }
}

proof fn lemma_runs_concat<B>(e: EngineView<B>, a: Seq<EngineOp<B>>, b: Seq<EngineOp<B>>)
    ensures
        engine_run(e, a + b) == engine_run(engine_run(e, a), b),
        insert_count(a + b) == insert_count(a) + insert_count(b),
    decreases b.len(),
{
    if b.len() == 0 {
        assert(a + b =~= a);
    } else {
        assert((a + b).drop_last() =~= a + b.drop_last());
        assert((a + b).last() == b.last());
        lemma_runs_concat(e, a, b.drop_last());
    }
}

proof fn lemma_stays_closed<B>(local: B, before: Seq<EngineOp<B>>, id: u32, after: Seq<EngineOp<B>>)
    requires
        insert_count(before + seq![EngineOp::Remove(id)] + after) < u32::MAX,
        id != LOCAL_CONN,
        id < engine_run(engine_new(local), before).next_id,
    ensures
        !engine_run(engine_new(local), before + seq![EngineOp::Remove(id)] + after).conns.contains_key(id),
    decreases after.len(),
{
    let head = before + seq![EngineOp::Remove(id)];
    lemma_runs_concat(engine_new(local), head, after);
    lemma_runs_concat(engine_new(local), before, seq![EngineOp::Remove(id)]);
    assert(seq![EngineOp::<B>::Remove(id)].drop_last() =~= Seq::<EngineOp<B>>::empty());
    if after.len() > 0 {
        let prev = after.drop_last();
        assert(head + after.drop_last() =~= (head + after).drop_last());
        lemma_runs_concat(engine_new(local), head, prev);
        lemma_stays_closed(local, before, id, prev);
        lemma_engine_run(local, before);
        lemma_engine_run(local, head + prev);
        lemma_runs_concat(engine_new(local), before, seq![EngineOp::Remove(id)] + prev);
        assert(head + prev =~= before + (seq![EngineOp::Remove(id)] + prev));
    }
}

/// A closed connection stays closed: once an id that was handed out is
/// closed (not the local one), no later registration or closing — before
/// the ids wrap — opens it again.
pub proof fn law_removed_stays_closed<B>(local: B, before: Seq<EngineOp<B>>, id: u32, after: Seq<EngineOp<B>>)
    requires
        insert_count(before + seq![EngineOp::Remove(id)] + after) < u32::MAX,
        id != LOCAL_CONN,
        id < engine_run(engine_new(local), before).next_id,
    ensures
        engine_get(engine_run(engine_new(local), before + seq![EngineOp::Remove(id)] + after), id) is None,
{
    lemma_stays_closed(local, before, id, after);
}

} // verus!
