use crate::protocol::{encode_state, players_json, state_frame_text, EncodeError};
use crate::world::{
    apply_sessions, apply_sessions_all, apply_world, apply_world_all, Command, GameState, Position,
};
use std::collections::BTreeMap;
use vstd::prelude::*;
use vstd::std_specs::btree::{increasing_seq, spec_btree_map_iter};
use vstd::std_specs::cmp::OrdSpec;
use vstd::std_specs::iter::IteratorSpec;

verus! {

broadcast use vstd::std_specs::btree::group_btree_axioms;

/// The sessions that take part, each under the entity id it joined as. A session is
/// named by the token that the transport gave it; the registry only looks it up.
pub struct Registry {
    sessions: BTreeMap<usize, u64>,
}

impl View for Registry {
    type V = Map<usize, u64>;

    closed spec fn view(&self) -> Map<usize, u64> {
        self.sessions@
    }
}

/// `ids` lists each registered id exactly once, and `targets` gives, position by
/// position, the session bound to that id.
pub open spec fn listed_once(reg: Map<usize, u64>, ids: Seq<usize>, targets: Seq<u64>) -> bool {
    &&& ids.no_duplicates()
    &&& ids.len() == targets.len()
    &&& forall|i: int|
        0 <= i < ids.len() ==> reg.contains_key(#[trigger] ids[i]) && targets[i] == reg[ids[i]]
    &&& forall|id: usize| #[trigger] reg.contains_key(id) ==> ids.contains(id)
}

/// `targets` holds the session of each registered id, once per id, and nothing else.
pub open spec fn reaches_all(reg: Map<usize, u64>, targets: Seq<u64>) -> bool {
    exists|ids: Seq<usize>| listed_once(reg, ids, targets)
}

impl Registry {
    /// A registry with no session.
    pub fn new() -> (r: Registry)
        ensures
            r@ == Map::<usize, u64>::empty(),
    {
        Registry { sessions: BTreeMap::new() }
    }

    /// Binds `player_id` to `session`, replacing any earlier binding of that id.
    pub fn register(&mut self, player_id: usize, session: u64)
        ensures
            final(self)@ == old(self)@.insert(player_id, session),
    {
        self.sessions.insert(player_id, session);
    }

    /// Removes the binding of `player_id`, if there is one.
    pub fn unregister(&mut self, player_id: usize)
        ensures
            final(self)@ == old(self)@.remove(player_id),
    {
        self.sessions.remove(&player_id);
    }

    /// The session bound to `player_id`, if any.
    pub fn session_of(&self, player_id: usize) -> (r: Option<u64>)
        ensures
            r == (if self@.contains_key(player_id) {
                Some(self@[player_id])
            } else {
                None
            }),
    {
        match self.sessions.get(&player_id) {
            Some(s) => Some(*s),
            None => None,
        }
    }

    /// The sessions that a broadcast goes to: every registered one, whatever became
    /// of earlier deliveries.
    pub fn targets(&self) -> (r: Vec<u64>)
        ensures
            reaches_all(self@, r@),
    {
        let mut out: Vec<u64> = Vec::new();
        let iter = self.sessions.iter();
        let ghost pairs = iter.remaining();
        let ghost ids = pairs.map_values(|kv: (&usize, &u64)| *kv.0);
        assert(increasing_seq(ids));
        for kv in it: iter
            invariant
                it.seq() == pairs,
                out@.len() == it.index(),
                forall|i: int| 0 <= i < it.index() ==> out@[i] == *pairs[i].1,
        {
            out.push(*kv.1);
        }
        proof {
            let m = self.sessions@;
            assert(pairs == spec_btree_map_iter(&self.sessions).remaining());
            assert forall|i: int, j: int| 0 <= i < ids.len() && 0 <= j < ids.len() && i != j implies ids[i]
                != ids[j] by {
                if i < j {
                    assert(ids[i].cmp_spec(&ids[j]) is Less);
                } else {
                    assert(ids[j].cmp_spec(&ids[i]) is Less);
                }
            }
            assert forall|i: int| 0 <= i < ids.len() implies m.contains_key(#[trigger] ids[i])
                && out@[i] == m[ids[i]] by {
                assert(m.contains_key(*pairs[i].0) && m[*pairs[i].0] == *pairs[i].1);
            }
            assert forall|id: usize| #[trigger] m.contains_key(id) implies ids.contains(id) by {
                assert(pairs.contains((&id, &m[id])));
                let i = choose|i: int| 0 <= i < pairs.len() && pairs[i] == (&id, &m[id]);
                assert(ids[i] == id);
            }
            assert(listed_once(m, ids, out@));
        }
        out
    }
}

/// `r` is the snapshot of the world `w`, addressed to every session of `reg`.
pub open spec fn announces(
    r: Result<Broadcast, EncodeError>,
    w: Map<usize, Position>,
    reg: Map<usize, u64>,
) -> bool {
    r matches Ok(b) && b.frame@ == state_frame_text(players_json(w)) && reaches_all(reg, b.targets@)
}

/// One frame to deliver to each of `targets`. A delivery that fails affects neither
/// the others nor the world.
pub struct Broadcast {
    pub targets: Vec<u64>,
    pub frame: String,
}

/// The state store: the only owner of the world and of the registry. It takes one
/// command at a time and, after each, announces the whole world to every session.
pub struct GameServer {
    state: GameState,
    sessions: Registry,
}

impl GameServer {
    pub closed spec fn world(&self) -> Map<usize, Position> {
        self.state@
    }

    pub closed spec fn registry(&self) -> Map<usize, u64> {
        self.sessions@
    }

    /// A store with an empty world and no session.
    pub fn new() -> (r: GameServer)
        ensures
            r.world() == Map::<usize, Position>::empty(),
            r.registry() == Map::<usize, u64>::empty(),
    {
        GameServer { state: GameState::new(), sessions: Registry::new() }
    }

    pub fn state(&self) -> (r: &GameState)
        ensures
            r@ == self.world(),
    {
        &self.state
    }

    pub fn sessions(&self) -> (r: &Registry)
        ensures
            r@ == self.registry(),
    {
        &self.sessions
    }

    /// Addresses `frame` to every registered session.
    pub fn broadcast(&self, frame: String) -> (r: Broadcast)
        ensures
            r.frame == frame,
            reaches_all(self.registry(), r.targets@),
    {
        Broadcast { targets: self.sessions.targets(), frame }
    }

    /// The snapshot of the current world, addressed to every registered session.
    pub fn snapshot(&self) -> (r: Result<Broadcast, EncodeError>)
        ensures
            r is Ok,
            r matches Ok(b) ==> {
                &&& b.frame@ == state_frame_text(players_json(self.world()))
                &&& reaches_all(self.registry(), b.targets@)
            },
    {
        match encode_state(&self.state) {
            Ok(frame) => Ok(self.broadcast(frame)),
            Err(e) => Err(e),
        }
    }

    /// Carries out one command: the world and the registry change as `apply_world`
    /// and `apply_sessions` say, then the new world is announced. When the world
    /// cannot be encoded the change stays and only the announcement is lost.
    pub fn handle(&mut self, cmd: Command) -> (r: Result<Broadcast, EncodeError>)
        ensures
            final(self).world() == apply_world(old(self).world(), cmd),
            final(self).registry() == apply_sessions(old(self).registry(), cmd),
            r is Ok,
            r matches Ok(b) ==> {
                &&& b.frame@ == state_frame_text(players_json(final(self).world()))
                &&& reaches_all(final(self).registry(), b.targets@)
            },
    {
        self.state.apply(cmd);
        match cmd {
            Command::Join { player_id, session } => self.sessions.register(player_id, session),
            Command::Update { .. } => {},
            Command::Leave { player_id } => self.sessions.unregister(player_id),
        }
        self.snapshot()
    }

    /// Drains a mailbox: the commands are carried out one by one in the order given,
    /// and the announcement after each is returned in the same order.
    pub fn run(&mut self, cmds: Vec<Command>) -> (r: Vec<Result<Broadcast, EncodeError>>)
        ensures
            final(self).world() == apply_world_all(old(self).world(), cmds@),
            final(self).registry() == apply_sessions_all(old(self).registry(), cmds@),
            r@.len() == cmds@.len(),
            forall|i: int|
                0 <= i < r@.len() ==> announces(
                    #[trigger] r@[i],
                    apply_world_all(old(self).world(), cmds@.take(i + 1)),
                    apply_sessions_all(old(self).registry(), cmds@.take(i + 1)),
                ),
    {
        let mut out: Vec<Result<Broadcast, EncodeError>> = Vec::new();
        let mut i: usize = 0;
        while i < cmds.len()
            invariant
                i <= cmds@.len(),
                out@.len() == i,
                forall|j: int|
                    0 <= j < i ==> announces(
                        #[trigger] out@[j],
                        apply_world_all(old(self).world(), cmds@.take(j + 1)),
                        apply_sessions_all(old(self).registry(), cmds@.take(j + 1)),
                    ),
                self.world() == apply_world_all(old(self).world(), cmds@.take(i as int)),
                self.registry() == apply_sessions_all(old(self).registry(), cmds@.take(i as int)),
            decreases cmds@.len() - i,
        {
            assert(cmds@.take(i + 1).drop_last() =~= cmds@.take(i as int));
            assert(cmds@.take(i + 1).last() == cmds@[i as int]);
            let b = self.handle(cmds[i]);
            out.push(b);
            i += 1;
        }
        assert(cmds@.take(cmds@.len() as int) =~= cmds@);
        out
    }
}

} // verus!
