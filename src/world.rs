use std::collections::BTreeMap;
use vstd::prelude::*;

verus! {

broadcast use vstd::std_specs::btree::group_btree_axioms;

/// A position on the plane.
pub type Position = (i32, i32);

/// The authoritative world: each entity id with its position.
pub struct GameState {
    players: BTreeMap<usize, Position>,
}

impl View for GameState {
    type V = Map<usize, Position>;

    closed spec fn view(&self) -> Map<usize, Position> {
        self.players@
    }
}

/// A mutation request to the state store. Sessions are named by the token that
/// the transport gave them.
#[derive(Clone, Copy, Debug, PartialEq, Eq, Structural)]
pub enum Command {
    /// The session `session` takes part as `player_id`.
    Join { player_id: usize, session: u64 },
    /// `player_id` moves to `(x, y)`.
    Update { player_id: usize, x: i32, y: i32 },
    /// `player_id` is gone.
    Leave { player_id: usize },
}

/// The world after `cmd`: a join adds the entity at the origin unless it is already
/// there, an update sets (or creates) the position, a leave removes the entity.
pub open spec fn apply_world(w: Map<usize, Position>, cmd: Command) -> Map<usize, Position> {
    match cmd {
        Command::Join { player_id, .. } => if w.contains_key(player_id) {
            w
        } else {
            w.insert(player_id, (0i32, 0i32))
        },
        Command::Update { player_id, x, y } => w.insert(player_id, (x, y)),
        Command::Leave { player_id } => w.remove(player_id),
    }
}

/// The registry after `cmd`: a join (re)binds the id to its session, a leave unbinds
/// it, an update leaves it as it is.
pub open spec fn apply_sessions(r: Map<usize, u64>, cmd: Command) -> Map<usize, u64> {
    match cmd {
        Command::Join { player_id, session } => r.insert(player_id, session),
        Command::Update { .. } => r,
        Command::Leave { player_id } => r.remove(player_id),
    }
}

/// The world after the commands `cmds`, taken in order.
pub open spec fn apply_world_all(w: Map<usize, Position>, cmds: Seq<Command>) -> Map<
    usize,
    Position,
>
    decreases cmds.len(),
{
    if cmds.len() == 0 {
        w
    } else {
        apply_world(apply_world_all(w, cmds.drop_last()), cmds.last())
    }
}

/// The registry after the commands `cmds`, taken in order.
pub open spec fn apply_sessions_all(r: Map<usize, u64>, cmds: Seq<Command>) -> Map<usize, u64>
    decreases cmds.len(),
{
    if cmds.len() == 0 {
        r
    } else {
        apply_sessions(apply_sessions_all(r, cmds.drop_last()), cmds.last())
    }
}

/// Joining twice as the same id, from the same session or another, gives the world
/// that one join gives: one entry for the id, and the id bound to the later session.
pub proof fn lemma_join_idempotent(
    w: Map<usize, Position>,
    r: Map<usize, u64>,
    player_id: usize,
    first: u64,
    second: u64,
)
    ensures
        ({
            let j1 = Command::Join { player_id, session: first };
            let j2 = Command::Join { player_id, session: second };
            &&& apply_world(apply_world(w, j1), j2) == apply_world(w, j2)
            &&& apply_world(w, j2).contains_key(player_id)
            &&& apply_world(w, j2).dom() == w.dom().insert(player_id)
            &&& apply_sessions(apply_sessions(r, j1), j2) == r.insert(player_id, second)
        }),
{
    let j1 = Command::Join { player_id, session: first };
    let j2 = Command::Join { player_id, session: second };
    assert(apply_sessions(apply_sessions(r, j1), j2) =~= r.insert(player_id, second));
    assert(apply_world(w, j2).dom() =~= w.dom().insert(player_id));
}

/// An update of an id that never joined creates it at the given position, and a
/// later join of that id keeps the position rather than resetting it.
pub proof fn lemma_update_before_join(
    w: Map<usize, Position>,
    player_id: usize,
    x: i32,
    y: i32,
    session: u64,
)
    ensures
        ({
            let u = Command::Update { player_id, x, y };
            let j = Command::Join { player_id, session };
            &&& apply_world(w, u).contains_key(player_id)
            &&& apply_world(w, u)[player_id] == (x, y)
            &&& apply_world(apply_world(w, u), j) == apply_world(w, u)
        }),
{
}

/// After `a` and `b` join and `a` leaves, the world holds `b` and not `a`, and only
/// `b`'s session is still registered for them.
pub proof fn lemma_leave_removes(
    w: Map<usize, Position>,
    r: Map<usize, u64>,
    a: usize,
    sa: u64,
    b: usize,
    sb: u64,
)
    requires
        a != b,
    ensures
        ({
            let cmds = seq![
                Command::Join { player_id: a, session: sa },
                Command::Join { player_id: b, session: sb },
                Command::Leave { player_id: a },
            ];
            let w2 = apply_world_all(w, cmds);
            let r2 = apply_sessions_all(r, cmds);
            &&& !w2.contains_key(a)
            &&& w2.contains_key(b)
            &&& w2.dom() == w.dom().remove(a).insert(b)
            &&& !r2.contains_key(a)
            &&& r2 == r.remove(a).insert(b, sb)
        }),
{
    let cmds = seq![
        Command::Join { player_id: a, session: sa },
        Command::Join { player_id: b, session: sb },
        Command::Leave { player_id: a },
    ];
    assert(cmds.drop_last().drop_last().drop_last() =~= Seq::<Command>::empty());
    assert(cmds.drop_last().drop_last() =~= seq![Command::Join { player_id: a, session: sa }]);
    assert(cmds.drop_last() =~= seq![
        Command::Join { player_id: a, session: sa },
        Command::Join { player_id: b, session: sb },
    ]);
    reveal_with_fuel(apply_world_all, 4);
    reveal_with_fuel(apply_sessions_all, 4);
    let w2 = apply_world_all(w, cmds);
    let r2 = apply_sessions_all(r, cmds);
    assert(w2.dom() =~= w.dom().remove(a).insert(b));
    assert(r2 =~= r.remove(a).insert(b, sb));
}

/// Commands take effect in the order they arrive: when the last command that moves
/// or removes an id is an update to `(x, y)`, the id ends at `(x, y)`, whatever joins
/// and commands on other ids come after it.
pub proof fn lemma_last_update_wins(
    w: Map<usize, Position>,
    cmds: Seq<Command>,
    k: int,
    player_id: usize,
    x: i32,
    y: i32,
)
    requires
        0 <= k < cmds.len(),
        cmds[k] == (Command::Update { player_id, x, y }),
        forall|j: int|
            k < j < cmds.len() ==> match #[trigger] cmds[j] {
                Command::Update { player_id: p, .. } => p != player_id,
                Command::Leave { player_id: p } => p != player_id,
                Command::Join { .. } => true,
            },
    ensures
        apply_world_all(w, cmds).contains_key(player_id),
        apply_world_all(w, cmds)[player_id] == (x, y),
    decreases cmds.len(),
{
    if k < cmds.len() - 1 {
        let prefix = cmds.drop_last();
        assert forall|j: int| k < j < prefix.len() implies match #[trigger] prefix[j] {
            Command::Update { player_id: p, .. } => p != player_id,
            Command::Leave { player_id: p } => p != player_id,
            Command::Join { .. } => true,
        } by {
            assert(prefix[j] == cmds[j]);
        }
        lemma_last_update_wins(w, prefix, k, player_id, x, y);
        let last = cmds[cmds.len() - 1];
        assert(k < cmds.len() - 1 < cmds.len());
        match last {
            Command::Update { player_id: p, .. } => assert(p != player_id),
            Command::Leave { player_id: p } => assert(p != player_id),
            Command::Join { .. } => {},
        }
    }
}

impl GameState {
    /// An empty world.
    pub fn new() -> (r: GameState)
        ensures
            r@ == Map::<usize, Position>::empty(),
    {
        GameState { players: BTreeMap::new() }
    }

    /// The position of `player_id`, if it is in the world.
    pub fn position(&self, player_id: usize) -> (r: Option<Position>)
        ensures
            r == (if self@.contains_key(player_id) {
                Some(self@[player_id])
            } else {
                None
            }),
    {
        match self.players.get(&player_id) {
            Some(p) => Some(*p),
            None => None,
        }
    }

    /// The number of entities in the world.
    pub fn len(&self) -> (r: usize)
        ensures
            r == self@.len(),
    {
        self.players.len()
    }

    pub(crate) fn players(&self) -> (r: &BTreeMap<usize, Position>)
        ensures
            r@ == self@,
    {
        &self.players
    }

    /// Carries out `cmd` on the world.
    pub fn apply(&mut self, cmd: Command)
        ensures
            final(self)@ == apply_world(old(self)@, cmd),
    {
        match cmd {
            Command::Join { player_id, .. } => {
                if !self.players.contains_key(&player_id) {
                    self.players.insert(player_id, (0, 0));
                }
            },
            Command::Update { player_id, x, y } => {
                self.players.insert(player_id, (x, y));
            },
            Command::Leave { player_id } => {
                self.players.remove(&player_id);
            },
        }
    }
}

} // verus!
