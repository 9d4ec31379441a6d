//! World state and the physics / command-application rules.
//!
//! All coordinates and velocities are fixed-point integers: `SCALE` sub-units
//! make one world unit. A player's position is kept inside
//! `[0, X_MAX] x [0, Y_MAX]` by clamping after each physics step, and every
//! velocity component is kept inside `[-VEL_LIMIT, VEL_LIMIT]` by saturating
//! the additions that feed it, so no arithmetic here can overflow.

use vstd::prelude::*;

verus! {

/// Sub-units per world unit of the fixed-point coordinates.
pub const SCALE: i64 = 1000;

/// Added to the vertical velocity once per physics step (1.0 world units).
pub const GRAVITY: i64 = 1000;

/// Horizontal friction multiplies the horizontal velocity by
/// `FRICTION_NUM / FRICTION_DEN` (0.8) once per physics step, rounding
/// towards zero.
pub const FRICTION_NUM: i64 = 4;

/// See `FRICTION_NUM`.
pub const FRICTION_DEN: i64 = 5;

/// Horizontal acceleration a new player gets (1.0 world units per command).
pub const DEFAULT_ACC: i64 = 1000;

/// Vertical jump impulse a new player gets (10.0 world units).
pub const DEFAULT_JUMP_FORCE: i64 = 10000;

/// Width of the world in world units.
pub const SCREEN_WIDTH: i64 = 300;

/// Height of the world in world units.
pub const SCREEN_HEIGHT: i64 = 200;

/// Edge length of a player's square, in world units; positions are clamped so
/// the square stays on screen.
pub const PLAYER_SIZE: i64 = 10;

/// Largest legal horizontal position: `(SCREEN_WIDTH - PLAYER_SIZE) * SCALE`.
pub const X_MAX: i64 = 290000;

/// Largest legal vertical position: `(SCREEN_HEIGHT - PLAYER_SIZE) * SCALE`.
pub const Y_MAX: i64 = 190000;

/// Saturation bound of every velocity component, in sub-units.
pub const VEL_LIMIT: i64 = 1000000000;

/// Nominal maximum number of simultaneous players the deployment plans for.
pub const MAX_PLAYERS: usize = 10;

/// A player's appearance tag.
#[derive(Clone, Copy, PartialEq, Eq, Structural, Debug)]
pub enum Color {
    Red,
    Green,
    Blue,
    Yellow,
}

/// A decoded client intent. `Nop` stands for an unrecognized or deliberately
/// empty action and is ignored when applied.
#[derive(Clone, Copy, PartialEq, Eq, Structural, Debug)]
pub enum Command {
    Nop,
    MoveLeft,
    MoveRight,
    Jump,
}

/// A fixed-point 2D vector (sub-units of `SCALE`).
#[derive(Clone, Copy, PartialEq, Eq, Structural, Debug)]
pub struct Vec2 {
    pub x: i64,
    pub y: i64,
}

/// One connected player, keyed by the integer form of its network source
/// address (the caller derives the key from the peer address; the library
/// never inspects it beyond equality).
#[derive(Clone, Copy, PartialEq, Eq, Structural, Debug)]
pub struct Player {
    pub addr: u64,
    pub pos: Vec2,
    pub vel: Vec2,
    pub acc: i64,
    pub jump_force: i64,
    pub color: Color,
}

/// Clamp a velocity component into `[-VEL_LIMIT, VEL_LIMIT]`.
pub open spec fn clamp_vel(v: int) -> int {
    if v > VEL_LIMIT as int {
        VEL_LIMIT as int
    } else if v < -(VEL_LIMIT as int) {
        -(VEL_LIMIT as int)
    } else {
        v
    }
}

/// One friction step: scale `v` by `FRICTION_NUM / FRICTION_DEN`, rounding
/// towards zero (this is exactly what `(v * FRICTION_NUM) / FRICTION_DEN`
/// computes on a machine integer).
pub open spec fn spec_fric(v: int) -> int {
    if v >= 0 {
        (v * FRICTION_NUM) / FRICTION_DEN as int
    } else {
        -((-(v * FRICTION_NUM)) / FRICTION_DEN as int)
    }
}

/// A player value the physics step can accept: position on screen, velocity
/// and per-command impulses within the saturation bound.
pub open spec fn wf_player(p: Player) -> bool {
    &&& 0 <= p.pos.x <= X_MAX
    &&& 0 <= p.pos.y <= Y_MAX
    &&& -VEL_LIMIT <= p.vel.x <= VEL_LIMIT
    &&& -VEL_LIMIT <= p.vel.y <= VEL_LIMIT
    &&& 0 <= p.acc <= VEL_LIMIT
    &&& 0 <= p.jump_force <= VEL_LIMIT
}

/// The state a player joins with: the origin, at rest, default impulses.
pub open spec fn default_player(addr: u64) -> Player {
    Player {
        addr,
        pos: Vec2 { x: 0, y: 0 },
        vel: Vec2 { x: 0, y: 0 },
        acc: DEFAULT_ACC,
        jump_force: DEFAULT_JUMP_FORCE,
        color: Color::Red,
    }
}

impl Vec2 {
    /// The zero vector.
    pub fn zero() -> (r: Vec2)
        ensures
            r == (Vec2 { x: 0, y: 0 }),
    {
        Vec2 { x: 0, y: 0 }
    }
}

impl Player {
    /// A freshly joined player for the given address key.
    pub fn new(addr: u64) -> (p: Player)
        ensures
            p == default_player(addr),
            wf_player(p),
    {
        Player {
            addr,
            pos: Vec2::zero(),
            vel: Vec2::zero(),
            acc: DEFAULT_ACC,
            jump_force: DEFAULT_JUMP_FORCE,
            color: Color::Red,
        }
    }
}

/// Saturating addition of a velocity delta.
fn add_vel_clamped(v: i64, d: i64) -> (r: i64)
    requires
        -VEL_LIMIT <= v <= VEL_LIMIT,
        -VEL_LIMIT <= d <= VEL_LIMIT,
    ensures
        r as int == clamp_vel(v + d),
{
    let s = v + d;
    if s > VEL_LIMIT {
        VEL_LIMIT
    } else if s < -VEL_LIMIT {
        -VEL_LIMIT
    } else {
        s
    }
}

/// What one command does to one player: moves add `acc` to the horizontal
/// velocity, a jump subtracts `jump_force` from the vertical velocity
/// (upward), a no-op changes nothing; every addition saturates at
/// `VEL_LIMIT`.
pub open spec fn spec_apply_cmd(p: Player, c: Command) -> Player {
    match c {
        Command::MoveRight => Player {
            vel: Vec2 { x: clamp_vel(p.vel.x + p.acc) as i64, ..p.vel },
            ..p
        },
        Command::MoveLeft => Player {
            vel: Vec2 { x: clamp_vel(p.vel.x - p.acc) as i64, ..p.vel },
            ..p
        },
        Command::Jump => Player {
            vel: Vec2 { y: clamp_vel(p.vel.y - p.jump_force) as i64, ..p.vel },
            ..p
        },
        Command::Nop => p,
    }
}

/// Move-right: accelerate the player to the right.
pub fn handle_move_right(p: &mut Player)
    requires
        wf_player(*old(p)),
    ensures
        *final(p) == spec_apply_cmd(*old(p), Command::MoveRight),
        wf_player(*final(p)),
{
    p.vel.x = add_vel_clamped(p.vel.x, p.acc);
}

/// Move-left: accelerate the player to the left.
pub fn handle_move_left(p: &mut Player)
    requires
        wf_player(*old(p)),
    ensures
        *final(p) == spec_apply_cmd(*old(p), Command::MoveLeft),
        wf_player(*final(p)),
{
    p.vel.x = add_vel_clamped(p.vel.x, -p.acc);
}

/// Jump: give the player an upward (negative-y) impulse.
pub fn handle_jump(p: &mut Player)
    requires
        wf_player(*old(p)),
    ensures
        *final(p) == spec_apply_cmd(*old(p), Command::Jump),
        wf_player(*final(p)),
{
    p.vel.y = add_vel_clamped(p.vel.y, -p.jump_force);
}

/// Apply one command to one player (dispatch on the command kind).
pub fn apply_command(p: &mut Player, c: Command)
    requires
        wf_player(*old(p)),
    ensures
        *final(p) == spec_apply_cmd(*old(p), c),
        wf_player(*final(p)),
{
    match c {
        Command::MoveRight => handle_move_right(p),
        Command::MoveLeft => handle_move_left(p),
        Command::Jump => handle_jump(p),
        Command::Nop => {},
    }
}

/// One physics step for one player, exactly in engine order: integrate the
/// position by the current velocity, apply horizontal friction, add gravity,
/// then clamp the position into bounds axis by axis, zeroing the velocity
/// component of every axis whose bound was hit (inelastic stop). Landing
/// exactly on a bound counts as hitting it, so a player resting on a bound
/// with no velocity on that axis is a fixed point of a command-free step.
pub open spec fn spec_physics(p: Player) -> Player {
    let nx0 = p.pos.x + p.vel.x;
    let ny0 = p.pos.y + p.vel.y;
    let vx0 = spec_fric(p.vel.x as int);
    let vy0 = clamp_vel(p.vel.y + GRAVITY);
    let (ny1, vy1) = if ny0 >= Y_MAX as int {
        (Y_MAX as int, 0int)
    } else {
        (ny0, vy0)
    };
    let (ny2, vy2) = if ny1 <= 0 {
        (0int, 0int)
    } else {
        (ny1, vy1)
    };
    let (nx1, vx1) = if nx0 >= X_MAX as int {
        (X_MAX as int, 0int)
    } else {
        (nx0, vx0)
    };
    let (nx2, vx2) = if nx1 <= 0 {
        (0int, 0int)
    } else {
        (nx1, vx1)
    };
    Player {
        pos: Vec2 { x: nx2 as i64, y: ny2 as i64 },
        vel: Vec2 { x: vx2 as i64, y: vy2 as i64 },
        ..p
    }
}

/// Friction never grows a velocity component nor flips it past zero.
pub proof fn lemma_fric_bounds(v: int)
    ensures
        v >= 0 ==> 0 <= spec_fric(v) <= v,
        v < 0 ==> v <= spec_fric(v) <= 0,
{
    if v >= 0 {
        assert(0 <= (v * 4) / 5 <= v) by (nonlinear_arith)
            requires
                v >= 0,
        ;
    } else {
        assert(0 <= (-(v * 4)) / 5 <= -v) by (nonlinear_arith)
            requires
                v < 0,
        ;
    }
}

/// The physics step keeps a player well-formed.
pub proof fn lemma_physics_wf(p: Player)
    requires
        wf_player(p),
    ensures
        wf_player(spec_physics(p)),
        spec_physics(p).addr == p.addr,
        spec_physics(p).acc == p.acc,
        spec_physics(p).jump_force == p.jump_force,
        spec_physics(p).color == p.color,
{
    lemma_fric_bounds(p.vel.x as int);
}

/// Run one physics step on one player.
pub fn physics_player(p: &mut Player)
    requires
        wf_player(*old(p)),
    ensures
        *final(p) == spec_physics(*old(p)),
        wf_player(*final(p)),
{
    proof {
        lemma_fric_bounds(p.vel.x as int);
    }
    p.pos.x = p.pos.x + p.vel.x;
    p.pos.y = p.pos.y + p.vel.y;
    p.vel.x = (p.vel.x * FRICTION_NUM) / FRICTION_DEN;
    p.vel.y = add_vel_clamped(p.vel.y, GRAVITY);

    if p.pos.y >= Y_MAX {
        p.pos.y = Y_MAX;
        p.vel.y = 0;
    }
    if p.pos.y <= 0 {
        p.pos.y = 0;
        p.vel.y = 0;
    }
    if p.pos.x >= X_MAX {
        p.pos.x = X_MAX;
        p.vel.x = 0;
    }
    if p.pos.x <= 0 {
        p.pos.x = 0;
        p.vel.x = 0;
    }
}

/// Index of the first player with the given address key, or -1 when no
/// player has it.
pub open spec fn find_addr(ps: Seq<Player>, addr: u64) -> int
    decreases ps.len(),
{
    if ps.len() == 0 {
        -1
    } else if ps[0].addr == addr {
        0
    } else {
        let r = find_addr(ps.drop_first(), addr);
        if r < 0 {
            -1
        } else {
            r + 1
        }
    }
}

/// Whether some player carries the given address key.
pub open spec fn has_addr(ps: Seq<Player>, addr: u64) -> bool {
    find_addr(ps, addr) >= 0
}

/// What `find_addr` returns: a valid index of a player with the key, earlier
/// players all carrying other keys; or -1 when every player carries another
/// key.
pub proof fn lemma_find_addr_props(ps: Seq<Player>, addr: u64)
    ensures
        find_addr(ps, addr) >= 0 ==> {
            let k = find_addr(ps, addr);
            &&& k < ps.len()
            &&& ps[k].addr == addr
            &&& forall|j: int| 0 <= j < k ==> ps[j].addr != addr
        },
        find_addr(ps, addr) < 0 ==> forall|j: int| 0 <= j < ps.len() ==> ps[j].addr != addr,
    decreases ps.len(),
{
    if ps.len() > 0 && ps[0].addr != addr {
        let d = ps.drop_first();
        lemma_find_addr_props(d, addr);
        let r = find_addr(d, addr);
        if r >= 0 {
            assert(find_addr(ps, addr) == r + 1);
            assert(ps[r + 1] == d[r]);
            assert forall|j: int| 0 <= j < r + 1 implies ps[j].addr != addr by {
                if j > 0 {
                    assert(ps[j] == d[j - 1]);
                }
            }
        } else {
            assert forall|j: int| 0 <= j < ps.len() implies ps[j].addr != addr by {
                if j > 0 {
                    assert(ps[j] == d[j - 1]);
                }
            }
        }
    }
}

/// A player that carries the key `addr` at index `i`, with every earlier
/// player carrying another key, is what `find_addr` points at.
pub proof fn lemma_find_addr_at(ps: Seq<Player>, addr: u64, i: int)
    requires
        0 <= i < ps.len(),
        ps[i].addr == addr,
        forall|j: int| 0 <= j < i ==> ps[j].addr != addr,
    ensures
        find_addr(ps, addr) == i,
    decreases ps.len(),
{
    if i > 0 {
        let d = ps.drop_first();
        assert(d[i - 1] == ps[i]);
        assert forall|j: int| 0 <= j < i - 1 implies d[j].addr != addr by {
            assert(d[j] == ps[j + 1]);
        }
        lemma_find_addr_at(d, addr, i - 1);
    }
}

/// Every player is well-formed and no two players share an address key.
pub open spec fn wf_players(ps: Seq<Player>) -> bool {
    &&& forall|i: int| 0 <= i < ps.len() ==> wf_player(#[trigger] ps[i])
    &&& forall|i: int, j: int|
        0 <= i < j < ps.len() ==> #[trigger] ps[i].addr != #[trigger] ps[j].addr
}

/// What one queued (address, command) pair does to the player list: a known
/// address has the command applied to its player; an unseen address is a join
/// event, appending a fresh default player and applying nothing.
pub open spec fn spec_apply_one(ps: Seq<Player>, addr: u64, c: Command) -> Seq<Player> {
    let k = find_addr(ps, addr);
    if k >= 0 {
        ps.update(k, spec_apply_cmd(ps[k], c))
    } else {
        ps.push(default_player(addr))
    }
}

/// Fold `spec_apply_one` over a command batch, in arrival order (the
/// recursion peels the most recent entry off the back).
pub open spec fn spec_apply_all(ps: Seq<Player>, cmds: Seq<(u64, Command)>) -> Seq<Player>
    decreases cmds.len(),
{
    if cmds.len() == 0 {
        ps
    } else {
        spec_apply_one(spec_apply_all(ps, cmds.drop_last()), cmds.last().0, cmds.last().1)
    }
}

/// One queued pair keeps the player list well-formed.
pub proof fn lemma_apply_one_wf(ps: Seq<Player>, addr: u64, c: Command)
    requires
        wf_players(ps),
    ensures
        wf_players(spec_apply_one(ps, addr, c)),
        spec_apply_one(ps, addr, c).len() >= ps.len(),
        forall|i: int|
            0 <= i < ps.len() ==> #[trigger] spec_apply_one(ps, addr, c)[i].addr == ps[i].addr,
{
    lemma_find_addr_props(ps, addr);
}

/// A whole command batch keeps the player list well-formed, never removes a
/// player, and never changes a surviving player's address key.
pub proof fn lemma_apply_all_wf(ps: Seq<Player>, cmds: Seq<(u64, Command)>)
    requires
        wf_players(ps),
    ensures
        wf_players(spec_apply_all(ps, cmds)),
        spec_apply_all(ps, cmds).len() >= ps.len(),
        forall|i: int|
            0 <= i < ps.len() ==> #[trigger] spec_apply_all(ps, cmds)[i].addr == ps[i].addr,
    decreases cmds.len(),
{
    if cmds.len() > 0 {
        lemma_apply_all_wf(ps, cmds.drop_last());
        lemma_apply_one_wf(spec_apply_all(ps, cmds.drop_last()), cmds.last().0, cmds.last().1);
    }
}

/// A physics step over a whole player list keeps it well-formed and keeps
/// every address key in place.
pub proof fn lemma_physics_map_wf(ps: Seq<Player>)
    requires
        wf_players(ps),
    ensures
        wf_players(ps.map_values(|p: Player| spec_physics(p))),
{
    let m = ps.map_values(|p: Player| spec_physics(p));
    assert forall|i: int| 0 <= i < m.len() implies wf_player(#[trigger] m[i]) by {
        lemma_physics_wf(ps[i]);
    }
    assert forall|i: int, j: int|
        0 <= i < j < m.len() implies #[trigger] m[i].addr != #[trigger] m[j].addr by {
        lemma_physics_wf(ps[i]);
        lemma_physics_wf(ps[j]);
    }
}

/// The shared world: the ordered list of connected players. Iteration order
/// is join order and is also the broadcast send order.
pub struct World {
    pub players: Vec<Player>,
}

impl World {
    /// The world invariant: see `wf_players`.
    pub open spec fn wf(&self) -> bool {
        wf_players(self.players@)
    }

    /// An empty world.
    pub fn new() -> (w: World)
        ensures
            w.players@ == Seq::<Player>::empty(),
            w.wf(),
    {
        World { players: Vec::new() }
    }

    /// Index of the player keyed by `addr`, if one is connected.
    pub fn get_player_by_ip(&self, addr: u64) -> (r: Option<usize>)
        ensures
            match r {
                Some(i) => i == find_addr(self.players@, addr) && i < self.players@.len()
                    && self.players@[i as int].addr == addr,
                None => !has_addr(self.players@, addr),
            },
    {
        let n = self.players.len();
        let mut i: usize = 0;
        while i < n
            invariant
                n == self.players@.len(),
                i <= n,
                forall|j: int| 0 <= j < i ==> self.players@[j].addr != addr,
            decreases n - i,
        {
            if self.players[i].addr == addr {
                proof {
                    lemma_find_addr_at(self.players@, addr, i as int);
                }
                return Some(i);
            }
            i = i + 1;
        }
        proof {
            lemma_find_addr_props(self.players@, addr);
        }
        None
    }

    /// Apply a batch of queued (address key, command) pairs in arrival order:
    /// commands from known addresses update their players, commands from
    /// unseen addresses join fresh default players.
    pub fn apply_commands(&mut self, cmds: &Vec<(u64, Command)>)
        requires
            old(self).wf(),
        ensures
            final(self).wf(),
            final(self).players@ == spec_apply_all(old(self).players@, cmds@),
    {
        let ghost orig: Seq<Player> = self.players@;
        let n = cmds.len();
        let mut k: usize = 0;
        while k < n
            invariant
                n == cmds@.len(),
                k <= n,
                self.wf(),
                self.players@ == spec_apply_all(orig, cmds@.take(k as int)),
            decreases n - k,
        {
            let (addr, c) = cmds[k];
            proof {
                assert(cmds@.take(k as int + 1).drop_last() =~= cmds@.take(k as int));
                assert(cmds@.take(k as int + 1).last() == cmds@[k as int]);
            }
            match self.get_player_by_ip(addr) {
                Some(i) => {
                    let mut p = self.players[i];
                    apply_command(&mut p, c);
                    self.players.set(i, p);
                },
                None => {
                    proof {
                        lemma_find_addr_props(self.players@, addr);
                    }
                    self.players.push(Player::new(addr));
                },
            }
            k = k + 1;
        }
        proof {
            assert(cmds@.take(n as int) =~= cmds@);
        }
    }

    /// Run one physics step on every player (steps are per-player
    /// independent; the pass walks join order).
    pub fn physics(&mut self)
        requires
            old(self).wf(),
        ensures
            final(self).wf(),
            final(self).players@ == old(self).players@.map_values(|p: Player| spec_physics(p)),
    {
        let ghost orig: Seq<Player> = self.players@;
        let n = self.players.len();
        let mut k: usize = 0;
        while k < n
            invariant
                n == self.players@.len(),
                k <= n,
                wf_players(orig),
                self.players@.len() == orig.len(),
                forall|j: int| 0 <= j < k ==> self.players@[j] == spec_physics(orig[j]),
                forall|j: int| k <= j < n ==> self.players@[j] == orig[j],
            decreases n - k,
        {
            let mut p = self.players[k];
            physics_player(&mut p);
            self.players.set(k, p);
            k = k + 1;
        }
        proof {
            assert(self.players@ =~= orig.map_values(|p: Player| spec_physics(p)));
            assert forall|i: int| 0 <= i < self.players@.len() implies wf_player(
                #[trigger] self.players@[i],
            ) by {
                lemma_physics_wf(orig[i]);
            }
            assert forall|i: int, j: int|
                0 <= i < j < self.players@.len() implies #[trigger] self.players@[i].addr
                != #[trigger] self.players@[j].addr by {
                lemma_physics_wf(orig[i]);
                lemma_physics_wf(orig[j]);
            }
        }
    }
}

} // verus!
