//! Engine-wide laws, proved over the same spec functions the executable
//! contracts use.

use vstd::prelude::*;
use vstd::math::abs;

use crate::engine::spec_tick_players;
use crate::game::Command;
use crate::game::Player;
use crate::game::Vec2;
use crate::game::VEL_LIMIT;
use crate::game::X_MAX;
use crate::game::Y_MAX;
use crate::game::default_player;
use crate::game::find_addr;
use crate::game::has_addr;
use crate::game::lemma_apply_all_wf;
use crate::game::lemma_find_addr_at;
use crate::game::lemma_find_addr_props;
use crate::game::lemma_physics_map_wf;
use crate::game::spec_apply_all;
use crate::game::spec_apply_cmd;
use crate::game::spec_apply_one;
use crate::game::spec_fric;
use crate::game::spec_physics;
use crate::game::wf_player;
use crate::game::wf_players;

verus! {

/// Clamping idempotence, horizontal axis: a player resting on a horizontal
/// bound with no horizontal velocity keeps that position and that zero
/// velocity across a physics step with no new commands.
pub proof fn lemma_clamp_idempotent_horizontal(p: Player)
    requires
        wf_player(p),
        p.vel.x == 0,
        p.pos.x == 0 || p.pos.x == X_MAX,
    ensures
        spec_physics(p).pos.x == p.pos.x,
        spec_physics(p).vel.x == 0,
{
}

/// Clamping idempotence, vertical axis: a player resting on a vertical bound
/// with no vertical velocity keeps that position and that zero velocity
/// across a physics step with no new commands — the position lands exactly on
/// the bound again, which counts as a bound hit and zeroes the gravity the
/// step had loaded.
pub proof fn lemma_clamp_idempotent_vertical(p: Player)
    requires
        wf_player(p),
        p.vel.y == 0,
        p.pos.y == 0 || p.pos.y == Y_MAX,
    ensures
        spec_physics(p).pos.y == p.pos.y,
        spec_physics(p).vel.y == 0,
{
}

/// Join behaviour, command phase: a command from an unseen address appends
/// exactly one player, at the default state, and applies nothing — whatever
/// the command was.
pub proof fn lemma_join_appends_default_player(ps: Seq<Player>, addr: u64, c: Command)
    requires
        !has_addr(ps, addr),
    ensures
        spec_apply_one(ps, addr, c) == ps.push(default_player(addr)),
{
}

/// Join behaviour, whole tick: a tick whose batch is one command from an
/// unseen address ends with exactly one new player, keyed by that address and
/// still at the default state — zero position and zero velocity — whatever
/// the command was. (The join applies no motion, and the origin lies on the
/// world bounds, so the tick's own physics step leaves the newcomer at rest.)
/// Every other player moves exactly as it would have without the join.
pub proof fn lemma_join_one_command_tick(ps: Seq<Player>, addr: u64, c: Command)
    requires
        wf_players(ps),
        !has_addr(ps, addr),
    ensures
        ({
            let after = spec_tick_players(ps, seq![(addr, c)]);
            &&& after.len() == ps.len() + 1
            &&& after.last() == default_player(addr)
            &&& forall|i: int| 0 <= i < ps.len() ==> after[i] == spec_physics(#[trigger] ps[i])
        }),
{
    let batch: Seq<(u64, Command)> = seq![(addr, c)];
    assert(batch.len() == 1);
    assert(batch.last() == (addr, c));
    assert(batch.drop_last() =~= Seq::<(u64, Command)>::empty());
    assert(spec_apply_all(ps, batch.drop_last()) == ps);
    assert(spec_apply_all(ps, batch) == ps.push(default_player(addr)));
    let joined = ps.push(default_player(addr));
    let after = joined.map_values(|p: Player| spec_physics(p));
    assert(after.last() == spec_physics(default_player(addr)));
    assert(spec_physics(default_player(addr)) == default_player(addr));
}

/// Whether some entry of the batch was issued by `a`.
pub open spec fn appears(cmds: Seq<(u64, Command)>, a: u64) -> bool {
    exists|i: int| 0 <= i < cmds.len() && (#[trigger] cmds[i]).0 == a
}

/// Number of distinct addresses that appear in the batch without having a
/// player in `ps` — the joins the batch will trigger, each counted once, at
/// its first occurrence.
pub open spec fn distinct_new_addrs(ps: Seq<Player>, cmds: Seq<(u64, Command)>) -> int
    decreases cmds.len(),
{
    if cmds.len() == 0 {
        0
    } else {
        let d = cmds.drop_last();
        distinct_new_addrs(ps, d) + if !has_addr(ps, cmds.last().0) && !appears(d, cmds.last().0) {
            1int
        } else {
            0int
        }
    }
}

/// An address has a player exactly when some entry of the list carries it.
pub proof fn lemma_has_addr_exists(ps: Seq<Player>, a: u64)
    ensures
        has_addr(ps, a) <==> exists|j: int| 0 <= j < ps.len() && (#[trigger] ps[j]).addr == a,
{
    lemma_find_addr_props(ps, a);
    if has_addr(ps, a) {
        let k = find_addr(ps, a);
        assert(0 <= k < ps.len() && ps[k].addr == a);
    }
}

/// Join behaviour over a whole batch: applying it grows the player list by
/// exactly the number of distinct previously-unseen addresses in the batch —
/// one join per new address, however many entries it sent and whatever
/// command kinds they carried — and afterwards an address has a player
/// exactly when it had one before or appears in the batch.
pub proof fn lemma_join_count(ps: Seq<Player>, cmds: Seq<(u64, Command)>)
    requires
        wf_players(ps),
    ensures
        spec_apply_all(ps, cmds).len() == ps.len() + distinct_new_addrs(ps, cmds),
        forall|a: u64|
            #[trigger] has_addr(spec_apply_all(ps, cmds), a) <==> (has_addr(ps, a) || appears(
                cmds,
                a,
            )),
    decreases cmds.len(),
{
    if cmds.len() == 0 {
        assert forall|a: u64|
            #[trigger] has_addr(spec_apply_all(ps, cmds), a) <==> (has_addr(ps, a) || appears(
                cmds,
                a,
            )) by {
            assert(!appears(cmds, a));
        }
    } else {
        let d = cmds.drop_last();
        let e = cmds.last();
        lemma_join_count(ps, d);
        lemma_apply_all_wf(ps, d);
        let rd = spec_apply_all(ps, d);
        let r = spec_apply_one(rd, e.0, e.1);
        lemma_find_addr_props(rd, e.0);
        let k = find_addr(rd, e.0);
        assert(spec_apply_all(ps, cmds) == r);
        // An address appears in the batch exactly when it appears in the
        // shorter batch or the last entry carries it.
        assert forall|a: u64| #[trigger] appears(cmds, a) <==> (appears(d, a) || e.0 == a) by {
            if appears(cmds, a) {
                let w = choose|w: int| 0 <= w < cmds.len() && (#[trigger] cmds[w]).0 == a;
                if w < cmds.len() - 1 {
                    assert(d[w] == cmds[w]);
                    assert(appears(d, a));
                } else {
                    assert(e.0 == a);
                }
            }
            if appears(d, a) {
                let w = choose|w: int| 0 <= w < d.len() && (#[trigger] d[w]).0 == a;
                assert(cmds[w] == d[w]);
                assert(appears(cmds, a));
            }
            if e.0 == a {
                assert((cmds[cmds.len() - 1]).0 == a);
                assert(appears(cmds, a));
            }
        }
        if k >= 0 {
            // The sender already has a player: the entry is applied to it and
            // joins nothing; every address keeps its player.
            assert(rd[k].addr == e.0);
            lemma_has_addr_exists(rd, e.0);
            assert(has_addr(ps, e.0) || appears(d, e.0));
            assert(r == rd.update(k, spec_apply_cmd(rd[k], e.1)));
            assert forall|a: u64| #[trigger] has_addr(r, a) <==> has_addr(rd, a) by {
                lemma_has_addr_exists(r, a);
                lemma_has_addr_exists(rd, a);
                if has_addr(rd, a) {
                    let j = choose|j: int| 0 <= j < rd.len() && (#[trigger] rd[j]).addr == a;
                    assert(r[j].addr == a);
                }
                if has_addr(r, a) {
                    let j = choose|j: int| 0 <= j < r.len() && (#[trigger] r[j]).addr == a;
                    assert(rd[j].addr == a);
                }
            }
        } else {
            // First contact from this address: exactly one join.
            assert(r == rd.push(default_player(e.0)));
            lemma_has_addr_exists(rd, e.0);
            assert(!has_addr(ps, e.0) && !appears(d, e.0));
            assert forall|a: u64| #[trigger] has_addr(r, a) <==> (has_addr(rd, a) || a == e.0) by {
                lemma_has_addr_exists(r, a);
                lemma_has_addr_exists(rd, a);
                if has_addr(rd, a) {
                    let j = choose|j: int| 0 <= j < rd.len() && (#[trigger] rd[j]).addr == a;
                    assert(r[j].addr == a);
                }
                if a == e.0 {
                    assert(r[r.len() - 1].addr == a);
                }
                if has_addr(r, a) {
                    let j = choose|j: int| 0 <= j < r.len() && (#[trigger] r[j]).addr == a;
                    if j < rd.len() {
                        assert(rd[j].addr == a);
                    } else {
                        assert(a == e.0);
                    }
                }
            }
        }
    }
}

/// Whether an entry is a horizontal move command issued by `addr`.
pub open spec fn is_move_for(e: (u64, Command), addr: u64) -> bool {
    e.0 == addr && (e.1 == Command::MoveLeft || e.1 == Command::MoveRight)
}

/// Whether every entry of `cmds` that `addr` issued is a horizontal move.
/// Entries from other senders are unconstrained: they may move other players
/// or join new ones.
pub open spec fn moves_only_for(cmds: Seq<(u64, Command)>, addr: u64) -> bool {
    forall|i: int|
        0 <= i < cmds.len() && (#[trigger] cmds[i]).0 == addr ==> is_move_for(cmds[i], addr)
}

/// +1 for a move-right, -1 for a move-left, 0 for anything else.
pub open spec fn move_delta(e: (u64, Command)) -> int {
    if e.1 == Command::MoveRight {
        1
    } else if e.1 == Command::MoveLeft {
        -1
    } else {
        0
    }
}

/// Number of entries `addr` issued in a batch.
pub open spec fn count_for(cmds: Seq<(u64, Command)>, addr: u64) -> int
    decreases cmds.len(),
{
    if cmds.len() == 0 {
        0
    } else {
        count_for(cmds.drop_last(), addr) + if cmds.last().0 == addr {
            1int
        } else {
            0int
        }
    }
}

/// Move-rights minus move-lefts among the entries `addr` issued.
pub open spec fn net_move_delta_for(cmds: Seq<(u64, Command)>, addr: u64) -> int
    decreases cmds.len(),
{
    if cmds.len() == 0 {
        0
    } else {
        net_move_delta_for(cmds.drop_last(), addr) + if cmds.last().0 == addr {
            move_delta(cmds.last())
        } else {
            0int
        }
    }
}

/// A sender's net move count is bounded by its entry count, which is bounded
/// by the batch length.
pub proof fn lemma_sender_counts_bound(cmds: Seq<(u64, Command)>, addr: u64)
    ensures
        0 <= count_for(cmds, addr) <= cmds.len(),
        -count_for(cmds, addr) <= net_move_delta_for(cmds, addr) <= count_for(cmds, addr),
    decreases cmds.len(),
{
    if cmds.len() > 0 {
        lemma_sender_counts_bound(cmds.drop_last(), addr);
    }
}

/// `p` with `d * acc` added to its horizontal velocity and nothing else
/// changed.
pub open spec fn moved_x(p: Player, d: int) -> Player {
    Player { vel: Vec2 { x: (p.vel.x + p.acc * d) as i64, ..p.vel }, ..p }
}

/// Applying a batch whose entries from the player at index `i` are all
/// horizontal moves changes that player exactly by adding
/// `acc * net_move_delta_for` to its horizontal velocity — provided the
/// player's own entries cannot reach the velocity saturation bound. Entries
/// from other senders may do anything (move other players, join new ones);
/// they never touch the player at `i`.
pub proof fn lemma_apply_moves(ps: Seq<Player>, cmds: Seq<(u64, Command)>, i: int)
    requires
        wf_players(ps),
        0 <= i < ps.len(),
        moves_only_for(cmds, ps[i].addr),
        ps[i].acc * count_for(cmds, ps[i].addr) + abs(ps[i].vel.x as int) <= VEL_LIMIT,
    ensures
        ({
            let r = spec_apply_all(ps, cmds);
            &&& r.len() >= ps.len()
            &&& wf_players(r)
            &&& forall|j: int| 0 <= j < ps.len() ==> #[trigger] r[j].addr == ps[j].addr
            &&& r[i] == moved_x(ps[i], net_move_delta_for(cmds, ps[i].addr))
        }),
    decreases cmds.len(),
{
    let p = ps[i];
    let addr = p.addr;
    lemma_apply_all_wf(ps, cmds);
    if cmds.len() == 0 {
        assert(moved_x(p, 0) == p);
    } else {
        let d = cmds.drop_last();
        let e = cmds.last();
        assert(moves_only_for(d, addr)) by {
            assert forall|j: int|
                0 <= j < d.len() && (#[trigger] d[j]).0 == addr implies is_move_for(d[j], addr) by {
                assert(d[j] == cmds[j]);
            }
        }
        lemma_sender_counts_bound(cmds, addr);
        lemma_sender_counts_bound(d, addr);
        let cd = count_for(d, addr);
        assert(p.acc * cd + abs(p.vel.x as int) <= VEL_LIMIT) by (nonlinear_arith)
            requires
                p.acc >= 0,
                cd <= count_for(cmds, addr),
                p.acc * count_for(cmds, addr) + abs(p.vel.x as int) <= VEL_LIMIT,
        ;
        lemma_apply_moves(ps, d, i);
        lemma_apply_all_wf(ps, d);
        let rd = spec_apply_all(ps, d);
        let nd = net_move_delta_for(d, addr);
        assert(rd[i] == moved_x(p, nd));
        if e.0 == addr {
            // The last entry is one more of this player's own moves: it finds
            // the player at `i` and nudges the same velocity once more,
            // without reaching the saturation bound.
            assert(abs(p.vel.x + p.acc * nd) + p.acc <= VEL_LIMIT) by (nonlinear_arith)
                requires
                    p.acc >= 0,
                    -cd <= nd <= cd,
                    count_for(cmds, addr) == cd + 1,
                    p.acc * count_for(cmds, addr) + abs(p.vel.x as int) <= VEL_LIMIT,
            ;
            assert(e == cmds[cmds.len() - 1]);
            assert(is_move_for(e, addr));
            assert forall|j: int| 0 <= j < i implies rd[j].addr != addr by {
                assert(rd[j].addr == ps[j].addr);
            }
            lemma_find_addr_at(rd, addr, i);
            assert(p.acc * net_move_delta_for(cmds, addr) == p.acc * nd + p.acc * move_delta(e))
                by (nonlinear_arith)
                requires
                    net_move_delta_for(cmds, addr) == nd + move_delta(e),
            ;
            assert(spec_apply_one(rd, e.0, e.1)[i] == moved_x(p, net_move_delta_for(cmds, addr)));
        } else {
            // The last entry belongs to another sender: whether it updates
            // another player or joins a new one, index `i` is untouched.
            lemma_find_addr_props(rd, e.0);
            let k = find_addr(rd, e.0);
            if k >= 0 {
                assert(rd[k].addr == e.0);
                assert(k != i);
            }
            assert(spec_apply_one(rd, e.0, e.1)[i] == rd[i]);
        }
    }
}

/// The hypotheses under which one tick's effect on the player at index `i`
/// is the exact friction recurrence: every entry the player issued in the
/// batch is a horizontal move (other senders' entries are arbitrary), the
/// player's own entries cannot reach the velocity saturation bound, and the
/// step does not hit a horizontal world bound.
pub open spec fn recurrence_tick_hyps(ps: Seq<Player>, cmds: Seq<(u64, Command)>, i: int) -> bool {
    &&& moves_only_for(cmds, ps[i].addr)
    &&& ps[i].acc * count_for(cmds, ps[i].addr) + abs(ps[i].vel.x as int) <= VEL_LIMIT
    &&& 0 < ps[i].pos.x + ps[i].vel.x + ps[i].acc * net_move_delta_for(cmds, ps[i].addr) < X_MAX
}

/// One tick of the friction recurrence: under `recurrence_tick_hyps`, the
/// player's horizontal velocity after the tick is exactly
/// `fric(v + acc * (rights - lefts))` and its position advanced by the
/// commanded velocity. Other senders' entries in the same batch may join or
/// move other players; they never shift this player's index.
pub proof fn lemma_tick_velocity_step(ps: Seq<Player>, cmds: Seq<(u64, Command)>, i: int)
    requires
        wf_players(ps),
        0 <= i < ps.len(),
        recurrence_tick_hyps(ps, cmds, i),
    ensures
        ({
            let after = spec_tick_players(ps, cmds);
            let nd = net_move_delta_for(cmds, ps[i].addr);
            &&& after.len() >= ps.len()
            &&& wf_players(after)
            &&& after[i].addr == ps[i].addr
            &&& after[i].acc == ps[i].acc
            &&& after[i].vel.x == spec_fric(ps[i].vel.x + ps[i].acc * nd)
            &&& after[i].pos.x == ps[i].pos.x + ps[i].vel.x + ps[i].acc * nd
        }),
{
    let addr = ps[i].addr;
    let nd = net_move_delta_for(cmds, addr);
    lemma_apply_moves(ps, cmds, i);
    let applied = spec_apply_all(ps, cmds);
    assert(abs(ps[i].vel.x + ps[i].acc * nd) <= VEL_LIMIT) by {
        lemma_sender_counts_bound(cmds, addr);
        assert(abs(ps[i].vel.x + ps[i].acc * nd) <= VEL_LIMIT) by (nonlinear_arith)
            requires
                ps[i].acc >= 0,
                -count_for(cmds, addr) <= nd <= count_for(cmds, addr),
                ps[i].acc * count_for(cmds, addr) + abs(ps[i].vel.x as int) <= VEL_LIMIT,
        ;
    }
    lemma_physics_map_wf(applied);
    let after = spec_tick_players(ps, cmds);
    assert(after[i] == spec_physics(applied[i]));
}

/// Horizontal velocity under the friction recurrence, one entry per tick:
/// each tick adds `acc * delta` and then applies one friction step.
pub open spec fn vel_recurrence(v: int, acc: int, deltas: Seq<int>) -> int
    decreases deltas.len(),
{
    if deltas.len() == 0 {
        v
    } else {
        vel_recurrence(spec_fric(v + acc * deltas[0]), acc, deltas.drop_first())
    }
}

/// The player list after a run of ticks, each fed its own command batch.
pub open spec fn run_ticks(ps: Seq<Player>, batches: Seq<Seq<(u64, Command)>>) -> Seq<Player>
    decreases batches.len(),
{
    if batches.len() == 0 {
        ps
    } else {
        run_ticks(spec_tick_players(ps, batches[0]), batches.drop_first())
    }
}

/// One sender's net move count of each batch, in tick order.
pub open spec fn deltas_for(batches: Seq<Seq<(u64, Command)>>, addr: u64) -> Seq<int> {
    batches.map_values(|b: Seq<(u64, Command)>| net_move_delta_for(b, addr))
}

/// The friction recurrence over any number of ticks: as long as the player at
/// index `i` issues only horizontal moves, stays inside the velocity
/// saturation bound and hits no horizontal world bound, its horizontal
/// velocity after the run equals the recurrence
/// `v <- fric(v + acc * (rights - lefts))` folded over its per-tick net move
/// counts — the engine matches the analytic recurrence exactly. The batches
/// may carry any other senders' commands alongside.
pub proof fn lemma_velocity_recurrence(ps: Seq<Player>, batches: Seq<Seq<(u64, Command)>>, i: int)
    requires
        wf_players(ps),
        0 <= i < ps.len(),
        forall|k: int|
            0 <= k < batches.len() ==> recurrence_tick_hyps(
                #[trigger] run_ticks(ps, batches.take(k)),
                batches[k],
                i,
            ),
    ensures
        ({
            let fin = run_ticks(ps, batches);
            &&& fin.len() >= ps.len()
            &&& fin[i].addr == ps[i].addr
            &&& fin[i].vel.x == vel_recurrence(ps[i].vel.x as int, ps[i].acc as int, deltas_for(
                batches,
                ps[i].addr,
            ))
        }),
    decreases batches.len(),
{
    let addr = ps[i].addr;
    if batches.len() == 0 {
        assert(deltas_for(batches, addr) =~= Seq::<int>::empty());
    } else {
        let first = batches[0];
        let rest = batches.drop_first();
        assert(batches.take(0) =~= Seq::<Seq<(u64, Command)>>::empty());
        assert(run_ticks(ps, batches.take(0)) == ps);
        assert(recurrence_tick_hyps(run_ticks(ps, batches.take(0)), batches[0], i));
        assert(recurrence_tick_hyps(ps, first, i));
        lemma_tick_velocity_step(ps, first, i);
        let t1 = spec_tick_players(ps, first);
        assert forall|k: int|
            0 <= k < rest.len() implies recurrence_tick_hyps(
            #[trigger] run_ticks(t1, rest.take(k)),
            rest[k],
            i,
        ) by {
            assert(batches.take(k + 1)[0] == first);
            assert(batches.take(k + 1).drop_first() =~= rest.take(k));
            assert(run_ticks(ps, batches.take(k + 1)) == run_ticks(t1, rest.take(k)));
            assert(rest[k] == batches[k + 1]);
        }
        lemma_velocity_recurrence(t1, rest, i);
        assert(deltas_for(batches, addr).drop_first() =~= deltas_for(rest, addr));
        assert(deltas_for(batches, addr)[0] == net_move_delta_for(first, addr));
    }
}

} // verus!
