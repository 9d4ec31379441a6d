//! The two entry points the server's threads drive: `handle_packet` on the
//! ingestion path and `tick` on the simulation path.
//!
//! `tick` performs everything one simulation step owes: it applies the
//! drained command batch in arrival order (joining unseen addresses), runs
//! one physics step on every player, and prepares the broadcast — one encoded
//! snapshot and the list of every known player's address, in send order. The
//! caller performs the send attempts, one per address, each best-effort.

use vstd::prelude::*;

use crate::codec;
use crate::codec::DecodeError;
use crate::codec::EncodeError;
use crate::game;
use crate::game::Command;
use crate::game::Player;
use crate::game::World;
use crate::queue::CommandQueue;

verus! {

/// The broadcast one tick owes: a single encoded snapshot and the addresses
/// to send it to, one entry per known player, in join order.
pub struct Broadcast {
    pub payload: Vec<u8>,
    pub recipients: Vec<u64>,
}

/// The address keys of a player list, in list order.
pub open spec fn addrs_of(ps: Seq<Player>) -> Seq<u64> {
    ps.map_values(|p: Player| p.addr)
}

/// The player list after one whole tick fed with the command batch `cmds`:
/// commands applied in arrival order (with joins), then one physics step for
/// every player.
pub open spec fn spec_tick_players(ps: Seq<Player>, cmds: Seq<(u64, Command)>) -> Seq<Player> {
    game::spec_apply_all(ps, cmds).map_values(|p: Player| game::spec_physics(p))
}

/// Run one tick: apply the command batch, step the physics, and prepare the
/// broadcast. With `K` players known afterwards the broadcast plans exactly
/// `K` sends of the one encoded snapshot; a snapshot too large for one
/// datagram is reported instead, leaving no broadcast for this tick.
pub fn tick(world: &mut World, cmds: &Vec<(u64, Command)>) -> (r: Result<Broadcast, EncodeError>)
    requires
        old(world).wf(),
    ensures
        final(world).wf(),
        final(world).players@ == spec_tick_players(old(world).players@, cmds@),
        final(world).players@.len() <= codec::MAX_SNAPSHOT_PLAYERS ==> (r matches Ok(b)
            && b.payload@ == codec::spec_encode_snapshot(final(world).players@) && b.recipients@
            == addrs_of(final(world).players@)),
        final(world).players@.len() > codec::MAX_SNAPSHOT_PLAYERS ==> r == Err::<
            Broadcast,
            EncodeError,
        >(EncodeError::SizeExceeded),
{
    world.apply_commands(cmds);
    world.physics();
    let payload = match codec::encode_snapshot(&world.players) {
        Ok(b) => b,
        Err(e) => {
            return Err(e);
        },
    };
    let n = world.players.len();
    let mut recipients: Vec<u64> = Vec::new();
    let mut k: usize = 0;
    while k < n
        invariant
            n == world.players@.len(),
            k <= n,
            recipients@ == addrs_of(world.players@.take(k as int)),
        decreases n - k,
    {
        recipients.push(world.players[k].addr);
        proof {
            assert(recipients@ =~= addrs_of(world.players@.take(k as int + 1)));
        }
        k = k + 1;
    }
    proof {
        assert(world.players@.take(n as int) =~= world.players@);
    }
    Ok(Broadcast { payload, recipients })
}

/// Ingest one datagram: decode it and append one queue entry per decoded
/// command, all keyed by the datagram's source address. A malformed buffer is
/// rejected with the reason and enqueues nothing — the tick that follows sees
/// the queue exactly as if the packet had never arrived.
pub fn handle_packet(packet: &[u8], src_addr: u64, queue: &mut CommandQueue) -> (r: Result<
    usize,
    DecodeError,
>)
    ensures
        match r {
            Ok(n) => codec::spec_decode(packet@) matches Ok(cs) && n == cs.len() && final(queue)@
                == old(queue)@ + cs.map_values(|c: Command| (src_addr, c)),
            Err(e) => codec::spec_decode(packet@) == Err::<Seq<Command>, DecodeError>(e)
                && final(queue)@ == old(queue)@,
        },
{
    let cs = match codec::decode_commands(packet) {
        Ok(cs) => cs,
        Err(e) => {
            return Err(e);
        },
    };
    let n = cs.len();
    let mut k: usize = 0;
    while k < n
        invariant
            n == cs@.len(),
            k <= n,
            queue@ == old(queue)@ + cs@.take(k as int).map_values(|c: Command| (src_addr, c)),
        decreases n - k,
    {
        queue.enqueue(src_addr, cs[k]);
        proof {
            assert(queue@ =~= old(queue)@ + cs@.take(k as int + 1).map_values(
                |c: Command| (src_addr, c),
            ));
        }
        k = k + 1;
    }
    proof {
        assert(cs@.take(n as int) =~= cs@);
    }
    Ok(n)
}

} // verus!
