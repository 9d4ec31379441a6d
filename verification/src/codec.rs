//! The wire codec: a fixed little-endian byte schema for the two datagram
//! kinds the server exchanges.
//!
//! Inbound, a batch of commands: a tag byte, a count byte, then one command
//! byte per entry. Outbound, a snapshot: a tag byte, a count byte, then one
//! nine-byte record per player (x position, y position as 32-bit
//! little-endian sub-unit counts, then a color byte). Decoding rejects
//! malformed or truncated buffers instead of guessing; encoding reports a
//! snapshot too large for one datagram instead of truncating it.

use vstd::prelude::*;

use crate::game::Color;
use crate::game::Command;
use crate::game::Player;
use crate::game::wf_player;

verus! {

/// Ceiling on a datagram's payload, in bytes.
pub const MAX_DATAGRAM: usize = 2048;

/// First byte of every command-batch message.
pub const COMMANDS_TAG: u8 = 0xC1;

/// First byte of every snapshot message.
pub const SNAPSHOT_TAG: u8 = 0xB2;

/// Bytes one player record occupies in a snapshot.
pub const PLAYER_RECORD_BYTES: usize = 9;

/// Largest command byte that names a command.
pub const MAX_COMMAND_BYTE: u8 = 3;

/// Most players one snapshot datagram can carry:
/// `2 + PLAYER_RECORD_BYTES * MAX_SNAPSHOT_PLAYERS <= MAX_DATAGRAM`.
pub const MAX_SNAPSHOT_PLAYERS: usize = 227;

/// Why an inbound buffer was rejected.
#[derive(Clone, Copy, PartialEq, Eq, Structural, Debug)]
pub enum DecodeError {
    /// Shorter than the two header bytes.
    TooShort,
    /// The first byte is not `COMMANDS_TAG`.
    BadTag,
    /// The count byte disagrees with the buffer length.
    LengthMismatch,
    /// Some command byte exceeds `MAX_COMMAND_BYTE`.
    BadCommand,
}

/// Why a snapshot could not be encoded.
#[derive(Clone, Copy, PartialEq, Eq, Structural, Debug)]
pub enum EncodeError {
    /// The player list does not fit one datagram.
    SizeExceeded,
}

/// The command a wire byte names.
pub open spec fn command_of_byte(b: u8) -> Command {
    if b == 1 {
        Command::MoveLeft
    } else if b == 2 {
        Command::MoveRight
    } else if b == 3 {
        Command::Jump
    } else {
        Command::Nop
    }
}

/// The wire byte of a color.
pub open spec fn color_byte(c: Color) -> u8 {
    match c {
        Color::Red => 0,
        Color::Green => 1,
        Color::Blue => 2,
        Color::Yellow => 3,
    }
}

/// Whether a buffer is a well-formed command-batch message.
pub open spec fn valid_commands_msg(b: Seq<u8>) -> bool {
    &&& b.len() >= 2
    &&& b[0] == COMMANDS_TAG
    &&& b.len() == 2 + b[1]
    &&& forall|i: int| 2 <= i < b.len() ==> #[trigger] b[i] <= MAX_COMMAND_BYTE
}

/// The commands a well-formed command-batch message carries, in order.
pub open spec fn commands_of(b: Seq<u8>) -> Seq<Command> {
    b.subrange(2, b.len() as int).map_values(|x: u8| command_of_byte(x))
}

/// What decoding a buffer yields: the commands of a well-formed message, or
/// the first error in header-to-payload order.
pub open spec fn spec_decode(b: Seq<u8>) -> Result<Seq<Command>, DecodeError> {
    if b.len() < 2 {
        Err(DecodeError::TooShort)
    } else if b[0] != COMMANDS_TAG {
        Err(DecodeError::BadTag)
    } else if b.len() != 2 + b[1] {
        Err(DecodeError::LengthMismatch)
    } else if exists|i: int| 2 <= i < b.len() && #[trigger] b[i] > MAX_COMMAND_BYTE {
        Err(DecodeError::BadCommand)
    } else {
        Ok(commands_of(b))
    }
}

/// Decode a command-batch datagram. Succeeds exactly on well-formed buffers;
/// a malformed or truncated buffer is rejected with the reason and nothing
/// else happens.
pub fn decode_commands(packet: &[u8]) -> (r: Result<Vec<Command>, DecodeError>)
    ensures
        match r {
            Ok(cs) => spec_decode(packet@) == Ok::<Seq<Command>, DecodeError>(cs@),
            Err(e) => spec_decode(packet@) == Err::<Seq<Command>, DecodeError>(e),
        },
{
    let n = packet.len();
    if n < 2 {
        return Err(DecodeError::TooShort);
    }
    if packet[0] != COMMANDS_TAG {
        return Err(DecodeError::BadTag);
    }
    let count = packet[1] as usize;
    if n != 2 + count {
        return Err(DecodeError::LengthMismatch);
    }
    let mut cs: Vec<Command> = Vec::new();
    let mut i: usize = 2;
    while i < n
        invariant
            n == packet@.len(),
            n == 2 + count,
            packet@[0] == COMMANDS_TAG,
            count == packet@[1],
            2 <= i <= n,
            forall|j: int| 2 <= j < i ==> #[trigger] packet@[j] <= MAX_COMMAND_BYTE,
            cs@ == packet@.subrange(2, i as int).map_values(|x: u8| command_of_byte(x)),
        decreases n - i,
    {
        let b = packet[i];
        if b > MAX_COMMAND_BYTE {
            proof {
                let w: int = i as int;
                assert(2 <= w < packet@.len() && packet@[w] > MAX_COMMAND_BYTE);
            }
            return Err(DecodeError::BadCommand);
        }
        let c = if b == 1 {
            Command::MoveLeft
        } else if b == 2 {
            Command::MoveRight
        } else if b == 3 {
            Command::Jump
        } else {
            Command::Nop
        };
        cs.push(c);
        proof {
            assert(packet@.subrange(2, i as int + 1) =~= packet@.subrange(2, i as int).push(
                packet@[i as int],
            ));
            assert(cs@ =~= packet@.subrange(2, i as int + 1).map_values(
                |x: u8| command_of_byte(x),
            ));
        }
        i = i + 1;
    }
    proof {
        assert(packet@.subrange(2, n as int) =~= packet@.subrange(2, i as int));
    }
    Ok(cs)
}

/// The 32-bit little-endian encoding of `v`.
pub open spec fn le32(v: int) -> Seq<u8> {
    seq![
        (v % 256) as u8,
        ((v / 256) % 256) as u8,
        ((v / 65536) % 256) as u8,
        ((v / 16777216) % 256) as u8,
    ]
}

/// One player's snapshot record: x, y (sub-units, little endian), color.
pub open spec fn encode_player(p: Player) -> Seq<u8> {
    le32(p.pos.x as int) + le32(p.pos.y as int) + seq![color_byte(p.color)]
}

/// The concatenated records of a player list, in list order.
pub open spec fn encode_players(ps: Seq<Player>) -> Seq<u8>
    decreases ps.len(),
{
    if ps.len() == 0 {
        Seq::empty()
    } else {
        encode_players(ps.drop_last()) + encode_player(ps.last())
    }
}

/// A whole snapshot message: tag, player count, then the records.
pub open spec fn spec_encode_snapshot(ps: Seq<Player>) -> Seq<u8> {
    seq![SNAPSHOT_TAG, ps.len() as u8] + encode_players(ps)
}

/// Bytes a snapshot of `n` players occupies.
pub open spec fn snapshot_size(n: int) -> int {
    2 + PLAYER_RECORD_BYTES * n
}

/// The concatenated records of `n` players occupy `PLAYER_RECORD_BYTES * n`
/// bytes.
pub proof fn lemma_encode_players_len(ps: Seq<Player>)
    ensures
        encode_players(ps).len() == PLAYER_RECORD_BYTES * ps.len(),
    decreases ps.len(),
{
    if ps.len() > 0 {
        lemma_encode_players_len(ps.drop_last());
    }
}

/// Append the little-endian bytes of a position component.
fn push_le32(out: &mut Vec<u8>, v: i64)
    requires
        0 <= v < 4294967296,
    ensures
        final(out)@ == old(out)@ + le32(v as int),
{
    let u = v as u32;
    out.push((u % 256) as u8);
    out.push(((u / 256) % 256) as u8);
    out.push(((u / 65536) % 256) as u8);
    out.push(((u / 16777216) % 256) as u8);
    proof {
        assert(final(out)@ =~= old(out)@ + le32(v as int));
    }
}

/// The wire byte of a color.
fn color_to_byte(c: Color) -> (b: u8)
    ensures
        b == color_byte(c),
{
    match c {
        Color::Red => 0,
        Color::Green => 1,
        Color::Blue => 2,
        Color::Yellow => 3,
    }
}

/// Encode the snapshot of a player list. Succeeds exactly when the list fits
/// one datagram (`MAX_SNAPSHOT_PLAYERS` records); a longer list is reported
/// as `SizeExceeded`, never truncated.
pub fn encode_snapshot(players: &Vec<Player>) -> (r: Result<Vec<u8>, EncodeError>)
    requires
        forall|i: int| 0 <= i < players@.len() ==> wf_player(#[trigger] players@[i]),
    ensures
        players@.len() <= MAX_SNAPSHOT_PLAYERS ==> (r matches Ok(b) && b@
            == spec_encode_snapshot(players@) && b@.len() == snapshot_size(players@.len() as int)
            && b@.len() <= MAX_DATAGRAM),
        players@.len() > MAX_SNAPSHOT_PLAYERS ==> r == Err::<Vec<u8>, EncodeError>(
            EncodeError::SizeExceeded,
        ),
{
    let n = players.len();
    if n > MAX_SNAPSHOT_PLAYERS {
        return Err(EncodeError::SizeExceeded);
    }
    let mut out: Vec<u8> = Vec::new();
    out.push(SNAPSHOT_TAG);
    out.push(n as u8);
    let mut k: usize = 0;
    while k < n
        invariant
            n == players@.len(),
            n <= MAX_SNAPSHOT_PLAYERS,
            k <= n,
            forall|i: int| 0 <= i < players@.len() ==> wf_player(#[trigger] players@[i]),
            out@ == seq![SNAPSHOT_TAG, n as u8] + encode_players(players@.take(k as int)),
        decreases n - k,
    {
        let p = &players[k];
        push_le32(&mut out, p.pos.x);
        push_le32(&mut out, p.pos.y);
        out.push(color_to_byte(p.color));
        proof {
            assert(players@.take(k as int + 1).drop_last() =~= players@.take(k as int));
            assert(players@.take(k as int + 1).last() == players@[k as int]);
            assert(out@ =~= seq![SNAPSHOT_TAG, n as u8] + encode_players(
                players@.take(k as int + 1),
            ));
        }
        k = k + 1;
    }
    proof {
        assert(players@.take(n as int) =~= players@);
        lemma_encode_players_len(players@);
    }
    Ok(out)
}

} // verus!
