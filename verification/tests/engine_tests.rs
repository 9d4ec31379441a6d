use tick_engine::codec::decode_commands;
use tick_engine::codec::encode_snapshot;
use tick_engine::codec::DecodeError;
use tick_engine::codec::EncodeError;
use tick_engine::codec::COMMANDS_TAG;
use tick_engine::codec::MAX_SNAPSHOT_PLAYERS;
use tick_engine::codec::SNAPSHOT_TAG;
use tick_engine::engine::handle_packet;
use tick_engine::engine::tick;
use tick_engine::game::Color;
use tick_engine::game::Command;
use tick_engine::game::Player;
use tick_engine::game::Vec2;
use tick_engine::game::World;
use tick_engine::game::DEFAULT_ACC;
use tick_engine::game::DEFAULT_JUMP_FORCE;
use tick_engine::game::X_MAX;
use tick_engine::game::Y_MAX;
use tick_engine::queue::CommandQueue;

fn resting_player(addr: u64, x: i64, y: i64) -> Player {
    Player {
        addr,
        pos: Vec2 { x, y },
        vel: Vec2 { x: 0, y: 0 },
        acc: DEFAULT_ACC,
        jump_force: DEFAULT_JUMP_FORCE,
        color: Color::Red,
    }
}

/// One jump from rest at the origin: the step pulls the player below the
/// floor, so the position is clamped back to zero and the vertical velocity
/// is zeroed with it.
#[test]
fn jump_from_origin_clamps_to_floor() {
    let mut world = World {
        players: vec![resting_player(7, 0, 0)],
    };
    let cmds = vec![(7u64, Command::Jump)];
    let r = tick(&mut world, &cmds);
    assert!(r.is_ok());
    assert_eq!(world.players.len(), 1);
    assert_eq!(world.players[0].pos, Vec2 { x: 0, y: 0 });
    assert_eq!(world.players[0].vel, Vec2 { x: 0, y: 0 });
}

/// The friction recurrence on concrete values: two move-rights over two
/// ticks give v1 = fric(0 + 1000) = 800, v2 = fric(800 + 1000) = 1440,
/// x2 = 1000 + 1800 = 2800 sub-units.
#[test]
fn move_right_two_ticks_matches_recurrence() {
    let mut world = World {
        players: vec![resting_player(1, 0, Y_MAX)],
    };
    let cmds = vec![(1u64, Command::MoveRight)];
    assert!(tick(&mut world, &cmds).is_ok());
    assert_eq!(world.players[0].vel.x, 800);
    assert_eq!(world.players[0].pos.x, 1000);
    assert!(tick(&mut world, &cmds).is_ok());
    assert_eq!(world.players[0].vel.x, 1440);
    assert_eq!(world.players[0].pos.x, 2800);
}

/// Mixed lefts and rights in one tick apply cumulatively in arrival order:
/// net one right, so v = fric(1000) = 800.
#[test]
fn mixed_moves_accumulate_within_one_tick() {
    let mut world = World {
        players: vec![resting_player(1, 100000, Y_MAX)],
    };
    let cmds = vec![
        (1u64, Command::MoveRight),
        (1u64, Command::MoveRight),
        (1u64, Command::MoveLeft),
    ];
    assert!(tick(&mut world, &cmds).is_ok());
    assert_eq!(world.players[0].vel.x, 800);
    assert_eq!(world.players[0].pos.x, 101000);
}

/// Clamping idempotence on the horizontal axis: at a horizontal bound with
/// no horizontal velocity, further command-free ticks change neither the
/// position nor that velocity component.
#[test]
fn horizontal_bound_is_idempotent() {
    let mut world = World {
        players: vec![resting_player(3, X_MAX, 50000)],
    };
    let none: Vec<(u64, Command)> = Vec::new();
    for _ in 0..3 {
        assert!(tick(&mut world, &none).is_ok());
        assert_eq!(world.players[0].pos.x, X_MAX);
        assert_eq!(world.players[0].vel.x, 0);
    }
}

/// Clamping idempotence on the vertical axis: resting on the floor with no
/// vertical velocity, further command-free ticks change neither the position
/// nor that velocity component — landing exactly on the bound counts as a
/// bound hit, so the gravity each step loads is zeroed again.
#[test]
fn vertical_bound_is_idempotent() {
    let mut world = World {
        players: vec![resting_player(3, 1000, Y_MAX)],
    };
    let none: Vec<(u64, Command)> = Vec::new();
    for _ in 0..4 {
        assert!(tick(&mut world, &none).is_ok());
        assert_eq!(world.players[0].pos.y, Y_MAX);
        assert_eq!(world.players[0].vel.y, 0);
    }
}

/// A command from an unseen address joins exactly one new player, and the
/// newcomer is still at the default state — zero position and velocity — at
/// the end of the joining tick, whatever the command was: the join applies no
/// motion, and the origin rests on the world bounds.
#[test]
fn join_creates_one_default_player() {
    for cmd in [
        Command::MoveLeft,
        Command::MoveRight,
        Command::Jump,
        Command::Nop,
    ] {
        let mut world = World { players: Vec::new() };
        let cmds = vec![(42u64, cmd)];
        assert!(tick(&mut world, &cmds).is_ok());
        assert_eq!(world.players.len(), 1);
        let p = &world.players[0];
        assert_eq!(p.addr, 42);
        assert_eq!(p.pos, Vec2 { x: 0, y: 0 });
        assert_eq!(p.vel, Vec2 { x: 0, y: 0 });
        assert_eq!(p.acc, DEFAULT_ACC);
        assert_eq!(p.jump_force, DEFAULT_JUMP_FORCE);
        assert_eq!(p.color, Color::Red);
    }
}

/// A second command from a known address is applied, not a second join.
#[test]
fn known_address_does_not_join_again() {
    let mut world = World { players: Vec::new() };
    assert!(tick(&mut world, &vec![(42u64, Command::Nop)]).is_ok());
    assert!(tick(&mut world, &vec![(42u64, Command::MoveRight)]).is_ok());
    assert_eq!(world.players.len(), 1);
    assert_eq!(world.players[0].vel.x, 800);
}

/// Queue atomicity at the drain boundary: a drain yields exactly the entries
/// enqueued before it, each exactly once and in order, and entries enqueued
/// after the drain are all still queued for the next one.
#[test]
fn drain_returns_each_entry_exactly_once() {
    let mut q = CommandQueue::new();
    q.enqueue(1, Command::MoveLeft);
    q.enqueue(2, Command::Jump);
    q.enqueue(1, Command::MoveLeft);
    let first = q.drain_all();
    assert_eq!(
        first,
        vec![
            (1, Command::MoveLeft),
            (2, Command::Jump),
            (1, Command::MoveLeft)
        ]
    );
    assert_eq!(q.len(), 0);
    q.enqueue(3, Command::MoveRight);
    q.enqueue(4, Command::Nop);
    let second = q.drain_all();
    assert_eq!(second, vec![(3, Command::MoveRight), (4, Command::Nop)]);
    assert_eq!(q.len(), 0);
    assert!(q.drain_all().is_empty());
}

/// Broadcast completeness: with K known players the tick plans exactly K
/// sends, one per player's address in join order, all of the one snapshot.
#[test]
fn broadcast_plans_one_send_per_player() {
    let mut world = World {
        players: vec![
            resting_player(10, 0, 0),
            resting_player(20, 1000, 2000),
            resting_player(30, X_MAX, Y_MAX),
        ],
    };
    let none: Vec<(u64, Command)> = Vec::new();
    let b = tick(&mut world, &none).unwrap();
    assert_eq!(b.recipients, vec![10, 20, 30]);
    assert_eq!(b.payload.len(), 2 + 9 * 3);
    assert_eq!(b.payload[0], SNAPSHOT_TAG);
    assert_eq!(b.payload[1], 3);
}

/// The snapshot bytes, exactly: tag, count, then per player the two
/// little-endian positions and the color byte.
#[test]
fn snapshot_encoding_is_exact() {
    let players = vec![Player {
        addr: 5,
        pos: Vec2 { x: 1000, y: 2000 },
        vel: Vec2 { x: 0, y: 0 },
        acc: DEFAULT_ACC,
        jump_force: DEFAULT_JUMP_FORCE,
        color: Color::Green,
    }];
    let bytes = encode_snapshot(&players).unwrap();
    assert_eq!(
        bytes,
        vec![SNAPSHOT_TAG, 1, 0xE8, 0x03, 0, 0, 0xD0, 0x07, 0, 0, 1]
    );
}

/// A player list too long for one datagram is reported, never truncated.
#[test]
fn snapshot_too_large_is_reported() {
    let players = vec![resting_player(1, 0, 0); MAX_SNAPSHOT_PLAYERS + 1];
    assert_eq!(encode_snapshot(&players), Err(EncodeError::SizeExceeded));
    let fits = vec![resting_player(1, 0, 0); MAX_SNAPSHOT_PLAYERS];
    assert!(encode_snapshot(&fits).is_ok());
}

/// A well-formed command batch decodes to its commands in order; byte zero is
/// the explicit no-op.
#[test]
fn decode_well_formed_batch() {
    let packet = [COMMANDS_TAG, 4, 1, 2, 3, 0];
    let cs = decode_commands(&packet).unwrap();
    assert_eq!(
        cs,
        vec![
            Command::MoveLeft,
            Command::MoveRight,
            Command::Jump,
            Command::Nop
        ]
    );
}

/// Each malformed shape is rejected with its own reason.
#[test]
fn decode_rejects_malformed_buffers() {
    assert_eq!(decode_commands(&[]), Err(DecodeError::TooShort));
    assert_eq!(decode_commands(&[COMMANDS_TAG]), Err(DecodeError::TooShort));
    assert_eq!(decode_commands(&[0x00, 1, 1]), Err(DecodeError::BadTag));
    assert_eq!(
        decode_commands(&[COMMANDS_TAG, 3, 1]),
        Err(DecodeError::LengthMismatch)
    );
    assert_eq!(
        decode_commands(&[COMMANDS_TAG, 1, 9]),
        Err(DecodeError::BadCommand)
    );
}

/// A truncated or corrupt datagram enqueues nothing, and the tick that
/// follows behaves exactly as if no packet had arrived.
#[test]
fn corrupt_packet_enqueues_nothing() {
    let mut q = CommandQueue::new();
    let truncated = [COMMANDS_TAG, 5, 1, 2];
    assert_eq!(
        handle_packet(&truncated, 9, &mut q),
        Err(DecodeError::LengthMismatch)
    );
    assert_eq!(q.len(), 0);

    let mut with_packet = World {
        players: vec![resting_player(9, 1000, 1000)],
    };
    let mut without_packet = World {
        players: vec![resting_player(9, 1000, 1000)],
    };
    let batch = q.drain_all();
    assert!(tick(&mut with_packet, &batch).is_ok());
    let none: Vec<(u64, Command)> = Vec::new();
    assert!(tick(&mut without_packet, &none).is_ok());
    assert_eq!(with_packet.players, without_packet.players);
}

/// A good datagram enqueues one entry per command, keyed by its sender.
#[test]
fn good_packet_enqueues_all_commands() {
    let mut q = CommandQueue::new();
    q.enqueue(77, Command::Nop);
    let packet = [COMMANDS_TAG, 2, 2, 3];
    assert_eq!(handle_packet(&packet, 11, &mut q), Ok(2));
    let drained = q.drain_all();
    assert_eq!(
        drained,
        vec![
            (77, Command::Nop),
            (11, Command::MoveRight),
            (11, Command::Jump)
        ]
    );
}

/// One join per distinct unseen address, however many entries each sent and
/// whatever command kinds they carried; known senders never join again.
#[test]
fn multiple_new_addresses_join_once_each() {
    let mut world = World {
        players: vec![resting_player(1, 1000, 1000)],
    };
    let cmds = vec![
        (50u64, Command::Jump),
        (60u64, Command::MoveLeft),
        (50u64, Command::MoveRight),
        (1u64, Command::Nop),
        (60u64, Command::Nop),
    ];
    assert!(tick(&mut world, &cmds).is_ok());
    assert_eq!(world.players.len(), 3);
    assert_eq!(world.players[0].addr, 1);
    assert_eq!(world.players[1].addr, 50);
    assert_eq!(world.players[2].addr, 60);
    let again = vec![(50u64, Command::Nop), (60u64, Command::Jump)];
    assert!(tick(&mut world, &again).is_ok());
    assert_eq!(world.players.len(), 3);
}
