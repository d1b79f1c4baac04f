//! Verified core of a real-time multiplayer game: a reliable-UDP transport
//! built from wrapping sequence numbers, an acknowledgement bitfield, a
//! fixed-layout packet header, and a per-peer connection state machine, plus
//! the entity bookkeeping and the player command vocabulary that ride on it.
//!
//! All socket, timer and rendering work lives outside this crate; the library
//! deals only in plain values (bytes, integers, its own types).

pub mod ack_bitfield;
pub mod codec;
pub mod connection;
pub mod endpoint;
pub mod entity_manager;
pub mod packet;
pub mod seq_number;

use vstd::prelude::*;

verus! {

/// A handle to one simulated object, handed out by the entity manager.
#[derive(Debug, Copy, Clone, Eq, PartialEq, Ord, PartialOrd, Hash, Structural)]
pub struct Entity(pub u32);

/// Which way the player pushes along their facing.
#[derive(Debug, Copy, Clone, Eq, PartialEq, Structural)]
pub enum MovementDirection {
    Up,
    Down,
}

/// Which way the player turns.
#[derive(Debug, Copy, Clone, Eq, PartialEq, Structural)]
pub enum RotationDirection {
    Left,
    Right,
}

/// Whether a held input begins or ends.
#[derive(Debug, Copy, Clone, Eq, PartialEq, Structural)]
pub enum MovementAction {
    Start,
    Stop,
}

/// One player input, as carried in a packet payload.
#[derive(Debug, Copy, Clone, Eq, PartialEq, Structural)]
pub enum PlayerCommand {
    Movement { direction: MovementDirection, action: MovementAction },
    Rotation { direction: RotationDirection, action: MovementAction },
    Shoot,
}

/// What a player is currently doing, folded from their commands.
#[derive(Debug, Copy, Clone, Eq, PartialEq)]
pub struct PlayerState {
    pub id: Option<Entity>,
    pub rotating: Option<RotationDirection>,
    pub moving: Option<MovementDirection>,
    pub shooting: Option<()>,
}

/// What a game client reports to the server.
#[derive(Debug, Copy, Clone, Eq, PartialEq)]
pub enum ClientMessage {
    PlayerCommand(PlayerState),
}

/// The three payload bytes of a command: a kind tag, then its two details
/// (zero where a kind has none).
pub open spec fn spec_command_bytes(cmd: PlayerCommand) -> Seq<u8> {
    match cmd {
        PlayerCommand::Movement { direction, action } => seq![
            0u8,
            spec_movement_byte(direction),
            spec_action_byte(action),
        ],
        PlayerCommand::Rotation { direction, action } => seq![
            1u8,
            spec_rotation_byte(direction),
            spec_action_byte(action),
        ],
        PlayerCommand::Shoot => seq![2u8, 0u8, 0u8],
    }
}

/// Wire byte of a movement direction.
pub open spec fn spec_movement_byte(d: MovementDirection) -> u8 {
    match d {
        MovementDirection::Up => 0u8,
        MovementDirection::Down => 1u8,
    }
}

/// Wire byte of a rotation direction.
pub open spec fn spec_rotation_byte(d: RotationDirection) -> u8 {
    match d {
        RotationDirection::Left => 0u8,
        RotationDirection::Right => 1u8,
    }
}

/// Wire byte of a start/stop action.
pub open spec fn spec_action_byte(a: MovementAction) -> u8 {
    match a {
        MovementAction::Start => 0u8,
        MovementAction::Stop => 1u8,
    }
}

/// The command encoded by `s`, or `None` when `s` is not exactly a
/// well-formed three-byte command.
pub open spec fn spec_parse_command(s: Seq<u8>) -> Option<PlayerCommand> {
    if s.len() != 3 {
        None
    } else if s[0] == 0 {
        match (spec_parse_movement(s[1]), spec_parse_action(s[2])) {
            (Some(direction), Some(action)) => Some(PlayerCommand::Movement { direction, action }),
            _ => None,
        }
    } else if s[0] == 1 {
        match (spec_parse_rotation(s[1]), spec_parse_action(s[2])) {
            (Some(direction), Some(action)) => Some(PlayerCommand::Rotation { direction, action }),
            _ => None,
        }
    } else if s[0] == 2 && s[1] == 0 && s[2] == 0 {
        Some(PlayerCommand::Shoot)
    } else {
        None
    }
}

/// The movement direction a wire byte stands for.
pub open spec fn spec_parse_movement(b: u8) -> Option<MovementDirection> {
    if b == 0 {
        Some(MovementDirection::Up)
    } else if b == 1 {
        Some(MovementDirection::Down)
    } else {
        None
    }
}

/// The rotation direction a wire byte stands for.
pub open spec fn spec_parse_rotation(b: u8) -> Option<RotationDirection> {
    if b == 0 {
        Some(RotationDirection::Left)
    } else if b == 1 {
        Some(RotationDirection::Right)
    } else {
        None
    }
}

/// The action a wire byte stands for.
pub open spec fn spec_parse_action(b: u8) -> Option<MovementAction> {
    if b == 0 {
        Some(MovementAction::Start)
    } else if b == 1 {
        Some(MovementAction::Stop)
    } else {
        None
    }
}

impl PlayerCommand {
    /// Encodes the command as its three payload bytes.
    pub fn to_bytes(&self) -> (r: Vec<u8>)
        ensures
            r@ == spec_command_bytes(*self),
    {
        let mut out: Vec<u8> = Vec::new();
        match self {
            PlayerCommand::Movement { direction, action } => {
                out.push(0);
                out.push(
                    match direction {
                        MovementDirection::Up => 0,
                        MovementDirection::Down => 1,
                    },
                );
                out.push(
                    match action {
                        MovementAction::Start => 0,
                        MovementAction::Stop => 1,
                    },
                );
            },
            PlayerCommand::Rotation { direction, action } => {
                out.push(1);
                out.push(
                    match direction {
                        RotationDirection::Left => 0,
                        RotationDirection::Right => 1,
                    },
                );
                out.push(
                    match action {
                        MovementAction::Start => 0,
                        MovementAction::Stop => 1,
                    },
                );
            },
            PlayerCommand::Shoot => {
                out.push(2);
                out.push(0);
                out.push(0);
            },
        }
        proof {
            assert(out@ =~= spec_command_bytes(*self));
        }
        out
    }

    /// Decodes three payload bytes back into a command; anything else is
    /// `None`.
    pub fn from_bytes(bytes: &[u8]) -> (r: Option<PlayerCommand>)
        ensures
            r == spec_parse_command(bytes@),
    {
        if bytes.len() != 3 {
            return None;
        }
        let b0 = *vstd::slice::slice_index_get(bytes, 0);
        let b1 = *vstd::slice::slice_index_get(bytes, 1);
        let b2 = *vstd::slice::slice_index_get(bytes, 2);
        if b0 == 0 {
            let direction = if b1 == 0 {
                Some(MovementDirection::Up)
            } else if b1 == 1 {
                Some(MovementDirection::Down)
            } else {
                None
            };
            let action = if b2 == 0 {
                Some(MovementAction::Start)
            } else if b2 == 1 {
                Some(MovementAction::Stop)
            } else {
                None
            };
            match (direction, action) {
                (Some(direction), Some(action)) => Some(
                    PlayerCommand::Movement { direction, action },
                ),
                _ => None,
            }
        } else if b0 == 1 {
            let direction = if b1 == 0 {
                Some(RotationDirection::Left)
            } else if b1 == 1 {
                Some(RotationDirection::Right)
            } else {
                None
            };
            let action = if b2 == 0 {
                Some(MovementAction::Start)
            } else if b2 == 1 {
                Some(MovementAction::Stop)
            } else {
                None
            };
            match (direction, action) {
                (Some(direction), Some(action)) => Some(
                    PlayerCommand::Rotation { direction, action },
                ),
                _ => None,
            }
        } else if b0 == 2 && b1 == 0 && b2 == 0 {
            Some(PlayerCommand::Shoot)
        } else {
            None
        }
    }
}

/// Every command survives the trip through its three payload bytes.
pub proof fn lemma_command_round_trip(cmd: PlayerCommand)
    ensures
        spec_parse_command(spec_command_bytes(cmd)) == Some(cmd),
{
}

} // verus!
