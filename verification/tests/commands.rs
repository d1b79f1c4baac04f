use battle_arena_2000::{MovementAction, MovementDirection, PlayerCommand, RotationDirection};

fn all_commands() -> Vec<PlayerCommand> {
    let mut out = Vec::new();
    for direction in [MovementDirection::Up, MovementDirection::Down] {
        for action in [MovementAction::Start, MovementAction::Stop] {
            out.push(PlayerCommand::Movement { direction, action });
        }
    }
    for direction in [RotationDirection::Left, RotationDirection::Right] {
        for action in [MovementAction::Start, MovementAction::Stop] {
            out.push(PlayerCommand::Rotation { direction, action });
        }
    }
    out.push(PlayerCommand::Shoot);
    out
}

#[test]
fn command_byte_round_trip() {
    for cmd in all_commands() {
        let bytes = cmd.to_bytes();
        assert_eq!(bytes.len(), 3);
        assert_eq!(PlayerCommand::from_bytes(&bytes), Some(cmd));
    }
}

#[test]
fn command_encoding_is_fixed() {
    assert_eq!(
        PlayerCommand::Movement {
            direction: MovementDirection::Down,
            action: MovementAction::Start,
        }
        .to_bytes(),
        vec![0, 1, 0]
    );
    assert_eq!(
        PlayerCommand::Rotation {
            direction: RotationDirection::Right,
            action: MovementAction::Stop,
        }
        .to_bytes(),
        vec![1, 1, 1]
    );
    assert_eq!(PlayerCommand::Shoot.to_bytes(), vec![2, 0, 0]);
}

#[test]
fn malformed_command_bytes_are_rejected() {
    assert_eq!(PlayerCommand::from_bytes(&[]), None);
    assert_eq!(PlayerCommand::from_bytes(&[0, 0]), None);
    assert_eq!(PlayerCommand::from_bytes(&[0, 0, 0, 0]), None);
    assert_eq!(PlayerCommand::from_bytes(&[3, 0, 0]), None);
    assert_eq!(PlayerCommand::from_bytes(&[0, 2, 0]), None);
    assert_eq!(PlayerCommand::from_bytes(&[0, 0, 2]), None);
    assert_eq!(PlayerCommand::from_bytes(&[2, 1, 0]), None);
    assert_eq!(PlayerCommand::from_bytes(&[2, 0, 1]), None);
}
