use ggrs::error::GgrsError;
use ggrs::sessions::builder::{SessionBuilder, DEFAULT_PLAYERS};
use ggrs::sessions::player_registry::PlayerRegistry;
use ggrs::PlayerType;

fn info(e: GgrsError) -> String {
    match e {
        GgrsError::InvalidRequest { info } => info,
        other => panic!("unexpected error {:?}", other),
    }
}

#[test]
fn builder_registers_players_and_spectators() {
    let builder = SessionBuilder::<String>::new()
        .add_player(PlayerType::Local, 0)
        .unwrap()
        .add_player(PlayerType::Remote(String::from("peer")), 1)
        .unwrap()
        .add_player(PlayerType::Spectator(String::from("watcher")), 2)
        .unwrap();
    let reg = builder.player_registry();
    assert_eq!(reg.local_player_handles(), vec![0]);
    assert_eq!(reg.remote_player_handles(), vec![1]);
    assert_eq!(reg.spectator_handles(), vec![2]);
    assert_eq!(reg.num_players(), DEFAULT_PLAYERS);
    assert_eq!(reg.num_spectators(), 1);
    assert_eq!(reg.player_type(1), Some(&PlayerType::Remote(String::from("peer"))));
    assert_eq!(reg.player_type(5), None);
}

#[test]
fn builder_refuses_a_handle_twice() {
    let builder = SessionBuilder::<String>::new().add_player(PlayerType::Local, 0).unwrap();
    let err = builder.add_player(PlayerType::Remote(String::from("peer")), 0).err().unwrap();
    assert_eq!(info(err), "Player handle already in use.");
}

#[test]
fn builder_checks_handles_against_the_player_type() {
    let err = SessionBuilder::<String>::new().add_player(PlayerType::Local, 2).err().unwrap();
    assert_eq!(
        info(err),
        "The player handle you provided is invalid. For a local player, the handle should be between 0 and num_players"
    );
    let err = SessionBuilder::<String>::new()
        .add_player(PlayerType::Remote(String::from("peer")), 7)
        .err()
        .unwrap();
    assert_eq!(
        info(err),
        "The player handle you provided is invalid. For a remote player, the handle should be between 0 and num_players"
    );
    let err = SessionBuilder::<String>::new()
        .add_player(PlayerType::Spectator(String::from("watcher")), 1)
        .err()
        .unwrap();
    assert_eq!(
        info(err),
        "The player handle you provided is invalid. For a spectator, the handle should be num_players or higher"
    );
}

#[test]
fn more_players_widen_the_player_handles() {
    let builder = SessionBuilder::<String>::new().with_num_players(4).add_player(PlayerType::Local, 3);
    assert!(builder.is_ok());
}

#[test]
fn builder_validates_numbers() {
    assert_eq!(info(SessionBuilder::<String>::new().with_fps(0).err().unwrap()), "FPS should be higher than 0.");
    assert!(SessionBuilder::<String>::new().with_fps(30).is_ok());
    assert_eq!(
        info(SessionBuilder::<String>::new().with_max_frames_behind(0).err().unwrap()),
        "Max frames behind cannot be smaller than 1."
    );
    assert_eq!(
        info(SessionBuilder::<String>::new().with_max_frames_behind(60).err().unwrap()),
        "Max frames behind cannot be larger or equal than the Spectator buffer size (60)"
    );
    assert!(SessionBuilder::<String>::new().with_max_frames_behind(59).is_ok());
    assert_eq!(
        info(SessionBuilder::<String>::new().with_catchup_speed(0).err().unwrap()),
        "Catchup speed cannot be smaller than 1."
    );
    // the default maximum frames behind is 10
    assert_eq!(
        info(SessionBuilder::<String>::new().with_catchup_speed(10).err().unwrap()),
        "Catchup speed cannot be larger or equal than the allowed maximum frames behind host"
    );
    assert!(SessionBuilder::<String>::new().with_catchup_speed(9).is_ok());
}

#[test]
fn builder_setters_chain() {
    let builder = SessionBuilder::<String>::default()
        .with_max_prediction_window(12)
        .with_input_delay(2)
        .with_sparse_saving_mode(true)
        .with_check_distance(5)
        .with_disconnect_timeout(std::time::Duration::from_millis(100))
        .with_disconnect_notify_delay(std::time::Duration::from_millis(50));
    assert_eq!(builder.player_registry().num_players(), 0);
}

#[test]
fn empty_registry_has_no_handles() {
    let reg: PlayerRegistry<u8> = PlayerRegistry::new();
    assert!(reg.local_player_handles().is_empty());
    assert_eq!(reg.num_players(), 0);
    assert_eq!(reg.num_spectators(), 0);
}

#[test]
fn peer_to_peer_start_needs_every_player() {
    let builder = SessionBuilder::<String>::new().add_player(PlayerType::Local, 0).unwrap();
    assert_eq!(
        info(builder.check_players_added().err().unwrap()),
        "Not enough players have been added. Keep registering players up to the defined player number."
    );
    let builder = builder.add_player(PlayerType::Remote(String::from("peer")), 1).unwrap();
    assert!(builder.check_players_added().is_ok());
}

#[test]
fn players_and_spectators_partition_the_handles() {
    let builder = SessionBuilder::<String>::new()
        .with_num_players(3)
        .add_player(PlayerType::Local, 0)
        .unwrap()
        .add_player(PlayerType::Remote(String::from("a")), 2)
        .unwrap()
        .add_player(PlayerType::Spectator(String::from("b")), 3)
        .unwrap()
        .add_player(PlayerType::Spectator(String::from("c")), 4)
        .unwrap();
    let reg = builder.player_registry();
    assert_eq!(reg.num_players() + reg.num_spectators(), reg.handles.len());
    let mut spectators = reg.spectator_handles();
    spectators.sort();
    assert_eq!(spectators, vec![3, 4]);
}
