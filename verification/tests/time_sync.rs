use ggrs::time_sync::TimeSync;

#[test]
fn test_advance_frame_no_advantage() {
    let mut time_sync = TimeSync::default();

    for i in 0..60 {
        let local_adv = 0;
        let remote_adv = 0;
        time_sync.advance_frame(i, local_adv, remote_adv)
    }

    assert_eq!(time_sync.recommend_frame_delay(), 0);
}

#[test]
fn test_advance_frame_local_advantage() {
    let mut time_sync = TimeSync::default();

    for i in 0..60 {
        let local_adv = 5;
        let remote_adv = -5;
        time_sync.advance_frame(i, local_adv, remote_adv)
    }

    assert_eq!(time_sync.recommend_frame_delay(), 0);
}

#[test]
fn test_advance_frame_small_remote_advantage() {
    let mut time_sync = TimeSync::default();

    for i in 0..60 {
        let local_adv = -1;
        let remote_adv = 1;
        time_sync.advance_frame(i, local_adv, remote_adv)
    }

    assert_eq!(time_sync.recommend_frame_delay(), 1);
}

#[test]
fn test_advance_frame_remote_advantage() {
    let mut time_sync = TimeSync::default();

    for i in 0..60 {
        let local_adv = -4;
        let remote_adv = 4;
        time_sync.advance_frame(i, local_adv, remote_adv)
    }

    assert_eq!(time_sync.recommend_frame_delay(), 4);
}

#[test]
fn test_advance_frame_big_remote_advantage() {
    let mut time_sync = TimeSync::default();

    for i in 0..60 {
        let local_adv = -40;
        let remote_adv = 40;
        time_sync.advance_frame(i, local_adv, remote_adv)
    }

    assert_eq!(time_sync.recommend_frame_delay(), 8);
}

#[test]
fn half_window_of_advantage_rounds() {
    // 15 of 30 frames with a difference of 2: the average difference is 1, half of it 0.5,
    // which rounds up to 1
    let mut time_sync = TimeSync::new();
    for i in 0..15 {
        time_sync.advance_frame(i, -1, 1);
    }
    assert_eq!(time_sync.recommend_frame_delay(), 1);
}

#[test]
fn only_the_last_window_counts() {
    let mut time_sync = TimeSync::new();
    for i in 0..30 {
        time_sync.advance_frame(i, -40, 40);
    }
    for i in 30..60 {
        time_sync.advance_frame(i, 0, 0);
    }
    assert_eq!(time_sync.recommend_frame_delay(), 0);
}
