use vstd::prelude::*;

verus! {

/// Connection statistics.
#[derive(Debug)]
pub struct Network {
    pub send_queue_len: usize,
    pub recv_queue_len: usize,
    pub ping: usize,
    pub kbps_sent: usize,
}

impl Network {
    /// All statistics zero.
    pub fn new() -> (r: Self)
        ensures
            r.send_queue_len == 0 && r.recv_queue_len == 0 && r.ping == 0 && r.kbps_sent == 0,
    {
        Self { send_queue_len: 0, recv_queue_len: 0, ping: 0, kbps_sent: 0 }
    }
}

/// Frame synchronization statistics.
#[derive(Debug)]
pub struct TimeSync {
    pub local_frames_behind: i32,
    pub remote_frames_behind: i32,
}

impl TimeSync {
    /// Both counts zero.
    pub fn new() -> (r: Self)
        ensures
            r.local_frames_behind == 0 && r.remote_frames_behind == 0,
    {
        Self { local_frames_behind: 0, remote_frames_behind: 0 }
    }
}

/// The statistics of a session.
#[derive(Debug)]
pub struct NetworkStats {
    pub network: Network,
    pub timesync: TimeSync,
}

impl NetworkStats {
    /// All statistics zero.
    pub fn new() -> (r: Self)
        ensures
            r.network.send_queue_len == 0 && r.network.recv_queue_len == 0 && r.network.ping == 0
                && r.network.kbps_sent == 0,
            r.timesync.local_frames_behind == 0 && r.timesync.remote_frames_behind == 0,
    {
        Self { network: Network::new(), timesync: TimeSync::new() }
    }
}

} // verus!
