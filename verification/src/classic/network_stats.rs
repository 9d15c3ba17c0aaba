use vstd::prelude::*;

verus! {

/// Connection statistics.
#[derive(Debug, Default, Clone, Copy, Hash)]
pub struct Network {
    /// The length of the queue of packets not yet acknowledged by the end client.
    pub send_queue_len: usize,
    /// The number of inputs received but not yet validated.
    pub recv_queue_len: usize,
    /// The roundtrip packet transmission time.
    pub ping: usize,
    /// The estimated bandwidth used between the two clients, in kilobits per second.
    pub kbps_sent: usize,
}

impl Network {
    /// All statistics zero.
    pub fn new() -> (r: Self)
        ensures
            r.send_queue_len == 0 && r.recv_queue_len == 0 && r.ping == 0 && r.kbps_sent == 0,
    {
        Network { send_queue_len: 0, recv_queue_len: 0, ping: 0, kbps_sent: 0 }
    }
}

/// Frame synchronization statistics.
#[derive(Debug, Default, Clone, Copy, Hash)]
pub struct TimeSync {
    /// The number of frames the local client is behind the remote client.
    pub local_frames_behind: i32,
    /// The same, seen from the remote player.
    pub remote_frames_behind: i32,
}

impl TimeSync {
    /// Both counts zero.
    pub fn new() -> (r: Self)
        ensures
            r.local_frames_behind == 0 && r.remote_frames_behind == 0,
    {
        TimeSync { local_frames_behind: 0, remote_frames_behind: 0 }
    }
}

/// The statistics of a session.
#[derive(Debug, Default, Clone, Copy, Hash)]
pub struct NetworkStats {
    pub network: Network,
    pub timesync: TimeSync,
}

impl NetworkStats {
    /// All statistics zero.
    pub fn new() -> (r: Self)
        ensures
            r.network.send_queue_len == 0 && r.network.recv_queue_len == 0 && r.network.ping == 0
                && r.network.kbps_sent == 0,
            r.timesync.local_frames_behind == 0 && r.timesync.remote_frames_behind == 0,
    {
        NetworkStats { network: Network::new(), timesync: TimeSync::new() }
    }
}

} // verus!
