use vstd::prelude::*;

verus! {

/// Statistics about the quality of the network connection to a remote peer.
///
/// Stats are computed over a rolling one-second window; until at least one second has elapsed
/// since the session started running, no statistics are available.
#[derive(Debug, Default, Clone, Copy)]
pub struct NetworkStats {
    /// The length of the queue containing packets which have not yet been acknowledged by the
    /// end client. A rough indication of the quality of the connection.
    pub send_queue_len: usize,
    /// The roundtrip packet transmission time.
    pub ping: u128,
    /// The estimated bandwidth used between the two clients, in kilobits per second.
    pub kbps_sent: usize,
    /// The number of frames the local client is estimated to be behind the remote client.
    pub local_frames_behind: i32,
    /// The same as `local_frames_behind`, seen from the remote player.
    pub remote_frames_behind: i32,
}

impl NetworkStats {
    /// Creates a new `NetworkStats` instance with all values zero.
    pub fn new() -> (r: Self)
        ensures
            r.send_queue_len == 0,
            r.ping == 0,
            r.kbps_sent == 0,
            r.local_frames_behind == 0,
            r.remote_frames_behind == 0,
    {
        NetworkStats {
            send_queue_len: 0,
            ping: 0,
            kbps_sent: 0,
            local_frames_behind: 0,
            remote_frames_behind: 0,
        }
    }
}

} // verus!
