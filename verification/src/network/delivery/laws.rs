//! What holds of attempts to connect.

use vstd::prelude::*;

use crate::network::delivery::{incoming_peers, longer_wait, outgoing_peers};
use crate::network::initiates;

verus! {

/// How long to wait after so many attempts in a row have failed, in seconds.
pub open spec fn wait_after(failures: nat) -> nat
    decreases failures,
{
    if failures == 0 {
        1
    } else {
        longer_wait(wait_after((failures - 1) as nat))
    }
}

/// The wait is a second at first, doubles with each attempt that fails, and stays at eight seconds from the fourth on.
pub proof fn law_waits_double_up_to_eight_seconds(failures: nat)
    ensures
        wait_after(0) == 1,
        failures < 3 ==> wait_after(failures + 1) == 2 * wait_after(failures),
        failures >= 3 ==> wait_after(failures) == 8,
    decreases failures,
{
    reveal_with_fuel(wait_after, 5);
    if failures > 3 {
        law_waits_double_up_to_eight_seconds((failures - 1) as nat);
    }
}

/// A node opens connections to some of its peers and waits for the others; it leaves out none, and no one is both.
pub proof fn law_every_peer_is_connected_one_way(id: Seq<char>, peers: Set<Seq<char>>, peer: Seq<char>)
    ensures
        outgoing_peers(id, peers).contains(peer) || incoming_peers(id, peers).contains(peer) <==> peers.contains(peer),
        !(outgoing_peers(id, peers).contains(peer) && incoming_peers(id, peers).contains(peer)),
        outgoing_peers(id, peers).contains(peer) ==> initiates(id, peer),
{
}

} // verus!
