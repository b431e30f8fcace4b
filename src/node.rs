use vstd::prelude::*;

use crate::message::Endpoint;

verus! {

/// The capacity of each queue: outbound submissions, worker queues, retries, delivery.
pub const QUEUE_CAPACITY: usize = 10000;

/// A node of the system as its bootstrap gives it: its identifier, its own
/// endpoint, and the endpoints of all nodes in order.
pub struct Node {
    pub id: usize,
    pub own: Endpoint,
    pub peers: Vec<Endpoint>,
}

impl Node {
    /// The node with identifier `id` among `nodes`: its own endpoint is `nodes[id]`.
    /// Every node's identifier is the index of its endpoint.
    pub fn new(id: usize, nodes: Vec<Endpoint>) -> (r: Node)
        requires
            id < nodes@.len(),
        ensures
            r.id == id,
            r.own == nodes@[id as int],
            r.peers@ == nodes@,
    {
        let own = nodes[id];
        Node { id, own, peers: nodes }
    }
}

} // verus!
