use vstd::prelude::*;

verus! {

/// A peer's network address: an IPv4 or IPv6 address (as an integer) and a port.
#[derive(Clone, Copy, PartialEq, Eq, Structural, Hash, Debug)]
pub struct Endpoint {
    pub v6: bool,
    pub ip: u128,
    pub port: u16,
}

impl Endpoint {
    /// An IPv4 address fits in 32 bits.
    pub open spec fn wf(&self) -> bool {
        self.v6 || self.ip < 0x1_0000_0000
    }

    pub fn v4(ip: u32, port: u16) -> (r: Endpoint)
        ensures
            r == (Endpoint { v6: false, ip: ip as u128, port }),
            r.wf(),
    {
        Endpoint { v6: false, ip: ip as u128, port }
    }

    pub fn v6(ip: u128, port: u16) -> (r: Endpoint)
        ensures
            r == (Endpoint { v6: true, ip, port }),
            r.wf(),
    {
        Endpoint { v6: true, ip, port }
    }
}

/// A message of the application: who sent it, where it goes, and opaque bytes.
#[derive(Clone, Debug)]
pub struct NetworkMessage {
    pub sender: u64,
    pub addresses: Vec<Endpoint>,
    pub message: Vec<u8>,
}

/// The mathematical content of a `NetworkMessage`.
pub struct MessageView {
    pub sender: u64,
    pub addresses: Seq<Endpoint>,
    pub message: Seq<u8>,
}

impl View for NetworkMessage {
    type V = MessageView;

    open spec fn view(&self) -> MessageView {
        MessageView { sender: self.sender, addresses: self.addresses@, message: self.message@ }
    }
}

pub open spec fn endpoints_wf(s: Seq<Endpoint>) -> bool {
    forall|i: int| 0 <= i < s.len() ==> (#[trigger] s[i]).wf()
}

/// The copy of `m` that goes to `dest` alone.
pub open spec fn single(m: MessageView, dest: Endpoint) -> MessageView {
    MessageView { sender: m.sender, addresses: seq![dest], message: m.message }
}

/// One single-destination copy per destination, in the order of the destinations.
pub open spec fn fan_out_of(m: MessageView) -> Seq<MessageView> {
    Seq::new(m.addresses.len(), |i: int| single(m, m.addresses[i]))
}

impl NetworkMessage {
    pub open spec fn wf(&self) -> bool {
        endpoints_wf(self.addresses@)
    }

    pub fn new(sender: u64, addresses: Vec<Endpoint>, message: Vec<u8>) -> (r: NetworkMessage)
        ensures
            r@ == (MessageView { sender, addresses: addresses@, message: message@ }),
    {
        NetworkMessage { sender, addresses, message }
    }

    /// A copy with the same sender, destinations and payload.
    pub fn duplicate(&self) -> (r: NetworkMessage)
        ensures
            r@ == self@,
    {
        let addresses = self.addresses.clone();
        let message = self.message.clone();
        assert(addresses@ =~= self.addresses@);
        assert(message@ =~= self.message@);
        NetworkMessage { sender: self.sender, addresses, message }
    }

    /// The copy of this message addressed to `dest` alone.
    pub fn single_to(&self, dest: Endpoint) -> (r: NetworkMessage)
        ensures
            r@ == single(self@, dest),
    {
        let message = self.message.clone();
        assert(message@ =~= self.message@);
        let addresses = vec![dest];
        assert(addresses@ =~= seq![dest]);
        NetworkMessage { sender: self.sender, addresses, message }
    }

    /// Splits the message into one single-destination copy per destination,
    /// in the order of the destinations.
    pub fn fan_out(&self) -> (r: Vec<NetworkMessage>)
        ensures
            r@.len() == self.addresses@.len(),
            forall|i: int| 0 <= i < r@.len() ==> (#[trigger] r@[i])@ == fan_out_of(self@)[i],
    {
        let mut r: Vec<NetworkMessage> = Vec::new();
        let mut i: usize = 0;
        while i < self.addresses.len()
            invariant
                i <= self.addresses@.len(),
                r@.len() == i,
                forall|j: int| 0 <= j < i ==> (#[trigger] r@[j])@ == fan_out_of(self@)[j],
            decreases self.addresses@.len() - i,
        {
            r.push(self.single_to(self.addresses[i]));
            i = i + 1;
        }
        r
    }
}

} // verus!
