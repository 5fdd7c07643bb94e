//! Chain resolution: what a node decides for each accepted connection,
//! from its static configuration and from inbound handshakes. The
//! dialing itself is outside work; these functions say what to dial and
//! what to report back.
use vstd::prelude::*;

use crate::err::NfError;
use crate::err::NfErrorCode;
use crate::err::NfResult;
use crate::protocol::Data;
use crate::protocol::ProtocolForwardStartArgs;

verus! {

/// How a node treats an accepted connection, decided once at accept time.
#[derive(Debug)]
pub enum RelayMode {
    /// A static next hop is configured: dial it directly, exchange no
    /// handshake, and relay frames verbatim in both directions.
    StaticRelay(String),
    /// No static hop: wait for an inbound handshake frame and resolve the
    /// next hop from its hop list.
    HandshakeDriven,
}

/// Chooses the relay mode for one accepted connection: static relay mode
/// towards the first configured hop when the static hop list is
/// non-empty, handshake-driven mode otherwise. In static mode no
/// handshake is ever read from the accepted socket, and only the first
/// static hop is dialed.
pub fn resolve_mode(link_nodes: &Vec<String>) -> (r: RelayMode)
    ensures
        link_nodes@.len() == 0 ==> r is HandshakeDriven,
        link_nodes@.len() > 0 ==> (r matches RelayMode::StaticRelay(next) && next
            == link_nodes@[0]),
{
    if link_nodes.len() == 0 {
        RelayMode::HandshakeDriven
    } else {
        RelayMode::StaticRelay(link_nodes[0].clone())
    }
}

/// Resolves an inbound handshake: the first entry of its hop list is the
/// address to dial now, the remainder is the hop list to forward onward.
/// An empty hop list is reported back as a failure envelope with a
/// non-zero code, and nothing is dialed.
pub fn plan_forward(arg: &ProtocolForwardStartArgs) -> (r: Result<(String, Vec<String>), Data>)
    ensures
        arg.link_address@.len() == 0 ==> (r matches Err(d) && d.code != 0),
        arg.link_address@.len() > 0 ==> (r matches Ok((dial, rest)) && dial
            == arg.link_address@[0] && rest@.len() == arg.link_address@.len() - 1 && (forall|k: int|
            0 <= k < rest@.len() ==> rest@[k] == arg.link_address@[k + 1])),
{
    if arg.link_address.len() == 0 {
        let mut d = Data::default();
        d.update_error(1, String::from_str("the link nodes is None."));
        return Err(d);
    }
    let target_addr = arg.link_address[0].clone();
    let mut next_link_nodes: Vec<String> = Vec::new();
    let n = arg.link_address.len();
    let mut k: usize = 1;
    while k < n
        invariant
            1 <= k <= n,
            n == arg.link_address@.len(),
            next_link_nodes@.len() == k - 1,
            forall|q: int| 0 <= q < k - 1 ==> next_link_nodes@[q] == arg.link_address@[q + 1],
        decreases n - k,
    {
        next_link_nodes.push(arg.link_address[k].clone());
        k = k + 1;
    }
    Ok((target_addr, next_link_nodes))
}

/// Which loop a handshake-driven node runs once the next hop is dialed.
#[derive(Debug, PartialEq, Eq, Structural)]
pub enum ForwardLoop {
    /// No hops remain: this node is adjacent to the plaintext target and
    /// unwraps frames towards it.
    FramedToPlain,
    /// More hops remain: this node relays frames verbatim.
    FramedToFramed,
}

/// Chooses the forwarding loop after a resolved handshake: the exit hop
/// speaks plaintext onward, every earlier hop relays frames.
pub fn select_forward_loop(next_link_nodes: &Vec<String>) -> (r: ForwardLoop)
    ensures
        r == (if next_link_nodes@.len() == 0 {
            ForwardLoop::FramedToPlain
        } else {
            ForwardLoop::FramedToFramed
        }),
{
    if next_link_nodes.len() == 0 {
        ForwardLoop::FramedToPlain
    } else {
        ForwardLoop::FramedToFramed
    }
}

/// Accepts or rejects a handshake acknowledgement: forwarding proceeds
/// only on a success code; any other code aborts the connection with the
/// peer's reported message.
pub fn check_forward_start_response(data: &Data) -> (r: NfResult<()>)
    ensures
        r is Ok <==> data.code == NfErrorCode::Success.spec_code(),
        r matches Err(e) ==> (e matches NfError::E(m) && m@ == data.msg@),
{
    if data.code == NfErrorCode::Success.code() {
        Ok(())
    } else {
        Err(NfError::E(data.msg.clone()))
    }
}

/// The failure envelope reported upstream when dialing the next address
/// fails: code 3 and a message naming the address and the error.
pub fn connect_failed_status(address: &String, detail: &String) -> (r: Data)
    ensures
        r.code == 3,
        r.msg@ == "connect remote address failed. address: "@ + address@ + ", err: "@ + detail@,
        r.data@ == seq![0x6eu8, 0x75u8, 0x6cu8, 0x6cu8],
{
    let mut msg = String::from_str("connect remote address failed. address: ");
    msg.append(address.as_str());
    msg.append(", err: ");
    msg.append(detail.as_str());
    let mut d = Data::default();
    d.update_error(3, msg);
    d
}

} // verus!
