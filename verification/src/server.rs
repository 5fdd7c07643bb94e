//! The forwarding server's configuration and the per-connection context it
//! hands to each forwarding task.
use vstd::prelude::*;

use crate::settings::AesParam;
use crate::settings::Rc4Param;
use crate::settings::SupportCrypt;

verus! {

/// The process-lifetime server configuration.
#[derive(Debug, Clone)]
pub struct ForwardServer {
    pub listen: String,
    pub link_nodes: Vec<String>,
    pub crypt: SupportCrypt,
}

/// The immutable configuration shared by every accepted connection: the
/// static hop list and the payload crypto.
#[derive(Debug, Clone)]
pub struct ForwardServerContext {
    pub link_nodes: Vec<String>,
    pub crypt: SupportCrypt,
}

impl SupportCrypt {
    /// An equal copy of this crypto selection.
    pub fn duplicate(&self) -> (r: SupportCrypt)
        ensures
            r == *self,
    {
        match self {
            SupportCrypt::Plain => SupportCrypt::Plain,
            SupportCrypt::Rc4(p) => SupportCrypt::Rc4(Rc4Param { key: p.key.clone() }),
            SupportCrypt::Aes(p) => SupportCrypt::Aes(
                AesParam { key: p.key.clone(), iv: p.iv.clone() },
            ),
        }
    }
}

/// An equal copy of a list of addresses.
pub fn duplicate_nodes(v: &Vec<String>) -> (r: Vec<String>)
    ensures
        r@ == v@,
{
    let mut out: Vec<String> = Vec::new();
    let n = v.len();
    let mut i: usize = 0;
    while i < n
        invariant
            n == v@.len(),
            i <= n,
            out@.len() == i,
            forall|q: int| 0 <= q < i ==> out@[q] == v@[q],
        decreases n - i,
    {
        out.push(v[i].clone());
        i = i + 1;
    }
    assert(out@ =~= v@);
    out
}

impl ForwardServer {
    /// Builds the server configuration from the resolved run parameters.
    pub fn new(listen: String, link_nodes: Vec<String>, crypt: SupportCrypt) -> (r: ForwardServer)
        ensures
            r.listen == listen,
            r.link_nodes == link_nodes,
            r.crypt == crypt,
    {
        ForwardServer { listen, link_nodes, crypt }
    }

    /// The per-connection view of this configuration.
    pub fn context(&self) -> (r: ForwardServerContext)
        ensures
            r.link_nodes@ == self.link_nodes@,
            r.crypt == self.crypt,
    {
        ForwardServerContext {
            link_nodes: duplicate_nodes(&self.link_nodes),
            crypt: self.crypt.duplicate(),
        }
    }
}

} // verus!
