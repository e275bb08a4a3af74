use vstd::prelude::*;
use vstd::string::StringExecFns;

use crate::config;
use crate::config::Configure;
use crate::libs::text;
use crate::libs::text::push_decimal;

verus! {

/// The address the server listens on: `host:port`.
pub fn server_address(configure: &Configure) -> (address: String)
    ensures
        address@ == configure.host@ + ":"@ + text::decimal(configure.port as nat),
{
    let mut address = String::from_str(configure.host.as_str());
    address.append(":");
    push_decimal(&mut address, configure.port);
    address
}

/// The listening address reads back as what it was made from: up to the colon that
/// follows it the host, and after that colon the port in decimal, which reads as a port
/// (as `-p` reads one) giving the same port.
pub proof fn server_address_reads_back(host: Seq<char>, port: u16)
    ensures
        ({
            let address = host + ":"@ + text::decimal(port as nat);
            &&& address.take(host.len() as int) == host
            &&& address[host.len() as int] == ':'
            &&& config::parse_port_text(address.skip(host.len() as int + 1)) == Some(port)
        }),
{
    reveal_strlit(":");
    let address = host + ":"@ + text::decimal(port as nat);
    assert(address.take(host.len() as int) =~= host);
    assert(address.skip(host.len() as int + 1) =~= text::decimal(port as nat));
    config::port_text_roundtrip(port);
}

} // verus!
