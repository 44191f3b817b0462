//! The shard controller's request handlers: adding and removing servers and
//! reporting the ring. The transport hands each handler the decoded request
//! and the configuration store, and sends back what the handler returns.
use vstd::prelude::*;

use crate::config_store::{
    address_tick, has_address, insert_point, points, unique_addresses, without_address,
    ConfigStore, ConfigVal,
};
use crate::errors::{status, Status, StatusCode};
use crate::text::{chars_of, concat_str, decimal, parse_u32, parse_unsigned, push_char, push_decimal, string_from_chars};

verus! {

broadcast use vstd::seq_lib::group_seq_properties;

/// A server as the controller's clients describe it.
pub struct ServerInfo {
    pub server_id: String,
    pub address: String,
    pub port: u32,
}

/// A ring entry as it travels in responses.
pub struct ProtoConfigVal {
    pub tick_value: u64,
    pub address: String,
}

pub struct AddServerRequest {
    pub server: Option<ServerInfo>,
}

pub struct AddServerResponse {
    pub success: bool,
    pub message: String,
    pub config: Vec<ProtoConfigVal>,
}

pub struct RemoveServerRequest {
    pub server_id: String,
}

pub struct RemoveServerResponse {
    pub success: bool,
    pub message: String,
    pub config: Vec<ProtoConfigVal>,
}

pub struct GetFullConfigRequest {}

pub struct GetFullConfigResponse {
    pub success: bool,
    pub message: String,
    pub config: Vec<ProtoConfigVal>,
}

pub struct GetServersRequest {}

pub struct GetServersResponse {
    pub servers: Vec<ServerInfo>,
}

/// The handler of the shard controller's service.
pub struct ConfigController;

/// The ring points carried by a list of response entries.
pub open spec fn proto_points(s: Seq<ProtoConfigVal>) -> Seq<(u64, Seq<char>)> {
    s.map_values(|v: ProtoConfigVal| (v.tick_value, v.address@))
}

/// The address under which a server is kept on the ring: `host:port`.
pub open spec fn server_address(host: Seq<char>, port: u32) -> Seq<char> {
    host + seq![':'] + decimal(port as nat)
}

/// The index of the last `:` in `s`, or -1 when there is none.
pub open spec fn last_colon(s: Seq<char>) -> int
    decreases s.len(),
{
    if s.len() == 0 {
        -1
    } else if s.last() == ':' {
        s.len() - 1
    } else {
        last_colon(s.drop_last())
    }
}

/// A ring address split back into host and port at its last `:`; a port that
/// does not parse as a `u32` reads as 0, and an address without `:` is all host.
pub open spec fn split_address(addr: Seq<char>) -> (Seq<char>, u32) {
    let i = last_colon(addr);
    if i < 0 {
        (addr, 0)
    } else {
        (
            addr.subrange(0, i),
            match parse_unsigned(addr.subrange(i + 1, addr.len() as int), u32::MAX as nat) {
                Some(p) => p as u32,
                None => 0,
            },
        )
    }
}

/// The server record reported for a ring address.
pub open spec fn server_info_of(addr: Seq<char>, info: ServerInfo) -> bool {
    &&& info.server_id@ == addr
    &&& info.address@ == split_address(addr).0
    &&& info.port == split_address(addr).1
}

proof fn lemma_last_colon(s: Seq<char>)
    ensures
        -1 <= last_colon(s) < s.len(),
        last_colon(s) >= 0 ==> s[last_colon(s)] == ':',
        forall|j: int| last_colon(s) < j < s.len() ==> s[j] != ':',
    decreases s.len(),
{
    if s.len() > 0 && s.last() != ':' {
        lemma_last_colon(s.drop_last());
        assert forall|j: int| 0 <= j < s.len() - 1 implies s[j] == s.drop_last()[j] by {}
    }
}

proof fn lemma_last_colon_after(x: Seq<char>, d: Seq<char>)
    requires
        forall|j: int| 0 <= j < d.len() ==> d[j] != ':',
    ensures
        last_colon(x + seq![':'] + d) == x.len(),
    decreases d.len(),
{
    let s = x + seq![':'] + d;
    if d.len() == 0 {
        assert(s.last() == ':');
    } else {
        assert(s.drop_last() =~= x + seq![':'] + d.drop_last());
        assert(s.last() == d.last());
        lemma_last_colon_after(x, d.drop_last());
    }
}

/// A server added as `host:port` is reported back with that host and port:
/// the address splits at the `:` that was put in, even when the host holds
/// colons of its own.
pub proof fn lemma_split_server_address(host: Seq<char>, port: u32)
    ensures
        split_address(server_address(host, port)) == (host, port),
{
    let d = decimal(port as nat);
    crate::text::lemma_decimal_digits(port as nat);
    assert forall|j: int| 0 <= j < d.len() implies d[j] != ':' by {
        assert(crate::text::is_digit(d[j]));
    }
    lemma_last_colon_after(host, d);
    let s = server_address(host, port);
    assert(s.subrange(0, host.len() as int) =~= host);
    assert(s.subrange(host.len() as int + 1, s.len() as int) =~= d);
    crate::text::lemma_parse_decimal(port as nat, u32::MAX as nat);
}

/// Converts the ring entries into response entries.
pub fn config_to_proto(entries: &[ConfigVal]) -> (out: Vec<ProtoConfigVal>)
    ensures
        proto_points(out@) == points(entries@),
{
    let mut out: Vec<ProtoConfigVal> = Vec::new();
    let mut i: usize = 0;
    while i < entries.len()
        invariant
            i <= entries@.len(),
            proto_points(out@) =~= points(entries@.subrange(0, i as int)),
        decreases entries@.len() - i,
    {
        let e = ProtoConfigVal { tick_value: entries[i].tick_value, address: entries[i].address.clone() };
        let ghost before = out@;
        out.push(e);
        assert(entries@.subrange(0, i + 1) =~= entries@.subrange(0, i as int).push(entries@[i as int]));
        assert(proto_points(out@) =~= proto_points(before).push((e.tick_value, e.address@)));
        i = i + 1;
    }
    assert(entries@.subrange(0, entries@.len() as int) =~= entries@);
    out
}

/// The ring address of a server: `host:port`.
pub fn format_server_address(host: &String, port: u32) -> (addr: String)
    ensures
        addr@ == server_address(host@, port),
        addr@.len() > host@.len() + 1,
        addr@.subrange(0, host@.len() as int) == host@,
        addr@[host@.len() as int] == ':',
        ({
            let digits = addr@.subrange(host@.len() as int + 1, addr@.len() as int);
            &&& crate::text::all_digits(digits)
            &&& crate::text::digits_value(digits) == port
            &&& (digits.len() == 1 || digits[0] != '0')
        }),
{
    let mut addr = host.clone();
    push_char(&mut addr, ':');
    push_decimal(&mut addr, port as u64);
    proof {
        let a = addr@;
        let h = host@;
        crate::text::lemma_decimal_digits(port as nat);
        assert(a =~= h + seq![':'] + decimal(port as nat));
        assert(a.subrange(0, h.len() as int) =~= h);
        assert(a.subrange(h.len() as int + 1, a.len() as int) =~= decimal(port as nat));
    }
    addr
}

/// Splits a ring address back into host and port at its last `:`; a port
/// that does not parse reads as 0, and an address without `:` is all host.
pub fn split_server_address(addr: &String) -> (parts: (String, u32))
    ensures
        parts.0@ == split_address(addr@).0,
        parts.1 == split_address(addr@).1,
{
    let chars = chars_of(addr.as_str());
    proof {
        lemma_last_colon(chars@);
    }
    let mut i: usize = chars.len();
    while i > 0 && chars[i - 1] != ':'
        invariant
            i <= chars@.len(),
            chars@ == addr@,
            forall|j: int| i <= j < chars@.len() ==> chars@[j] != ':',
        decreases i,
    {
        i = i - 1;
    }
    if i == 0 {
        assert(last_colon(chars@) == -1) by {
            if last_colon(chars@) >= 0 {
                assert(chars@[last_colon(chars@)] == ':');
            }
        }
        return (addr.clone(), 0);
    }
    assert(last_colon(chars@) == i - 1) by {
        if last_colon(chars@) < i - 1 {
            assert(chars@[i - 1] == ':');
        }
    }
    let host = string_from_chars(&chars.as_slice()[0..i - 1]);
    let port_text = string_from_chars(&chars.as_slice()[i..chars.len()]);
    let port = match parse_u32(port_text.as_str()) {
        Some(p) => p,
        None => 0,
    };
    (host, port)
}

/// Whether a removal request names a server: an empty server id is refused
/// before the ring is touched.
pub fn check_remove_request(request: &RemoveServerRequest) -> (checked: Result<(), Status>)
    ensures
        request.server_id@.len() == 0 ==> (checked matches Err(s) && s.code == StatusCode::InvalidArgument
            && s.message@ == "server_id must not be empty"@),
        request.server_id@.len() > 0 ==> checked is Ok,
{
    if request.server_id.as_str().is_empty() {
        return Err(status(StatusCode::InvalidArgument, "server_id must not be empty"));
    }
    Ok(())
}

impl ConfigController {
    /// Adds the server of the request to the ring as `host:port`, hashed onto
    /// the ring, and answers with the ring as it now stands.
    pub fn add_server(&self, store: &mut ConfigStore, request: AddServerRequest) -> (result: Result<AddServerResponse, Status>)
        ensures
            match result {
                Ok(response) => {
                    &&& request.server is Some
                    &&& old(store)@ is Some
                    &&& ({
                        let info = request.server->0;
                        let addr = server_address(info.address@, info.port);
                        final(store)@ == Some(insert_point(old(store)@->0, (address_tick(addr), addr)))
                    })
                    &&& response.success
                    &&& response.message@ == "server added successfully"@
                    &&& Some(proto_points(response.config@)) == final(store)@
                },
                Err(status) => {
                    &&& final(store)@ == old(store)@
                    &&& request.server is None ==> status.code == StatusCode::InvalidArgument
                        && status.message@ == "missing server field"@
                    &&& request.server is Some ==> old(store)@ is None
                        && status.code == StatusCode::Internal
                        && status.message@ == "config store not initialized"@
                },
            },
    {
        let server_info = match request.server {
            Some(info) => info,
            None => {
                return Err(status(StatusCode::InvalidArgument, "missing server field"));
            },
        };
        let full_address = format_server_address(&server_info.address, server_info.port);
        match store.config_mut() {
            Some(config) => {
                let entry = ConfigVal::new(full_address);
                config.add_entry(entry);
                let proto_config = config_to_proto(config.get_entries().as_slice());
                Ok(AddServerResponse {
                    success: true,
                    message: "server added successfully".to_owned(),
                    config: proto_config,
                })
            },
            None => Err(status(StatusCode::Internal, "config store not initialized")),
        }
    }

    /// Removes every entry of the ring whose address is the request's server
    /// id, and answers with the ring as it now stands.
    pub fn remove_server(&self, store: &mut ConfigStore, request: RemoveServerRequest) -> (result: Result<RemoveServerResponse, Status>)
        ensures
            match result {
                Ok(response) => {
                    &&& request.server_id@.len() > 0
                    &&& old(store)@ is Some
                    &&& has_address(old(store)@->0, request.server_id@)
                    &&& final(store)@ == Some(without_address(old(store)@->0, request.server_id@))
                    &&& response.success
                    &&& response.message@ == "server '"@ + request.server_id@ + "' removed successfully"@
                    &&& Some(proto_points(response.config@)) == final(store)@
                },
                Err(status) => {
                    &&& request.server_id@.len() == 0 ==> final(store)@ == old(store)@
                        && status.code == StatusCode::InvalidArgument
                        && status.message@ == "server_id must not be empty"@
                    &&& request.server_id@.len() > 0 && old(store)@ is None ==> final(store)@ == old(store)@
                        && status.code == StatusCode::Internal
                        && status.message@ == "config store not initialized"@
                    &&& request.server_id@.len() > 0 && old(store)@ is Some ==> {
                        &&& !has_address(old(store)@->0, request.server_id@)
                        &&& final(store)@ == old(store)@
                        &&& status.code == StatusCode::NotFound
                        &&& status.message@ == "no server found with id/address '"@ + request.server_id@ + "'"@
                    }
                },
            },
    {
        match check_remove_request(&request) {
            Ok(()) => {},
            Err(s) => {
                return Err(s);
            },
        }
        let server_id = request.server_id;
        match store.config_mut() {
            Some(config) => {
                let ghost before = config@;
                let removed = config.remove_entry(&server_id);
                if !removed {
                    proof {
                        crate::config_store::lemma_without_address_absent(before, server_id@);
                    }
                    let head = concat_str("no server found with id/address '", server_id.as_str());
                    let message = concat_str(head.as_str(), "'");
                    return Err(Status { code: StatusCode::NotFound, message });
                }
                let proto_config = config_to_proto(config.get_entries().as_slice());
                let head = concat_str("server '", server_id.as_str());
                let message = concat_str(head.as_str(), "' removed successfully");
                Ok(RemoveServerResponse { success: true, message, config: proto_config })
            },
            None => Err(status(StatusCode::Internal, "config store not initialized")),
        }
    }

    /// Answers with the whole ring.
    pub fn get_full_config(&self, store: &ConfigStore, _request: GetFullConfigRequest) -> (result: Result<GetFullConfigResponse, Status>)
        ensures
            match result {
                Ok(response) => {
                    &&& response.success
                    &&& response.message@ == "full config retrieved"@
                    &&& Some(proto_points(response.config@)) == store@
                },
                Err(status) => {
                    &&& store@ is None
                    &&& status.code == StatusCode::Internal
                    &&& status.message@ == "config store not initialized"@
                },
            },
    {
        match crate::config_store::get_config_store(store) {
            Some(config) => {
                let proto_config = config_to_proto(config.get_entries().as_slice());
                Ok(GetFullConfigResponse {
                    success: true,
                    message: "full config retrieved".to_owned(),
                    config: proto_config,
                })
            },
            None => Err(status(StatusCode::Internal, "config store not initialized")),
        }
    }

    /// Answers with one server record per distinct address on the ring, in the
    /// order the addresses first appear; each address is split back into host
    /// and port.
    pub fn get_servers(&self, store: &ConfigStore, _request: GetServersRequest) -> (result: Result<GetServersResponse, Status>)
        ensures
            match result {
                Ok(response) => {
                    &&& store@ is Some
                    &&& response.servers@.len() == unique_addresses(store@->0).len()
                    &&& forall|i: int| 0 <= i < response.servers@.len() ==>
                        server_info_of(unique_addresses(store@->0)[i], #[trigger] response.servers@[i])
                    &&& forall|i: int, j: int| 0 <= i < j < response.servers@.len() ==>
                        response.servers@[i].server_id@ != response.servers@[j].server_id@
                    &&& forall|a: Seq<char>| (exists|i: int| 0 <= i < response.servers@.len()
                        && #[trigger] response.servers@[i].server_id@ == a) <==> has_address(store@->0, a)
                },
                Err(status) => {
                    &&& store@ is None
                    &&& status.code == StatusCode::Internal
                    &&& status.message@ == "config store not initialized"@
                },
            },
    {
        let config = match crate::config_store::get_config_store(store) {
            Some(config) => config,
            None => {
                return Err(status(StatusCode::Internal, "config store not initialized"));
            },
        };
        let addresses = config.get_unique_addresses();
        let ghost unique = addresses@.map_values(|a: String| a@);
        let mut servers: Vec<ServerInfo> = Vec::new();
        let mut i: usize = 0;
        while i < addresses.len()
            invariant
                i <= addresses@.len(),
                unique == addresses@.map_values(|a: String| a@),
                servers@.len() == i,
                forall|k: int| 0 <= k < i ==> server_info_of(unique[k], #[trigger] servers@[k]),
            decreases addresses@.len() - i,
        {
            let addr = &addresses[i];
            let (host, port) = split_server_address(addr);
            assert(unique[i as int] == addr@);
            servers.push(ServerInfo { server_id: addr.clone(), address: host, port });
            i = i + 1;
        }
        proof {
            crate::config_store::lemma_unique_addresses(store@->0);
            let u = unique_addresses(store@->0);
            assert forall|i: int, j: int| 0 <= i < j < servers@.len() implies
                servers@[i].server_id@ != servers@[j].server_id@ by {
                assert(server_info_of(u[i], servers@[i]));
                assert(server_info_of(u[j], servers@[j]));
            }
            assert forall|a: Seq<char>| (exists|i: int| 0 <= i < servers@.len()
                && #[trigger] servers@[i].server_id@ == a) <==> has_address(store@->0, a) by {
                if exists|i: int| 0 <= i < servers@.len() && #[trigger] servers@[i].server_id@ == a {
                    let i = choose|i: int| 0 <= i < servers@.len() && #[trigger] servers@[i].server_id@ == a;
                    assert(server_info_of(u[i], servers@[i]));
                    assert(u.contains(a));
                }
                if has_address(store@->0, a) {
                    assert(u.contains(a));
                    let k = choose|k: int| 0 <= k < u.len() && u[k] == a;
                    assert(server_info_of(u[k], servers@[k]));
                }
            }
        }
        Ok(GetServersResponse { servers })
    }
}

} // verus!
