//! A static, best-effort service-name hint for well-known ports. Purely
//! presentational: the scanner never interprets port numbers beyond this
//! lookup, and an empty hint means the port is not in the table.

use vstd::prelude::*;

verus! {

/// The hint the table assigns to a port; empty for a port it does not know.
pub open spec fn spec_service_hint(port: u16) -> Seq<char> {
    match port {
        20u16 | 21u16 => "ftp"@,
        22u16 => "ssh"@,
        23u16 => "telnet"@,
        25u16 => "smtp"@,
        53u16 => "dns"@,
        80u16 => "http"@,
        110u16 => "pop3"@,
        135u16 => "msrpc"@,
        139u16 => "netbios"@,
        143u16 => "imap"@,
        443u16 => "https"@,
        445u16 => "smb"@,
        3306u16 => "mysql"@,
        3389u16 => "rdp"@,
        5432u16 => "postgres"@,
        6379u16 => "redis"@,
        8000u16 => "http-alt"@,
        8080u16 => "http-alt"@,
        8443u16 => "https-alt"@,
        _ => ""@,
    }
}

/// A short service-name hint for common ports.
pub fn service_hint(port: u16) -> (hint: &'static str)
    ensures
        hint@ == spec_service_hint(port),
{
    match port {
        20 | 21 => "ftp",
        22 => "ssh",
        23 => "telnet",
        25 => "smtp",
        53 => "dns",
        80 => "http",
        110 => "pop3",
        135 => "msrpc",
        139 => "netbios",
        143 => "imap",
        443 => "https",
        445 => "smb",
        3306 => "mysql",
        3389 => "rdp",
        5432 => "postgres",
        6379 => "redis",
        8000 => "http-alt",
        8080 => "http-alt",
        8443 => "https-alt",
        _ => "",
    }
}

} // verus!
