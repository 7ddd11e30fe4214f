//! The server names that the command line accepts.

use vstd::prelude::*;

use crate::downloader::server::Server;

verus! {

/// A server as named on the command line.
#[derive(Debug, Clone, Copy, PartialEq, Eq, Structural)]
pub enum CliServer {
    En,
    Cn,
    Bl,
    Jp,
    Kr,
    Tw,
}

/// The server that a command-line name stands for: the one of the same name.
pub open spec fn spec_server_of(s: CliServer) -> Server {
    match s {
        CliServer::En => Server::En,
        CliServer::Cn => Server::Cn,
        CliServer::Bl => Server::Bl,
        CliServer::Jp => Server::Jp,
        CliServer::Kr => Server::Kr,
        CliServer::Tw => Server::Tw,
    }
}

/// Distinct command-line names stand for distinct servers.
pub proof fn cli_names_are_distinct_servers(a: CliServer, b: CliServer)
    ensures
        a != b ==> spec_server_of(a) != spec_server_of(b),
{
}

impl From<CliServer> for Server {
    fn from(cli_server: CliServer) -> (s: Server) {
        match cli_server {
            CliServer::En => Server::En,
            CliServer::Cn => Server::Cn,
            CliServer::Bl => Server::Bl,
            CliServer::Jp => Server::Jp,
            CliServer::Kr => Server::Kr,
            CliServer::Tw => Server::Tw,
        }
    }
}

impl vstd::std_specs::convert::FromSpecImpl<CliServer> for Server {
    open spec fn obeys_from_spec() -> bool {
        true
    }

    open spec fn from_spec(v: CliServer) -> Server {
        spec_server_of(v)
    }
}

} // verus!
