//! Classify a captured segment's direction relative to a remembered
//! client/server pair.

use vstd::prelude::*;
use crate::tcpdump::header::IpV4;

verus! {

/// A remembered connection: the first observed source is taken for the
/// client, the first observed destination for the server.
#[derive(Debug, Clone, Copy, PartialEq, Eq, Structural)]
pub struct Dynamic {
    client: IpV4,
    server: IpV4,
}

#[allow(non_camel_case_types)]
#[derive(Debug, Clone, Copy, PartialEq, Eq, Structural)]
pub enum Direction {
    REQUEST,
    RESPONSE,
    EXTERNAL,
}

/// How an endpoint pair relates to the remembered connection: client to
/// server is a request, server to client a response, anything else comes
/// from outside the connection.
pub open spec fn spec_direction(client: IpV4, server: IpV4, src: IpV4, dst: IpV4) -> Direction {
    if client == src && server == dst {
        Direction::REQUEST
    } else if server == src && client == dst {
        Direction::RESPONSE
    } else {
        Direction::EXTERNAL
    }
}

impl Dynamic {
    pub closed spec fn spec_client(self) -> IpV4 {
        self.client
    }

    pub closed spec fn spec_server(self) -> IpV4 {
        self.server
    }

    pub fn new(client: IpV4, server: IpV4) -> (r: Self)
        ensures
            r.spec_client() == client,
            r.spec_server() == server,
    {
        Dynamic { client, server }
    }

    /// The 3-way classification of one observed endpoint pair, as
    /// `spec_direction` says.
    pub fn direction(&self, src: IpV4, dst: IpV4) -> (r: Direction)
        ensures
            r == spec_direction(self.spec_client(), self.spec_server(), src, dst),
    {
        if self.client == src && self.server == dst {
            Direction::REQUEST
        } else if self.server == src && self.client == dst {
            Direction::RESPONSE
        } else {
            Direction::EXTERNAL
        }
    }
}

/// The name of a direction.
pub open spec fn spec_direction_name(d: Direction) -> Seq<char> {
    match d {
        Direction::REQUEST => "REQUEST"@,
        Direction::RESPONSE => "RESPONSE"@,
        Direction::EXTERNAL => "EXTERNAL"@,
    }
}

impl Direction {
    /// The direction's name as text.
    pub fn name(&self) -> (r: &'static str)
        ensures
            r@ == spec_direction_name(*self),
    {
        match self {
            Direction::REQUEST => "REQUEST",
            Direction::RESPONSE => "RESPONSE",
            Direction::EXTERNAL => "EXTERNAL",
        }
    }
}

} // verus!
