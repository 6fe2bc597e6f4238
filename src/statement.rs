use vstd::prelude::*;

verus! {

/// The name of a server that binaries are downloaded from.
#[derive(Debug, Clone)]
pub struct ServerName(pub String);

/// A binary downloaded from a server.
#[derive(Debug)]
pub struct Binary {
    from: ServerName,
}

/// Why a download from a server failed.
#[derive(Debug)]
pub enum ServerError {
    /// The server dropped the connection before the transfer was over.
    Disconnected(ServerName),
}

impl Binary {
    /// A binary downloaded from `from`.
    pub fn new(from: ServerName) -> (r: Self)
        ensures
            r.source() == from,
    {
        Binary { from }
    }

    /// The server the binary was downloaded from.
    pub closed spec fn source(&self) -> ServerName {
        self.from
    }

    /// The server the binary was downloaded from.
    pub fn server(&self) -> (r: &ServerName)
        ensures
            *r == self.source(),
    {
        &self.from
    }
}

} // verus!
