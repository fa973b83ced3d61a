use vstd::prelude::*;

verus! {

/// The single discriminated error of the engine.  Every internal failure
/// bubbles up as one of these kinds, each carrying a human-readable cause.
#[derive(Debug)]
pub enum Error {
    /// Malformed or inconsistent configuration; fatal at startup.
    Config(String),
    /// An internal arithmetic or state error; fatal to the current round.
    Runtime(String),
    /// A failure of the persistent cell store.
    Storage(String),
    /// A failure reported by the remote chain client.
    Client(String),
    /// Invalid key material or a scheme-internal signing failure.
    Crypto(String),
}

pub type Result<T> = core::result::Result<T, Error>;

impl Error {
    pub fn config(msg: String) -> (e: Self)
        ensures
            e is Config,
    {
        Error::Config(msg)
    }

    pub fn runtime(msg: String) -> (e: Self)
        ensures
            e is Runtime,
    {
        Error::Runtime(msg)
    }

    pub fn storage(msg: String) -> (e: Self)
        ensures
            e is Storage,
    {
        Error::Storage(msg)
    }

    pub fn client(msg: String) -> (e: Self)
        ensures
            e is Client,
    {
        Error::Client(msg)
    }

    pub fn crypto(msg: String) -> (e: Self)
        ensures
            e is Crypto,
    {
        Error::Crypto(msg)
    }

    /// The carried cause text, for callers that report failures.
    pub fn message(&self) -> (m: &String)
        ensures
            m@ == self.message_spec(),
    {
        match self {
            Error::Config(m) => m,
            Error::Runtime(m) => m,
            Error::Storage(m) => m,
            Error::Client(m) => m,
            Error::Crypto(m) => m,
        }
    }

    pub open spec fn message_spec(&self) -> Seq<char> {
        match self {
            Error::Config(m) => m@,
            Error::Runtime(m) => m@,
            Error::Storage(m) => m@,
            Error::Client(m) => m@,
            Error::Crypto(m) => m@,
        }
    }
}

} // verus!
