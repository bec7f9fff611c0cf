//! Error type of the Stratum V2 module.

use vstd::prelude::*;

verus! {

/// The errors the module reports; each carries a human-readable detail.
#[derive(Debug, Clone)]
pub enum StratumV2Error {
    ModuleError(String),
    ProtocolError(String),
    PoolConnectionError(String),
    TemplateError(String),
    MergeMiningError(String),
    ConfigError(String),
    PoolError(String),
    ServerError(String),
}

/// The display prefix of each error kind.
pub open spec fn error_prefix(e: StratumV2Error) -> Seq<char> {
    match e {
        StratumV2Error::ModuleError(_) => "Module error: "@,
        StratumV2Error::ProtocolError(_) => "Stratum V2 protocol error: "@,
        StratumV2Error::PoolConnectionError(_) => "Mining pool connection error: "@,
        StratumV2Error::TemplateError(_) => "Block template generation error: "@,
        StratumV2Error::MergeMiningError(_) => "Merge mining error: "@,
        StratumV2Error::ConfigError(_) => "Configuration error: "@,
        StratumV2Error::PoolError(_) => "Mining pool error: "@,
        StratumV2Error::ServerError(_) => "Server error: "@,
    }
}

impl StratumV2Error {
    /// The detail text carried by the error.
    pub open spec fn detail(self) -> Seq<char> {
        match self {
            StratumV2Error::ModuleError(s) => s@,
            StratumV2Error::ProtocolError(s) => s@,
            StratumV2Error::PoolConnectionError(s) => s@,
            StratumV2Error::TemplateError(s) => s@,
            StratumV2Error::MergeMiningError(s) => s@,
            StratumV2Error::ConfigError(s) => s@,
            StratumV2Error::PoolError(s) => s@,
            StratumV2Error::ServerError(s) => s@,
        }
    }

    /// The error's display text: its kind's prefix, then its detail.
    pub fn message(&self) -> (res: String)
        ensures
            res@ == error_prefix(*self) + self.detail(),
    {
        let (prefix, detail): (&str, &String) = match self {
            StratumV2Error::ModuleError(s) => ("Module error: ", s),
            StratumV2Error::ProtocolError(s) => ("Stratum V2 protocol error: ", s),
            StratumV2Error::PoolConnectionError(s) => ("Mining pool connection error: ", s),
            StratumV2Error::TemplateError(s) => ("Block template generation error: ", s),
            StratumV2Error::MergeMiningError(s) => ("Merge mining error: ", s),
            StratumV2Error::ConfigError(s) => ("Configuration error: ", s),
            StratumV2Error::PoolError(s) => ("Mining pool error: ", s),
            StratumV2Error::ServerError(s) => ("Server error: ", s),
        };
        let mut out = prefix.to_owned();
        out.append(detail.as_str());
        out
    }
}

} // verus!
