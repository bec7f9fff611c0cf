//! Stratum V2 module configuration.

use vstd::prelude::*;

use crate::decimal::{decimal, decimal_string};

verus! {

/// Server configuration: where to listen, the default channel difficulty,
/// the connection limit, and optional pool name and extra extranonce.
#[derive(Clone, Debug)]
pub struct StratumConfig {
    pub listen_addr: String,
    pub difficulty_target: u32,
    pub max_connections: u32,
    pub pool_name: Option<String>,
    pub extra_extranonce: Option<String>,
}

/// The connection limit when the configuration names none.
pub fn default_max_connections() -> (res: u32)
    ensures
        res == 100,
{
    100
}

/// The listen address when the configuration names none.
pub fn default_listen_addr() -> (res: String)
    ensures
        res@ == "0.0.0.0:3333"@,
{
    "0.0.0.0:3333".to_owned()
}

/// The channel difficulty when the configuration names none.
pub fn default_difficulty_target() -> (res: u32)
    ensures
        res == 1,
{
    1
}

impl Default for StratumConfig {
    /// The empty configuration: no address, zero limits, no names.
    fn default() -> (res: Self)
        ensures
            res.listen_addr@ == Seq::<char>::empty(),
            res.difficulty_target == 0,
            res.max_connections == 0,
            res.pool_name is None,
            res.extra_extranonce is None,
    {
        StratumConfig {
            listen_addr: String::new(),
            difficulty_target: 0,
            max_connections: 0,
            pool_name: None,
            extra_extranonce: None,
        }
    }
}

impl StratumConfig {
    /// The configuration as the server's context keys: the listen address
    /// and the difficulty target in decimal.
    pub fn to_context_map(&self) -> (res: Vec<(String, String)>)
        ensures
            res@.map_values(|p: (String, String)| (p.0@, p.1@)) == seq![
                ("stratum_v2.listen_addr"@, self.listen_addr@),
                ("stratum_v2.difficulty_target"@, decimal(self.difficulty_target as nat)),
            ],
    {
        let mut m: Vec<(String, String)> = Vec::new();
        m.push(("stratum_v2.listen_addr".to_owned(), self.listen_addr.clone()));
        m.push(
            (
                "stratum_v2.difficulty_target".to_owned(),
                decimal_string(self.difficulty_target as u64),
            ),
        );
        assert(m@.map_values(|p: (String, String)| (p.0@, p.1@)) =~= seq![
            ("stratum_v2.listen_addr"@, self.listen_addr@),
            ("stratum_v2.difficulty_target"@, decimal(self.difficulty_target as nat)),
        ]);
        m
    }
}

} // verus!
