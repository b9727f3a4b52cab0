//! The Bitcoin networks and where each keeps its data.

use vstd::prelude::*;

verus! {

#[derive(Debug, Clone, Copy, PartialEq, Eq, Structural)]
pub enum Network {
    Mainnet,
    Testnet,
    Signet,
    Regtest,
}

/// The subdirectory of a network's data; mainnet uses the base directory.
pub open spec fn dirname_of(n: Network) -> Seq<char> {
    match n {
        Network::Mainnet => Seq::empty(),
        Network::Testnet => seq!['t', 'e', 's', 't', 'n', 'e', 't', '3'],
        Network::Signet => seq!['s', 'i', 'g', 'n', 'e', 't'],
        Network::Regtest => seq!['r', 'e', 'g', 't', 'e', 's', 't'],
    }
}

/// The lower-case name of a network.
pub open spec fn name_of(n: Network) -> Seq<char> {
    match n {
        Network::Mainnet => seq!['m', 'a', 'i', 'n', 'n', 'e', 't'],
        Network::Testnet => seq!['t', 'e', 's', 't', 'n', 'e', 't'],
        Network::Signet => seq!['s', 'i', 'g', 'n', 'e', 't'],
        Network::Regtest => seq!['r', 'e', 'g', 't', 'e', 's', 't'],
    }
}

impl Network {
    /// The subdirectory that holds this network's data.
    pub fn get_dirname(&self) -> (r: &'static str)
        ensures
            r@ == dirname_of(*self),
    {
        match self {
            Network::Mainnet => {
                proof {
                    reveal_strlit("");
                }
                ""
            },
            Network::Testnet => {
                proof {
                    reveal_strlit("testnet3");
                }
                "testnet3"
            },
            Network::Signet => {
                proof {
                    reveal_strlit("signet");
                }
                "signet"
            },
            Network::Regtest => {
                proof {
                    reveal_strlit("regtest");
                }
                "regtest"
            },
        }
    }

    /// The lower-case name of the network.
    pub fn name(&self) -> (r: &'static str)
        ensures
            r@ == name_of(*self),
    {
        match self {
            Network::Mainnet => {
                proof {
                    reveal_strlit("mainnet");
                }
                "mainnet"
            },
            Network::Testnet => {
                proof {
                    reveal_strlit("testnet");
                }
                "testnet"
            },
            Network::Signet => {
                proof {
                    reveal_strlit("signet");
                }
                "signet"
            },
            Network::Regtest => {
                proof {
                    reveal_strlit("regtest");
                }
                "regtest"
            },
        }
    }
}

/// A name made of lower-case ASCII letters and digits: a single plain path
/// component on every platform, never `.` or `..`.
pub open spec fn plain_component(name: Seq<char>) -> bool {
    forall|i: int| 0 <= i < name.len() ==> ('a' <= #[trigger] name[i] <= 'z' || '0' <= name[i] <= '9')
}

/// The directory of `network`'s data under `base`: `base` itself for
/// mainnet, else `base` joined with the network's subdirectory, which ends
/// the result.
pub fn join_network_dir(base: &str, network: &Network) -> (r: String)
    ensures
        dirname_of(*network).is_suffix_of(r@),
{
    let name = network.get_dirname();
    proof {
        assert(plain_component(dirname_of(*network)));
    }
    join_path(base, name)
}

/// Relies on `std::path::Path::join`: a plain, non-empty component is
/// adjoined at the end of the path on every platform.
#[verifier::external_body]
fn join_path(base: &str, name: &str) -> (r: String)
    requires
        plain_component(name@),
    ensures
        name@.is_suffix_of(r@),
{
    std::path::Path::new(base).join(name).to_string_lossy().into_owned()
}

} // verus!
