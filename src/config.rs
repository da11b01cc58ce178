//! Small decisions of the wallet's configuration and platform checks.
use vstd::prelude::*;

use crate::text::same_text;

verus! {

/// SHA-256 of a byte string.
pub uninterp spec fn sha256_digest(data: Seq<u8>) -> Seq<u8>;

/// Relies on sha2's `Sha256` (through `Digest::digest`): the SHA-256 hash of
/// the bytes, 32 bytes long.
#[verifier::external_body]
fn sha256(data: &[u8]) -> (r: Vec<u8>)
    ensures
        r@ == sha256_digest(data@),
        r@.len() == 32,
{
    <sha2::Sha256 as sha2::Digest>::digest(data).to_vec()
}

/// The key under which a password is stretched: SHA-256 of its UTF-8 bytes.
pub fn hash(s: &str) -> (r: Vec<u8>)
    ensures
        r@ == sha256_digest(vstd::utf8::encode_utf8(s@)),
        r@.len() == 32,
{
    sha256(s.as_bytes())
}

/// The networks a wallet can run on.
#[derive(Clone, Copy, PartialEq, Eq, Structural, Debug)]
pub enum Network {
    Main,
    Testnet,
    RegTest,
    TestnetMock,
}

pub open spec fn network_name(n: Network) -> Seq<char> {
    match n {
        Network::Main => "main"@,
        Network::Testnet => "testnet"@,
        Network::RegTest => "regtest"@,
        Network::TestnetMock => "testnet-mock"@,
    }
}


impl Network {
    /// The name under which the network is stored.
    pub fn name(&self) -> (r: &'static str)
        ensures
            r@ == network_name(*self),
    {
        match self {
            Network::Main => "main",
            Network::Testnet => "testnet",
            Network::RegTest => "regtest",
            Network::TestnetMock => "testnet-mock",
        }
    }

    /// The network with the stored name `s`, if any.
    pub fn from_name(s: &str) -> (r: Option<Network>)
        ensures
            r matches Some(n) ==> network_name(n) == s@,
            r is None ==> forall|n: Network| network_name(n) != s@,
    {
        if same_text(s, "main") {
            Some(Network::Main)
        } else if same_text(s, "testnet") {
            Some(Network::Testnet)
        } else if same_text(s, "regtest") {
            Some(Network::RegTest)
        } else if same_text(s, "testnet-mock") {
            Some(Network::TestnetMock)
        } else {
            None
        }
    }
}

pub open spec fn spec_remote_rest_key(network: Network) -> Seq<char> {
    match network {
        Network::Testnet => "remote_rest_testnet"@,
        Network::RegTest => "remote_rest_regtest"@,
        _ => "remote_rest"@,
    }
}

/// The configuration key under which the remote node's address is stored
/// for a network.
pub fn remote_rest_key(network: Network) -> (r: &'static str)
    ensures
        r@ == spec_remote_rest_key(network),
{
    match network {
        Network::Testnet => "remote_rest_testnet",
        Network::RegTest => "remote_rest_regtest",
        _ => "remote_rest",
    }
}

/// Whether a Windows version (major, minor, build) is Windows 11: major
/// version 10 or more and build 20000 or more. `None` stands for a platform
/// that is not Windows or reports no such version.
pub fn is_win11(version: Option<(u64, u64, u64)>) -> (r: bool)
    ensures
        r == match version {
            Some((major, _, build)) => major >= 10 && build >= 20000,
            None => false,
        },
{
    match version {
        Some((major, _minor, build)) => {
            if major < 10 {
                return false;
            }
            if build < 20000 {
                return false;
            }
            true
        },
        None => false,
    }
}

} // verus!
