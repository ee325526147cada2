use vstd::prelude::*;

use crate::error::Error;
use crate::lex::lex_compare;
use vstd::string::StringSliceAdditionalSpecFns;

verus! {

/// A network identifier together with its protocol magic number.
#[derive(Debug, Clone, Copy, PartialEq, Eq, Structural)]
pub struct NetworkInfo {
    pub network_id: u8,
    pub protocol_magic: u32,
}

/// The network that a name stands for, if any: the ASCII bytes of
/// `mainnet`, `preprod` or `preview`.
pub open spec fn network_by_name(name: Seq<u8>) -> Option<NetworkInfo> {
    if name == seq![109u8, 97, 105, 110, 110, 101, 116] {
        Some(NetworkInfo { network_id: 1, protocol_magic: 764824073 })
    } else if name == seq![112u8, 114, 101, 112, 114, 111, 100] {
        Some(NetworkInfo { network_id: 0, protocol_magic: 1 })
    } else if name == seq![112u8, 114, 101, 118, 105, 101, 119] {
        Some(NetworkInfo { network_id: 0, protocol_magic: 2 })
    } else {
        None
    }
}

impl NetworkInfo {
    /// The built-in network of that name (`mainnet`, `preprod`, `preview`);
    /// `UnknownNetwork` for any other name.
    pub fn from_name(name: &str) -> (r: Result<NetworkInfo, Error>)
        ensures
            match network_by_name(name.spec_bytes()) {
                Some(n) => r == Ok::<NetworkInfo, Error>(n),
                None => r == Err::<NetworkInfo, Error>(Error::UnknownNetwork),
            },
    {
        let b = name.as_bytes();
        let mainnet: Vec<u8> = vec![109u8, 97, 105, 110, 110, 101, 116];
        let preprod: Vec<u8> = vec![112u8, 114, 101, 112, 114, 111, 100];
        let preview: Vec<u8> = vec![112u8, 114, 101, 118, 105, 101, 119];
        proof {
            assert(mainnet@ =~= seq![109u8, 97, 105, 110, 110, 101, 116]);
            assert(preprod@ =~= seq![112u8, 114, 101, 112, 114, 111, 100]);
            assert(preview@ =~= seq![112u8, 114, 101, 118, 105, 101, 119]);
        }
        if lex_compare(b, mainnet.as_slice()) == 0 {
            Ok(NetworkInfo::mainnet())
        } else if lex_compare(b, preprod.as_slice()) == 0 {
            Ok(NetworkInfo::testnet_preprod())
        } else if lex_compare(b, preview.as_slice()) == 0 {
            Ok(NetworkInfo::testnet_preview())
        } else {
            Err(Error::UnknownNetwork)
        }
    }

    pub fn new(network_id: u8, protocol_magic: u32) -> (r: NetworkInfo)
        ensures
            r.network_id == network_id,
            r.protocol_magic == protocol_magic,
    {
        NetworkInfo { network_id, protocol_magic }
    }

    pub fn network_id(&self) -> (r: u8)
        ensures
            r == self.network_id,
    {
        self.network_id
    }

    pub fn protocol_magic(&self) -> (r: u32)
        ensures
            r == self.protocol_magic,
    {
        self.protocol_magic
    }

    pub fn mainnet() -> (r: NetworkInfo)
        ensures
            r == (NetworkInfo { network_id: 1, protocol_magic: 764824073 }),
    {
        NetworkInfo { network_id: 1, protocol_magic: 764824073 }
    }

    pub fn testnet_preprod() -> (r: NetworkInfo)
        ensures
            r == (NetworkInfo { network_id: 0, protocol_magic: 1 }),
    {
        NetworkInfo { network_id: 0, protocol_magic: 1 }
    }

    pub fn testnet_preview() -> (r: NetworkInfo)
        ensures
            r == (NetworkInfo { network_id: 0, protocol_magic: 2 }),
    {
        NetworkInfo { network_id: 0, protocol_magic: 2 }
    }
}

} // verus!
