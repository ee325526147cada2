//! Addresses: a header byte (type nibble over network nibble), the payment
//! credential's hash, then per kind a staking hash, a pointer or nothing.
use vstd::prelude::*;

use crate::bytes::append_bytes;
use crate::credential::{Credential, CredentialView, HASH_LEN};
use crate::error::Error;
use crate::varint::{lemma_read_varint_bytes, push_varint, read_u64_varint, read_varint, varint_bytes};
use vstd::slice::{slice_subrange, slice_to_vec};

verus! {

/// The address kinds that a header can declare.
#[derive(Debug, Clone, Copy, PartialEq, Eq, Structural)]
pub enum AddressKind {
    /// Payment and staking credential.
    Base,
    /// Payment credential and a pointer to a staking registration.
    Pointer,
    /// Payment credential only.
    Enterprise,
    /// Staking credential only, held in the payment position.
    Reward,
    /// Legacy address: a payment key hash only.
    Legacy,
}

/// A pointer to the certificate that registered a staking key.
#[derive(Debug, Clone, Copy, PartialEq, Eq, Structural)]
pub struct Pointer {
    pub slot: u64,
    pub tx_index: u64,
    pub cert_index: u64,
}

/// What follows the payment credential.
#[derive(Debug, Clone)]
pub enum StakePart {
    Credential(Credential),
    Pointer(Pointer),
    Nothing,
}

pub enum StakeView {
    Credential(CredentialView),
    Pointer(Pointer),
    Nothing,
}

#[derive(Debug, Clone)]
pub struct Address {
    pub kind: AddressKind,
    pub network: u8,
    pub payment: Credential,
    pub stake: StakePart,
}

pub struct AddressView {
    pub kind: AddressKind,
    pub network: u8,
    pub payment: CredentialView,
    pub stake: StakeView,
}

impl View for StakePart {
    type V = StakeView;

    open spec fn view(&self) -> StakeView {
        match self {
            StakePart::Credential(c) => StakeView::Credential(c@),
            StakePart::Pointer(p) => StakeView::Pointer(*p),
            StakePart::Nothing => StakeView::Nothing,
        }
    }
}

impl View for Address {
    type V = AddressView;

    open spec fn view(&self) -> AddressView {
        AddressView {
            kind: self.kind,
            network: self.network,
            payment: self.payment@,
            stake: self.stake@,
        }
    }
}

impl AddressView {
    /// The kind, the credentials' tags and what follows the payment part
    /// agree, the network fits in four bits and every hash is 28 bytes.
    pub open spec fn wf(self) -> bool {
        &&& self.network < 16
        &&& self.payment.wf()
        &&& match self.kind {
            AddressKind::Base => self.stake matches StakeView::Credential(c) && c.wf(),
            AddressKind::Pointer => self.stake is Pointer,
            AddressKind::Enterprise => self.stake is Nothing,
            AddressKind::Reward => self.stake is Nothing,
            AddressKind::Legacy => self.stake is Nothing && !self.payment.is_script(),
        }
    }

    /// The type nibble of the header.
    pub open spec fn type_nibble(self) -> nat {
        let p: nat = if self.payment.is_script() {
            1
        } else {
            0
        };
        match self.kind {
            AddressKind::Base => p + match self.stake {
                StakeView::Credential(c) => if c.is_script() {
                    2nat
                } else {
                    0nat
                },
                _ => 0nat,
            },
            AddressKind::Pointer => 4 + p,
            AddressKind::Enterprise => 6 + p,
            AddressKind::Legacy => 8,
            AddressKind::Reward => 14 + p,
        }
    }
}

pub open spec fn pointer_bytes(p: Pointer) -> Seq<u8> {
    varint_bytes(p.slot as nat, false) + varint_bytes(p.tx_index as nat, false) + varint_bytes(
        p.cert_index as nat,
        false,
    )
}

/// The bytes of an address.
pub open spec fn encode_spec(v: AddressView) -> Seq<u8> {
    let tail = match v.stake {
        StakeView::Credential(c) => c.hash(),
        StakeView::Pointer(p) => pointer_bytes(p),
        StakeView::Nothing => Seq::empty(),
    };
    seq![(v.type_nibble() * 16 + v.network) as u8] + v.payment.hash() + tail
}

/// One number of a pointer, which must fit in 64 bits.
pub open spec fn read_field(b: Seq<u8>, pos: int) -> Option<(u64, int)> {
    match read_varint(b, pos, 0) {
        Some((v, e)) => if v <= u64::MAX {
            Some((v as u64, e))
        } else {
            None
        },
        None => None,
    }
}

pub open spec fn field_view(r: Option<(u64, usize)>) -> Option<(u64, int)> {
    match r {
        Some((v, e)) => Some((v, e as int)),
        None => None,
    }
}

/// The pointer that starts at `pos`, and the position after it.
pub open spec fn read_pointer(b: Seq<u8>, pos: int) -> Option<(Pointer, int)> {
    match read_field(b, pos) {
        Some((slot, e1)) => match read_field(b, e1) {
            Some((tx_index, e2)) => match read_field(b, e2) {
                Some((cert_index, e3)) => Some(
                    (Pointer { slot, tx_index, cert_index }, e3),
                ),
                None => None,
            },
            None => None,
        },
        None => None,
    }
}

pub open spec fn cred_of(script: bool, h: Seq<u8>) -> CredentialView {
    if script {
        CredentialView::ScriptHash(h)
    } else {
        CredentialView::KeyHash(h)
    }
}

/// What a byte sequence decodes to.
pub open spec fn decode_spec(b: Seq<u8>) -> Result<AddressView, Error> {
    if b.len() == 0 {
        Err(Error::InvalidAddressLength)
    } else {
        let t = b[0] / 16;
        let network = b[0] % 16;
        let payment = cred_of(t % 2 == 1, b.subrange(1, 29));
        if t <= 3 {
            if b.len() != 57 {
                Err(Error::InvalidAddressLength)
            } else {
                Ok(
                    AddressView {
                        kind: AddressKind::Base,
                        network,
                        payment,
                        stake: StakeView::Credential(cred_of(t >= 2, b.subrange(29, 57))),
                    },
                )
            }
        } else if t == 4 || t == 5 {
            if b.len() < 29 {
                Err(Error::InvalidAddressLength)
            } else {
                match read_pointer(b, 29) {
                    None => Err(Error::MalformedPointer),
                    Some((p, e)) => if e != b.len() {
                        Err(Error::InvalidAddressLength)
                    } else {
                        Ok(
                            AddressView {
                                kind: AddressKind::Pointer,
                                network,
                                payment,
                                stake: StakeView::Pointer(p),
                            },
                        )
                    },
                }
            }
        } else if t == 6 || t == 7 || t == 8 || t == 14 || t == 15 {
            if b.len() != 29 {
                Err(Error::InvalidAddressLength)
            } else {
                let kind = if t == 8 {
                    AddressKind::Legacy
                } else if t >= 14 {
                    AddressKind::Reward
                } else {
                    AddressKind::Enterprise
                };
                Ok(AddressView { kind, network, payment, stake: StakeView::Nothing })
            }
        } else {
            Err(Error::InvalidAddressHeader)
        }
    }
}

fn make_credential(script: bool, h: &[u8]) -> (r: Credential)
    ensures
        r@ == cred_of(script, h@),
{
    if script {
        Credential::ScriptHash(slice_to_vec(h))
    } else {
        Credential::KeyHash(slice_to_vec(h))
    }
}

fn credential_well_formed(c: &Credential) -> (r: bool)
    ensures
        r == c@.wf(),
{
    c.hash_bytes().len() == HASH_LEN
}

impl Address {
    /// An address of the given parts; `InvalidAddressHeader` when they do not
    /// make up one of the defined kinds on a four-bit network id.
    pub fn new(kind: AddressKind, network: u8, payment: Credential, stake: StakePart) -> (r: Result<
        Address,
        Error,
    >)
        ensures
            (AddressView { kind, network, payment: payment@, stake: stake@ }).wf() ==> (r matches Ok(
                a,
            ) && a@ == (AddressView { kind, network, payment: payment@, stake: stake@ })),
            !(AddressView { kind, network, payment: payment@, stake: stake@ }).wf() ==> r == Err::<
                Address,
                Error,
            >(Error::InvalidAddressHeader),
    {
        let parts_agree = match kind {
            AddressKind::Base => match &stake {
                StakePart::Credential(c) => credential_well_formed(c),
                _ => false,
            },
            AddressKind::Pointer => match &stake {
                StakePart::Pointer(_) => true,
                _ => false,
            },
            AddressKind::Enterprise | AddressKind::Reward => match &stake {
                StakePart::Nothing => true,
                _ => false,
            },
            AddressKind::Legacy => match &stake {
                StakePart::Nothing => !payment.is_script(),
                _ => false,
            },
        };
        if network < 16 && credential_well_formed(&payment) && parts_agree {
            Ok(Address { kind, network, payment, stake })
        } else {
            Err(Error::InvalidAddressHeader)
        }
    }

    /// The type nibble of the header.
    fn type_nibble(&self) -> (r: u8)
        requires
            self@.wf(),
        ensures
            r as nat == self@.type_nibble(),
    {
        let p: u8 = if self.payment.is_script() {
            1
        } else {
            0
        };
        match self.kind {
            AddressKind::Base => p + match &self.stake {
                StakePart::Credential(c) => if c.is_script() {
                    2u8
                } else {
                    0u8
                },
                _ => 0u8,
            },
            AddressKind::Pointer => 4 + p,
            AddressKind::Enterprise => 6 + p,
            AddressKind::Legacy => 8,
            AddressKind::Reward => 14 + p,
        }
    }

    /// The bytes of this address.
    pub fn to_bytes(&self) -> (r: Vec<u8>)
        requires
            self@.wf(),
        ensures
            r@ == encode_spec(self@),
    {
        let nibble = self.type_nibble();
        let mut out: Vec<u8> = Vec::new();
        out.push(nibble * 16 + self.network);
        append_bytes(&mut out, self.payment.hash_bytes().as_slice());
        match &self.stake {
            StakePart::Credential(c) => append_bytes(&mut out, c.hash_bytes().as_slice()),
            StakePart::Pointer(p) => {
                push_varint(&mut out, p.slot, false);
                push_varint(&mut out, p.tx_index, false);
                push_varint(&mut out, p.cert_index, false);
            },
            StakePart::Nothing => {},
        }
        proof {
            assert(out@ =~= encode_spec(self@));
        }
        out
    }

    /// Decodes an address: `InvalidAddressHeader` for an unknown type nibble,
    /// `InvalidAddressLength` when the length does not fit the declared kind,
    /// `MalformedPointer` when a pointer's numbers are cut off or too large.
    pub fn from_bytes(b: &[u8]) -> (r: Result<Address, Error>)
        ensures
            decode_result_view(r) == decode_spec(b@),
            r matches Ok(a) ==> a@.wf(),
    {
        proof {
            lemma_decode_wf(b@);
        }
        if b.len() == 0 {
            return Err(Error::InvalidAddressLength);
        }
        let t: u8 = b[0] / 16;
        let network: u8 = b[0] % 16;
        if t <= 3 {
            if b.len() != 57 {
                return Err(Error::InvalidAddressLength);
            }
            let payment = make_credential(t % 2 == 1, slice_subrange(b, 1, 29));
            let stake = make_credential(t >= 2, slice_subrange(b, 29, 57));
            Ok(Address { kind: AddressKind::Base, network, payment, stake: StakePart::Credential(stake) })
        } else if t == 4 || t == 5 {
            if b.len() < 29 {
                return Err(Error::InvalidAddressLength);
            }
            let payment = make_credential(t % 2 == 1, slice_subrange(b, 1, 29));
            let r1 = read_u64_varint(b, 29);
            assert(field_view(r1) == read_field(b@, 29));
            let (slot, e1) = match r1 {
                Some(x) => x,
                None => return Err(Error::MalformedPointer),
            };
            let r2 = read_u64_varint(b, e1);
            assert(field_view(r2) == read_field(b@, e1 as int));
            let (tx_index, e2) = match r2 {
                Some(x) => x,
                None => return Err(Error::MalformedPointer),
            };
            let r3 = read_u64_varint(b, e2);
            assert(field_view(r3) == read_field(b@, e2 as int));
            let (cert_index, e3) = match r3 {
                Some(x) => x,
                None => return Err(Error::MalformedPointer),
            };
            if e3 != b.len() {
                return Err(Error::InvalidAddressLength);
            }
            let p = Pointer { slot, tx_index, cert_index };
            Ok(Address { kind: AddressKind::Pointer, network, payment, stake: StakePart::Pointer(p) })
        } else if t == 6 || t == 7 || t == 8 || t == 14 || t == 15 {
            if b.len() != 29 {
                return Err(Error::InvalidAddressLength);
            }
            let payment = make_credential(t % 2 == 1, slice_subrange(b, 1, 29));
            let kind = if t == 8 {
                AddressKind::Legacy
            } else if t >= 14 {
                AddressKind::Reward
            } else {
                AddressKind::Enterprise
            };
            Ok(Address { kind, network, payment, stake: StakePart::Nothing })
        } else {
            Err(Error::InvalidAddressHeader)
        }
    }
}

pub open spec fn decode_result_view(r: Result<Address, Error>) -> Result<AddressView, Error> {
    match r {
        Ok(a) => Ok(a@),
        Err(e) => Err(e),
    }
}

/// Whatever decodes is a well-formed address.
pub proof fn lemma_decode_wf(b: Seq<u8>)
    ensures
        decode_spec(b) matches Ok(v) ==> v.wf(),
{
    if b.len() > 0 {
        assert(b.subrange(1, 29).len() == 28 || b.len() < 29);
    }
}

/// Decoding the bytes of a well-formed address gives that address back.
pub proof fn lemma_address_round_trip(v: AddressView)
    requires
        v.wf(),
    ensures
        decode_spec(encode_spec(v)) == Ok::<AddressView, Error>(v),
{
    let b = encode_spec(v);
    let n = v.type_nibble();
    let h = (n * 16 + v.network) as u8;
    assert(n <= 15);
    assert(b[0] == h);
    assert(h / 16 == n && h % 16 == v.network) by (nonlinear_arith)
        requires
            h == n * 16 + v.network,
            v.network < 16,
            n <= 15,
    ;
    let ph = v.payment.hash();
    assert(b.subrange(1, 29) =~= ph);
    assert(cred_of(n % 2 == 1, ph) == v.payment);
    match v.stake {
        StakeView::Credential(c) => {
            assert(b.subrange(29, 57) =~= c.hash());
        },
        StakeView::Pointer(p) => {
            let s1 = varint_bytes(p.slot as nat, false);
            let s2 = varint_bytes(p.tx_index as nat, false);
            let s3 = varint_bytes(p.cert_index as nat, false);
            let e1: int = 29 + s1.len() as int;
            let e2: int = e1 + s2.len() as int;
            let e3: int = e2 + s3.len() as int;
            assert(b =~= seq![h] + ph + s1 + s2 + s3);
            assert(b.subrange(29, e1) =~= s1);
            assert(b.subrange(e1, e2) =~= s2);
            assert(b.subrange(e2, e3) =~= s3);
            lemma_read_varint_bytes(b, 29, p.slot as nat);
            lemma_read_varint_bytes(b, e1, p.tx_index as nat);
            lemma_read_varint_bytes(b, e2, p.cert_index as nat);
            assert(read_pointer(b, 29) == Some((p, e3)));
        },
        StakeView::Nothing => {},
    }
}

} // verus!
