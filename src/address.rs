//! An IPv4 address of a connection with its prefix length, as printed.
use vstd::prelude::*;
use vstd::string::*;
use zvariant::OwnedValue;
use crate::scan::{dec_nat, push_nat};

verus! {

#[verifier::external_type_specification]
#[verifier::external_body]
pub struct ExOwnedValue(zvariant::OwnedValue);

#[verifier::external_type_specification]
#[verifier::external_body]
pub struct ExVariantError(zvariant::Error);

/// Relies on zvariant's `TryFrom<&OwnedValue> for u32`: the number a value
/// holds, or an error for a value of another type.
#[verifier::external_body]
fn owned_u32(v: &OwnedValue) -> (r: Result<u32, zvariant::Error>) {
    u32::try_from(v)
}

/// Relies on zvariant's `TryFrom<&OwnedValue> for &str`: the text a value
/// holds, or an error for a value of another type.
#[verifier::external_body]
fn owned_str(v: &OwnedValue) -> (r: Result<String, zvariant::Error>) {
    <&str>::try_from(v).map(|s| s.to_owned())
}

#[derive(Debug)]
pub struct Address {
    pub address: String,
    /// The prefix length in decimal.
    pub mask_cird: String,
}

/// A field of an address entry, as far as reading it is concerned.
#[derive(Debug)]
pub enum AddressField {
    Number(u32),
    Text(String),
    /// A value of any other type.
    Other,
}

/// Why an address entry could not be read.
#[derive(Clone, Copy, Debug, PartialEq, Eq, Structural)]
pub enum AddressError {
    MissingPrefix,
    MissingAddress,
    /// A field holds a value of the wrong type.
    WrongType,
}

impl Address {
    pub fn new(address: String, prefix: u32) -> (r: Address)
        ensures
            r.address@ == address@,
            r.mask_cird@ == dec_nat(prefix as nat),
    {
        let mut mask_cird = String::new();
        push_nat(&mut mask_cird, prefix as u64);
        proof {
            assert(mask_cird@ =~= dec_nat(prefix as nat));
        }
        Address { address, mask_cird }
    }

    /// Reads an entry of a connection's address data from its `prefix` and
    /// `address` fields, given as plain values.
    pub fn from_fields(prefix: Option<AddressField>, address: Option<AddressField>) -> (r: Result<Address, AddressError>)
        ensures
            r == Err::<Address, AddressError>(AddressError::MissingPrefix) <==> prefix is None,
            r == Err::<Address, AddressError>(AddressError::MissingAddress) <==> prefix is Some && address is None,
            r == Err::<Address, AddressError>(AddressError::WrongType) <==> prefix is Some && address is Some && !(
            prefix matches Some(AddressField::Number(_)) && address matches Some(AddressField::Text(_))),
            r matches Ok(a) ==> (prefix matches Some(AddressField::Number(p)) && address matches Some(
                AddressField::Text(t),
            ) && a.address@ == t@ && a.mask_cird@ == dec_nat(p as nat)),
    {
        let prefix = match prefix {
            Some(v) => v,
            None => return Err(AddressError::MissingPrefix),
        };
        let address = match address {
            Some(v) => v,
            None => return Err(AddressError::MissingAddress),
        };
        match (prefix, address) {
            (AddressField::Number(p), AddressField::Text(t)) => Ok(Address::new(t, p)),
            _ => Err(AddressError::WrongType),
        }
    }

    /// Reads an entry of a connection's address data from its `prefix` and
    /// `address` fields: a number and a text.
    pub fn from_raw(prefix: Option<&OwnedValue>, address: Option<&OwnedValue>) -> (r: Result<Address, AddressError>)
        ensures
            r == Err::<Address, AddressError>(AddressError::MissingPrefix) <==> prefix is None,
            r == Err::<Address, AddressError>(AddressError::MissingAddress) <==> prefix is Some && address is None,
            r matches Ok(a) ==> exists|p: u32| a.mask_cird@ == #[trigger] dec_nat(p as nat),
    {
        let prefix = match prefix {
            Some(v) => Some(
                match owned_u32(v) {
                    Ok(p) => AddressField::Number(p),
                    Err(_) => AddressField::Other,
                },
            ),
            None => None,
        };
        let address = match address {
            Some(v) => Some(
                match owned_str(v) {
                    Ok(t) => AddressField::Text(t),
                    Err(_) => AddressField::Other,
                },
            ),
            None => None,
        };
        Address::from_fields(prefix, address)
    }
}

} // verus!
