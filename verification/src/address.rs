//! Internet addresses, as the numbers they stand for.

use crate::endian::le_bytes;
use crate::error::{Failure, LBSError};
use crate::format::{bool_wire, parse_bool, parse_unsigned, Parsed};
use crate::read::LBSRead;
use crate::stream::Reader;
use crate::write::LBSWrite;
use vstd::prelude::*;

verus! {

/// An internet address of either family: the 32-bit number of a version 4
/// address or the 128-bit number of a version 6 address.
#[derive(Clone, Copy, Debug, PartialEq, Eq, Structural)]
pub enum IpAddress {
    V4(u32),
    V6(u128),
}

impl View for IpAddress {
    type V = IpAddress;

    open spec fn view(&self) -> IpAddress {
        *self
    }
}

impl DeepView for IpAddress {
    type V = IpAddress;

    open spec fn deep_view(&self) -> IpAddress {
        *self
    }
}

impl LBSWrite for IpAddress {
    /// One byte that tells the family, `1` for version 4, then the
    /// address in four or sixteen bytes.
    open spec fn wire(&self) -> Seq<u8> {
        match self {
            IpAddress::V4(number) => bool_wire(true) + le_bytes(*number as nat, 4),
            IpAddress::V6(number) => bool_wire(false) + le_bytes(*number as nat, 16),
        }
    }

    open spec fn outcome(&self) -> Result<(), Failure> {
        Ok(())
    }

    open spec fn must_write(&self) -> bool {
        true
    }

    fn lbs_write(&self, w: &mut Vec<u8>) -> (res: Result<(), LBSError>) {
        let ghost before = w@;
        match self {
            IpAddress::V4(ip) => {
                true.lbs_write(w)?;
                let res = ip.lbs_write(w);
                assert(w@ =~= before + (bool_wire(true) + le_bytes(*ip as nat, 4)));
                res
            },
            IpAddress::V6(ip) => {
                false.lbs_write(w)?;
                let res = ip.lbs_write(w);
                assert(w@ =~= before + (bool_wire(false) + le_bytes(*ip as nat, 16)));
                res
            },
        }
    }

    fn lbs_must_write(&self) -> (must: bool) {
        true
    }
}

impl LBSRead for IpAddress {
    open spec fn parse(input: Seq<u8>) -> Parsed<IpAddress> {
        let family = parse_bool(input);
        match family.result {
            Ok(v4) => if v4 {
                parse_unsigned(family.rest, 4).map(|number: nat| IpAddress::V4(number as u32))
            } else {
                parse_unsigned(family.rest, 16).map(|number: nat| IpAddress::V6(number as u128))
            },
            Err(failure) => Parsed::failed(failure, family.rest),
        }
    }

    fn lbs_read(r: &mut Reader) -> (res: Result<Self, LBSError>) {
        Ok(
            match bool::lbs_read(r)? {
                true => IpAddress::V4(u32::lbs_read(r)?),
                false => IpAddress::V6(u128::lbs_read(r)?),
            },
        )
    }
}

} // verus!
