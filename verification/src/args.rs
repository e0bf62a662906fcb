//! Which invoice the arguments ask for.

use crate::error::{Error, IndexFault};
use crate::invoice::InvoiceIndex;
use crate::text::{integer_of, parse_integer};
use vstd::prelude::*;

verus! {

/// The invoice that a list of arguments names: a year and the number of an
/// invoice, both in decimal digits, and nothing after them. The first
/// argument that is wrong decides the error.
pub open spec fn index_of(args: Seq<Seq<char>>) -> Result<InvoiceIndex, Error> {
    if args.len() == 0 {
        Err(Error::InvalidIndex(IndexFault::MissingYear))
    } else if integer_of(args[0], 0, u16::MAX as int) is None {
        Err(Error::InvalidIndex(IndexFault::Year))
    } else if args.len() == 1 {
        Err(Error::InvalidIndex(IndexFault::MissingIndex))
    } else if integer_of(args[1], 0, u8::MAX as int) is None {
        Err(Error::InvalidIndex(IndexFault::Index))
    } else if args.len() > 2 {
        Err(Error::InvalidIndex(IndexFault::TooManyArguments))
    } else {
        Ok(
            InvoiceIndex {
                year: integer_of(args[0], 0, u16::MAX as int)->0 as u16,
                index: integer_of(args[1], 0, u8::MAX as int)->0 as u8,
            },
        )
    }
}

/// Reads the year and the number of an invoice from the arguments of the
/// program, its own name left out.
pub fn parse(args: Vec<String>) -> (r: Result<InvoiceIndex, Error>)
    ensures
        r == index_of(args.deep_view()),
{
    if args.len() == 0 {
        return Err(Error::InvalidIndex(IndexFault::MissingYear));
    }
    assert(args.deep_view()[0] == args[0]@);
    let year = match parse_integer(args[0].as_str(), 0, u16::MAX as i64) {
        Some(year) => year as u16,
        None => {
            return Err(Error::InvalidIndex(IndexFault::Year));
        },
    };
    if args.len() == 1 {
        return Err(Error::InvalidIndex(IndexFault::MissingIndex));
    }
    assert(args.deep_view()[1] == args[1]@);
    let index = match parse_integer(args[1].as_str(), 0, u8::MAX as i64) {
        Some(index) => index as u8,
        None => {
            return Err(Error::InvalidIndex(IndexFault::Index));
        },
    };
    if args.len() > 2 {
        return Err(Error::InvalidIndex(IndexFault::TooManyArguments));
    }
    Ok(InvoiceIndex { year, index })
}

} // verus!
