//! What can go wrong.

use vstd::prelude::*;

verus! {

/// One of the four tables that an invoice is assembled from.
#[derive(Clone, Copy, Debug, PartialEq, Eq)]
pub enum Table {
    /// The clients, by their key.
    Clients,
    /// The businesses, by their key.
    Businesses,
    /// The lines of a year's invoices.
    Ledger,
    /// Business, client and date of a year's invoices.
    Metadata,
}

/// Why the arguments name no invoice.
#[derive(Clone, Copy, Debug, PartialEq, Eq)]
pub enum IndexFault {
    /// There is no argument at all.
    MissingYear,
    /// There is a year, but no number.
    MissingIndex,
    /// There are more than two arguments.
    TooManyArguments,
    /// The first argument is not a year.
    Year,
    /// The second argument is not the number of an invoice.
    Index,
}

/// Why a template cannot be filled.
#[derive(Clone, Copy, Debug, PartialEq, Eq)]
pub enum ShapeFault {
    /// Nothing in the template is marked to take the lines.
    NoItems,
    /// More than one place in the template is marked to take the lines.
    SeveralItems,
    /// A placeholder asks for a field that an invoice does not have, or
    /// names none.
    UnknownField,
    /// The template could not be searched for its placeholders.
    Unreadable,
}

/// Why no invoice was made.
#[derive(Clone, Copy, Debug, PartialEq, Eq)]
pub enum Error {
    /// The arguments name no invoice.
    InvalidIndex(IndexFault),
    /// A table does not have the columns or the values it must have.
    MalformedSource(Table),
    /// A table of the year has no row for the invoice.
    MissingInvoice(Table),
    /// The invoice names a business or a client that its table lacks.
    MissingReference(Table),
    /// The template cannot be filled.
    TemplateShapeError(ShapeFault),
}

impl Error {
    /// The error in words.
    pub open spec fn message(self) -> Seq<char> {
        match self {
            Error::InvalidIndex(IndexFault::MissingYear) => "missing year"@,
            Error::InvalidIndex(IndexFault::MissingIndex) => "missing index"@,
            Error::InvalidIndex(IndexFault::TooManyArguments) => "too many arguments"@,
            Error::InvalidIndex(IndexFault::Year) => "invalid year"@,
            Error::InvalidIndex(IndexFault::Index) => "invalid index"@,
            Error::MalformedSource(Table::Clients) => "Malformed clients.csv"@,
            Error::MalformedSource(Table::Businesses) => "Malformed businesses.csv"@,
            Error::MalformedSource(Table::Ledger) => "Malformed data.csv"@,
            Error::MalformedSource(Table::Metadata) => "Malformed invoices.csv"@,
            Error::MissingInvoice(Table::Ledger) => "Missing entry in data.csv"@,
            Error::MissingInvoice(_) => "Missing entry in invoices.csv"@,
            Error::MissingReference(Table::Businesses) => "Missing business"@,
            Error::MissingReference(_) => "Missing client"@,
            Error::TemplateShapeError(ShapeFault::NoItems) => "missing .items element"@,
            Error::TemplateShapeError(ShapeFault::SeveralItems) => "more than one .items element"@,
            Error::TemplateShapeError(ShapeFault::UnknownField) =>
                "output element with unknown data-field attribute"@,
            Error::TemplateShapeError(ShapeFault::Unreadable) => "template cannot be searched"@,
        }
    }

    /// The error in words.
    pub fn description(&self) -> (r: &'static str)
        ensures
            r@ == self.message(),
    {
        match self {
            Error::InvalidIndex(IndexFault::MissingYear) => "missing year",
            Error::InvalidIndex(IndexFault::MissingIndex) => "missing index",
            Error::InvalidIndex(IndexFault::TooManyArguments) => "too many arguments",
            Error::InvalidIndex(IndexFault::Year) => "invalid year",
            Error::InvalidIndex(IndexFault::Index) => "invalid index",
            Error::MalformedSource(Table::Clients) => "Malformed clients.csv",
            Error::MalformedSource(Table::Businesses) => "Malformed businesses.csv",
            Error::MalformedSource(Table::Ledger) => "Malformed data.csv",
            Error::MalformedSource(Table::Metadata) => "Malformed invoices.csv",
            Error::MissingInvoice(Table::Ledger) => "Missing entry in data.csv",
            Error::MissingInvoice(_) => "Missing entry in invoices.csv",
            Error::MissingReference(Table::Businesses) => "Missing business",
            Error::MissingReference(_) => "Missing client",
            Error::TemplateShapeError(ShapeFault::NoItems) => "missing .items element",
            Error::TemplateShapeError(ShapeFault::SeveralItems) => "more than one .items element",
            Error::TemplateShapeError(ShapeFault::UnknownField) =>
                "output element with unknown data-field attribute",
            Error::TemplateShapeError(ShapeFault::Unreadable) => "template cannot be searched",
        }
    }
}

} // verus!
