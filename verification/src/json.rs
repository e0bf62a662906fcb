//! What the accounts get of an invoice: an order, with the invoice's
//! document attached.

use crate::date::DateView;
use crate::invoice::{Invoice, InvoiceView, LineItem, LineItemView, Money};
use vstd::prelude::*;

verus! {

/// The character that stands for six bits in base 64: the capital letters,
/// the small letters, the digits, `+` and `/`.
pub open spec fn base64_char(six: int) -> char
    recommends
        0 <= six < 64,
{
    if six < 26 {
        (('A' as int + six) as u8) as char
    } else if six < 52 {
        (('a' as int + six - 26) as u8) as char
    } else if six < 62 {
        (('0' as int + six - 52) as u8) as char
    } else if six == 62 {
        '+'
    } else {
        '/'
    }
}

/// Bytes in base 64: every three bytes give four characters of six bits
/// each, and what is left at the end is filled up with `=`.
pub open spec fn base64_of(bytes: Seq<u8>) -> Seq<char>
    decreases bytes.len(),
{
    if bytes.len() == 0 {
        Seq::empty()
    } else {
        let first = bytes[0] as int;
        if bytes.len() == 1 {
            seq![base64_char(first / 4), base64_char(first % 4 * 16), '=', '=']
        } else {
            let second = bytes[1] as int;
            if bytes.len() == 2 {
                seq![
                    base64_char(first / 4),
                    base64_char(first % 4 * 16 + second / 16),
                    base64_char(second % 16 * 4),
                    '=',
                ]
            } else {
                let third = bytes[2] as int;
                seq![
                    base64_char(first / 4),
                    base64_char(first % 4 * 16 + second / 16),
                    base64_char(second % 16 * 4 + third / 64),
                    base64_char(third % 64),
                ] + base64_of(bytes.skip(3))
            }
        }
    }
}

/// `base64::encode`: the bytes in base 64 with the standard alphabet,
/// padded with `=`.
#[verifier::external_body]
fn encode(content: &[u8]) -> (r: String)
    ensures
        r@ == base64_of(content@),
{
    base64::encode(content)
}

/// The invoice's document as the accounts take it: its name, and its bytes
/// in base 64.
#[derive(Debug, PartialEq, Eq)]
pub struct OrderPDF {
    pub file_name: String,
    pub file_content: String,
}

/// The model of an [`OrderPDF`].
pub struct OrderPDFView {
    pub file_name: Seq<char>,
    pub file_content: Seq<char>,
}

impl View for OrderPDF {
    type V = OrderPDFView;

    open spec fn view(&self) -> OrderPDFView {
        OrderPDFView { file_name: self.file_name@, file_content: self.file_content@ }
    }
}

impl OrderPDF {
    /// The document with a name and its bytes.
    pub fn from(file_name: &str, content: &[u8]) -> (r: OrderPDF)
        ensures
            r@ == (OrderPDFView { file_name: file_name@, file_content: base64_of(content@) }),
    {
        OrderPDF { file_name: String::from_str(file_name), file_content: encode(content) }
    }
}

/// One line of an order: what was done, how many of it, the price of one
/// in cents before tax, and the tax in hundredths.
#[derive(Debug, PartialEq, Eq)]
pub struct OrderLine {
    pub description: String,
    pub quantity: u32,
    pub unit_price_excl: Money,
    pub vat_percentage: u32,
}

/// The model of an [`OrderLine`].
pub struct OrderLineView {
    pub description: Seq<char>,
    pub quantity: u32,
    pub unit_price_excl: Money,
    pub vat_percentage: u32,
}

impl View for OrderLine {
    type V = OrderLineView;

    open spec fn view(&self) -> OrderLineView {
        OrderLineView {
            description: self.description@,
            quantity: self.quantity,
            unit_price_excl: self.unit_price_excl,
            vat_percentage: self.vat_percentage,
        }
    }
}

/// The line of an order that a line of an invoice gives: one piece at the
/// amount of the line, without tax.
pub open spec fn order_line_of(item: LineItemView) -> OrderLineView {
    OrderLineView {
        description: item.description,
        quantity: 1,
        unit_price_excl: item.amount,
        vat_percentage: 0,
    }
}

impl OrderLine {
    /// The line of an order that a line of an invoice gives.
    pub fn from(item: &LineItem) -> (r: OrderLine)
        ensures
            r@ == order_line_of(item@),
    {
        OrderLine {
            description: item.description.clone(),
            quantity: 1,
            unit_price_excl: item.amount,
            vat_percentage: 0,
        }
    }
}

/// The number of days after the date of an invoice at which it is due.
pub const DAYS_TO_PAY: i64 = 30;

/// An invoice as the accounts take it.
#[derive(Debug, PartialEq, Eq)]
pub struct Order {
    pub order_number: String,
    pub order_title: String,
    pub order_date: String,
    pub expiry_date: String,
    pub order_type: String,
    pub last_modified: String,
    pub created: String,
    pub order_direction: String,
    pub counter_party_id: Option<u32>,
    pub order_pdf: OrderPDF,
    pub order_lines: Vec<OrderLine>,
    pub ventilation_code: String,
    pub paid: bool,
    pub is_sent: bool,
    pub currency: String,
}

/// The model of an [`Order`].
pub struct OrderView {
    pub order_number: Seq<char>,
    pub order_title: Seq<char>,
    pub order_date: Seq<char>,
    pub expiry_date: Seq<char>,
    pub order_type: Seq<char>,
    pub last_modified: Seq<char>,
    pub created: Seq<char>,
    pub order_direction: Seq<char>,
    pub counter_party_id: Option<u32>,
    pub order_pdf: OrderPDFView,
    pub order_lines: Seq<OrderLineView>,
    pub ventilation_code: Seq<char>,
    pub paid: bool,
    pub is_sent: bool,
    pub currency: Seq<char>,
}

impl View for Order {
    type V = OrderView;

    open spec fn view(&self) -> OrderView {
        OrderView {
            order_number: self.order_number@,
            order_title: self.order_title@,
            order_date: self.order_date@,
            expiry_date: self.expiry_date@,
            order_type: self.order_type@,
            last_modified: self.last_modified@,
            created: self.created@,
            order_direction: self.order_direction@,
            counter_party_id: self.counter_party_id,
            order_pdf: self.order_pdf@,
            order_lines: self.order_lines@.map_values(|line: OrderLine| line@),
            ventilation_code: self.ventilation_code@,
            paid: self.paid,
            is_sent: self.is_sent,
            currency: self.currency@,
        }
    }
}

/// The order that an invoice gives, with its document attached: number and
/// title are the index of the invoice; it is dated, made and last changed
/// on the date of the invoice and due thirty days later; the other party is
/// the client, by its number in the accounts where it has one; it has a
/// line for each line of the invoice, in the same order. It is an invoice
/// that brings income in euros, entered under the code 55, sent and paid.
pub open spec fn order_of(invoice: InvoiceView, file_name: Seq<char>, content: Seq<u8>) -> OrderView {
    OrderView {
        order_number: invoice.index.text(),
        order_title: invoice.index.text(),
        order_date: invoice.metadata.date.text(),
        expiry_date: invoice.metadata.date.plus_days(DAYS_TO_PAY as int).text(),
        order_type: "Invoice"@,
        last_modified: invoice.metadata.date.text(),
        created: invoice.metadata.date.text(),
        order_direction: "Income"@,
        counter_party_id: invoice.metadata.client.partyid,
        order_pdf: OrderPDFView { file_name, file_content: base64_of(content) },
        order_lines: invoice.items.map_values(|item: LineItemView| order_line_of(item)),
        ventilation_code: "55"@,
        paid: true,
        is_sent: true,
        currency: "EUR"@,
    }
}

/// The day at which an invoice is due is one that a date can hold.
pub open spec fn can_expire(date: DateView) -> bool {
    date.plus_days(DAYS_TO_PAY as int).in_range()
}

/// The lines of an order that the lines of an invoice give.
pub fn order_lines(items: &Vec<LineItem>) -> (r: Vec<OrderLine>)
    ensures
        r@.map_values(|line: OrderLine| line@) == crate::invoice::items_view(items@).map_values(
            |item: LineItemView| order_line_of(item),
        ),
{
    let mut lines: Vec<OrderLine> = Vec::new();
    let mut i: usize = 0;
    while i < items.len()
        invariant
            i <= items.len(),
            lines.len() == i,
            forall|j: int| 0 <= j < i ==> (#[trigger] lines[j])@ == order_line_of(items[j]@),
        decreases items.len() - i,
    {
        lines.push(OrderLine::from(&items[i]));
        i = i + 1;
    }
    proof {
        assert(lines@.map_values(|line: OrderLine| line@) =~= crate::invoice::items_view(
            items@,
        ).map_values(|item: LineItemView| order_line_of(item)));
    }
    lines
}

impl Order {
    /// The order that an invoice gives, with the invoice's document
    /// attached: `file_name` is the name of the document and `content` are
    /// its bytes.
    pub fn from(invoice: &Invoice, file_name: &str, content: &[u8]) -> (r: Order)
        requires
            can_expire(invoice@.metadata.date),
        ensures
            r@ == order_of(invoice@, file_name@, content@),
    {
        let index = invoice.index.to_string();
        let date = invoice.metadata.date.to_string();
        Order {
            order_number: index.clone(),
            order_title: index,
            order_date: date.clone(),
            expiry_date: invoice.metadata.date.add_days(DAYS_TO_PAY).to_string(),
            last_modified: date.clone(),
            created: date,
            order_direction: String::from_str("Income"),
            order_type: String::from_str("Invoice"),
            counter_party_id: invoice.metadata.client.partyid,
            order_pdf: OrderPDF::from(file_name, content),
            order_lines: order_lines(&invoice.items),
            ventilation_code: String::from_str("55"),
            paid: true,
            is_sent: true,
            currency: String::from_str("EUR"),
        }
    }
}

} // verus!
