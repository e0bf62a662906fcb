//! The invoice and its parts.

pub use crate::date::Date;
use crate::date::DateView;
use crate::text::{decimal, push_decimal, push_zero_padded, zero_padded};
use vstd::prelude::*;

verus! {

/// The sign that stands in front of a negative amount.
pub open spec fn minus_sign() -> char {
    '\u{2212}'
}

/// The sign of the currency.
pub open spec fn euro_sign() -> char {
    '\u{20ac}'
}

/// The size of an amount, whatever its sign.
pub open spec fn magnitude(cents: int) -> nat {
    if cents < 0 {
        (-cents) as nat
    } else {
        cents as nat
    }
}

/// An amount of cents as text: the minus sign where it is negative, the
/// euro sign, the whole euros, a point, and the cents in two digits.
pub open spec fn money_text(cents: int) -> Seq<char> {
    let sign = if cents < 0 {
        seq![minus_sign()]
    } else {
        Seq::<char>::empty()
    };
    sign + seq![euro_sign()] + decimal(magnitude(cents) / 100) + seq!['.'] + zero_padded(
        magnitude(cents) % 100,
        2,
    )
}

/// Writes an amount of cents as text.
pub fn cents_text(cents: i128) -> (r: String)
    requires
        cents > i128::MIN,
    ensures
        r@ == money_text(cents as int),
{
    let mut out = String::new();
    proof {
        reveal_strlit("\u{2212}");
        reveal_strlit("\u{20ac}");
        reveal_strlit(".");
    }
    let size: u128 = if cents < 0 {
        out.append("\u{2212}");
        (-cents) as u128
    } else {
        cents as u128
    };
    out.append("\u{20ac}");
    push_decimal(&mut out, size / 100);
    out.append(".");
    push_zero_padded(&mut out, size % 100, 2);
    proof {
        assert(out@ =~= money_text(cents as int));
    }
    out
}

/// An amount of money in cents.
#[derive(Clone, Copy, Debug, PartialEq, Eq)]
pub struct Money(pub i32);

/// The sum of some amounts, in cents.
pub open spec fn sum_of(amounts: Seq<Money>) -> int
    decreases amounts.len(),
{
    if amounts.len() == 0 {
        0
    } else {
        sum_of(amounts.drop_last()) + amounts.last().0
    }
}

/// An amount of cents is one that [`Money`] can hold.
pub open spec fn fits_money(cents: int) -> bool {
    i32::MIN <= cents <= i32::MAX
}

impl Money {
    /// The amount as text, such as `€123.45`.
    pub fn to_string(&self) -> (r: String)
        ensures
            r@ == money_text(self.0 as int),
    {
        cents_text(self.0 as i128)
    }

    /// The sum of some amounts.
    pub fn sum(amounts: &[Money]) -> (r: Money)
        requires
            fits_money(sum_of(amounts@)),
        ensures
            r.0 == sum_of(amounts@),
    {
        let mut total: i128 = 0;
        let mut i: usize = 0;
        while i < amounts.len()
            invariant
                i <= amounts.len(),
                total == sum_of(amounts@.take(i as int)),
                -i * 0x8000_0000 <= total <= i * 0x8000_0000,
            decreases amounts.len() - i,
        {
            proof {
                assert(amounts@.take(i + 1).drop_last() =~= amounts@.take(i as int));
            }
            total = total + amounts[i].0 as i128;
            i = i + 1;
        }
        proof {
            assert(amounts@.take(i as int) =~= amounts@);
        }
        Money(total as i32)
    }
}

/// The sum of two amounts as text: the minus sign stands in front if and
/// only if the sum is negative. Where the sum is not negative, the cents
/// written are the sum modulo 100 and the euros the sum divided by 100, so
/// that for two amounts that are not negative the cents of both carry into
/// the euros.
pub proof fn lemma_sum_text(a: Money, b: Money)
    ensures
        sum_of(seq![a, b]) == a.0 + b.0,
        money_text(a.0 + b.0)[0] == minus_sign() <==> a.0 + b.0 < 0,
        a.0 + b.0 >= 0 ==> money_text(a.0 + b.0) == seq![euro_sign()] + decimal(
            ((a.0 + b.0) / 100) as nat,
        ) + seq!['.'] + zero_padded(((a.0 + b.0) % 100) as nat, 2),
        a.0 + b.0 < 0 ==> money_text(a.0 + b.0) == seq![minus_sign()] + money_text(
            -(a.0 + b.0),
        ),
        a.0 >= 0 && b.0 >= 0 ==> (a.0 + b.0) / 100 == a.0 / 100 + b.0 / 100 + (a.0 % 100 + b.0
            % 100) / 100,
        a.0 >= 0 && b.0 >= 0 ==> (a.0 + b.0) % 100 == (a.0 % 100 + b.0 % 100) % 100,
{
    let pair = seq![a, b];
    assert(pair.drop_last() =~= seq![a]);
    assert(pair.drop_last().drop_last() =~= Seq::<Money>::empty());
    assert(sum_of(pair.drop_last().drop_last()) == 0);
    assert(sum_of(pair.drop_last()) == a.0);
    let total = a.0 + b.0;
    if total < 0 {
        assert(money_text(total) =~= seq![minus_sign()] + money_text(-total));
    } else {
        assert(money_text(total) =~= seq![euro_sign()] + decimal((total / 100) as nat) + seq!['.']
            + zero_padded((total % 100) as nat, 2));
    }
}

/// Which invoice: the year and the invoice's number within it.
#[derive(Clone, Copy, Debug, PartialEq, Eq)]
pub struct InvoiceIndex {
    pub year: u16,
    pub index: u8,
}

impl InvoiceIndex {
    /// The index as text: the year in four digits, `-`, the number in two.
    pub open spec fn text(self) -> Seq<char> {
        zero_padded(self.year as nat, 4) + seq!['-'] + zero_padded(self.index as nat, 2)
    }

    /// The place of the invoice's document below the base directory.
    pub open spec fn path_text(self) -> Seq<char> {
        zero_padded(self.year as nat, 4) + seq!['/'] + zero_padded(self.index as nat, 2)
            + ".html"@
    }

    /// The place of the invoice's document below the base directory, such
    /// as `2024/01.html`.
    pub fn filename(&self) -> (r: String)
        ensures
            r@ == self.path_text(),
    {
        let mut out = String::new();
        proof {
            reveal_strlit("/");
        }
        push_zero_padded(&mut out, self.year as u128, 4);
        out.append("/");
        push_zero_padded(&mut out, self.index as u128, 2);
        out.append(".html");
        proof {
            assert(out@ =~= self.path_text());
        }
        out
    }

    /// The index as text, such as `2024-01`.
    pub fn to_string(&self) -> (r: String)
        ensures
            r@ == self.text(),
    {
        let mut out = String::new();
        proof {
            reveal_strlit("-");
        }
        push_zero_padded(&mut out, self.year as u128, 4);
        out.append("-");
        push_zero_padded(&mut out, self.index as u128, 2);
        proof {
            assert(out@ =~= self.text());
        }
        out
    }
}

/// The business that writes the invoice.
#[derive(Debug, PartialEq, Eq)]
pub struct Business {
    pub name: String,
    pub street: String,
    pub city: String,
    pub country: String,
    pub vat: String,
    pub bank: String,
    pub iban: String,
    pub bic: String,
}

/// The model of a [`Business`].
pub struct BusinessView {
    pub name: Seq<char>,
    pub street: Seq<char>,
    pub city: Seq<char>,
    pub country: Seq<char>,
    pub vat: Seq<char>,
    pub bank: Seq<char>,
    pub iban: Seq<char>,
    pub bic: Seq<char>,
}

impl View for Business {
    type V = BusinessView;

    open spec fn view(&self) -> BusinessView {
        BusinessView {
            name: self.name@,
            street: self.street@,
            city: self.city@,
            country: self.country@,
            vat: self.vat@,
            bank: self.bank@,
            iban: self.iban@,
            bic: self.bic@,
        }
    }
}

impl Clone for Business {
    fn clone(&self) -> (r: Self)
        ensures
            r@ == self@,
    {
        Business {
            name: self.name.clone(),
            street: self.street.clone(),
            city: self.city.clone(),
            country: self.country.clone(),
            vat: self.vat.clone(),
            bank: self.bank.clone(),
            iban: self.iban.clone(),
            bic: self.bic.clone(),
        }
    }
}

/// The client that the invoice is for.
#[derive(Debug, PartialEq, Eq)]
pub struct Client {
    pub name: String,
    pub street: String,
    pub city: String,
    pub country: String,
    pub vat: String,
    pub vatpolicy: String,
    /// The client's number in the accounts, where the table of clients
    /// gives one.
    pub partyid: Option<u32>,
}

/// The model of a [`Client`].
pub struct ClientView {
    pub name: Seq<char>,
    pub street: Seq<char>,
    pub city: Seq<char>,
    pub country: Seq<char>,
    pub vat: Seq<char>,
    pub vatpolicy: Seq<char>,
    pub partyid: Option<u32>,
}

impl View for Client {
    type V = ClientView;

    open spec fn view(&self) -> ClientView {
        ClientView {
            name: self.name@,
            street: self.street@,
            city: self.city@,
            country: self.country@,
            vat: self.vat@,
            vatpolicy: self.vatpolicy@,
            partyid: self.partyid,
        }
    }
}

impl Clone for Client {
    fn clone(&self) -> (r: Self)
        ensures
            r@ == self@,
    {
        Client {
            name: self.name.clone(),
            street: self.street.clone(),
            city: self.city.clone(),
            country: self.country.clone(),
            vat: self.vat.clone(),
            vatpolicy: self.vatpolicy.clone(),
            partyid: self.partyid,
        }
    }
}

/// One line of an invoice.
#[derive(Debug, PartialEq, Eq)]
pub struct LineItem {
    pub description: String,
    pub amount: Money,
    pub attachment: Option<String>,
}

/// The model of a [`LineItem`].
pub struct LineItemView {
    pub description: Seq<char>,
    pub amount: Money,
    pub attachment: Option<Seq<char>>,
}

impl View for LineItem {
    type V = LineItemView;

    open spec fn view(&self) -> LineItemView {
        LineItemView {
            description: self.description@,
            amount: self.amount,
            attachment: match self.attachment {
                Some(name) => Some(name@),
                None => None,
            },
        }
    }
}

impl Clone for LineItem {
    fn clone(&self) -> (r: Self)
        ensures
            r@ == self@,
    {
        LineItem {
            description: self.description.clone(),
            amount: self.amount,
            attachment: match &self.attachment {
                Some(name) => Some(name.clone()),
                None => None,
            },
        }
    }
}

/// The models of some line items, in their order.
pub open spec fn items_view(items: Seq<LineItem>) -> Seq<LineItemView> {
    items.map_values(|item: LineItem| item@)
}

/// The amounts of some line items, in their order.
pub open spec fn amounts_of(items: Seq<LineItemView>) -> Seq<Money> {
    items.map_values(|item: LineItemView| item.amount)
}

/// Copies a list of line items.
pub fn clone_items(items: &Vec<LineItem>) -> (r: Vec<LineItem>)
    ensures
        items_view(r@) == items_view(items@),
{
    let mut out: Vec<LineItem> = Vec::new();
    let mut i: usize = 0;
    while i < items.len()
        invariant
            i <= items.len(),
            out.len() == i,
            forall|j: int| 0 <= j < i ==> (#[trigger] out[j])@ == items[j]@,
        decreases items.len() - i,
    {
        out.push(items[i].clone());
        i = i + 1;
    }
    proof {
        assert(items_view(out@) =~= items_view(items@));
    }
    out
}

/// Who writes the invoice, to whom, and when.
#[derive(Debug, PartialEq, Eq)]
pub struct InvoiceData {
    pub business: Business,
    pub client: Client,
    pub date: Date,
}

/// The model of an [`InvoiceData`].
pub struct InvoiceDataView {
    pub business: BusinessView,
    pub client: ClientView,
    pub date: DateView,
}

impl View for InvoiceData {
    type V = InvoiceDataView;

    open spec fn view(&self) -> InvoiceDataView {
        InvoiceDataView { business: self.business@, client: self.client@, date: self.date@ }
    }
}

impl Clone for InvoiceData {
    fn clone(&self) -> (r: Self)
        ensures
            r@ == self@,
    {
        InvoiceData {
            business: self.business.clone(),
            client: self.client.clone(),
            date: self.date,
        }
    }
}

/// An invoice: which one it is, who writes it to whom and when, and its
/// lines in their order.
#[derive(Debug, PartialEq, Eq)]
pub struct Invoice {
    pub index: InvoiceIndex,
    pub metadata: InvoiceData,
    pub items: Vec<LineItem>,
}

/// The model of an [`Invoice`].
pub struct InvoiceView {
    pub index: InvoiceIndex,
    pub metadata: InvoiceDataView,
    pub items: Seq<LineItemView>,
}

impl InvoiceView {
    /// The sum of the amounts of all lines, in cents.
    pub open spec fn total(self) -> int {
        sum_of(amounts_of(self.items))
    }
}

impl View for Invoice {
    type V = InvoiceView;

    open spec fn view(&self) -> InvoiceView {
        InvoiceView {
            index: self.index,
            metadata: self.metadata@,
            items: items_view(self.items@),
        }
    }
}

impl Invoice {
    /// The sum of the amounts of all lines in cents, however large.
    pub fn total_cents(&self) -> (r: i128)
        ensures
            r == self@.total(),
            -self.items.len() * 0x8000_0000 <= r <= self.items.len() * 0x8000_0000,
    {
        let mut total: i128 = 0;
        let mut i: usize = 0;
        let ghost amounts = amounts_of(self@.items);
        while i < self.items.len()
            invariant
                i <= self.items.len(),
                amounts == amounts_of(self@.items),
                amounts.len() == self.items.len(),
                total == sum_of(amounts.take(i as int)),
                -i * 0x8000_0000 <= total <= i * 0x8000_0000,
            decreases self.items.len() - i,
        {
            proof {
                assert(amounts.take(i + 1).drop_last() =~= amounts.take(i as int));
                assert(amounts[i as int] == self.items[i as int].amount);
            }
            total = total + self.items[i].amount.0 as i128;
            i = i + 1;
        }
        proof {
            assert(amounts.take(i as int) =~= amounts);
        }
        total
    }

    /// The sum of the amounts of all lines.
    pub fn total(&self) -> (r: Money)
        requires
            fits_money(self@.total()),
        ensures
            r.0 == self@.total(),
    {
        Money(self.total_cents() as i32)
    }
}

} // verus!
