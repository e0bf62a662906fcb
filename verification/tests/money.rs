use invoices::invoice::{
    Business, Client, Date, Invoice, InvoiceData, InvoiceIndex, LineItem, Money,
};

fn invoice_with(amounts: &[i32]) -> Invoice {
    Invoice {
        index: InvoiceIndex { year: 2024, index: 1 },
        metadata: InvoiceData {
            business: Business {
                name: String::from("Sole Trader"),
                street: String::from("1 Main Street"),
                city: String::from("Ghent"),
                country: String::from("Belgium"),
                vat: String::from("BE0123456789"),
                bank: String::from("Bank"),
                iban: String::from("BE00 0000 0000 0000"),
                bic: String::from("ABCDBEBB"),
            },
            client: Client {
                name: String::from("Acme"),
                street: String::from("2 Side Street"),
                city: String::from("Paris"),
                country: String::from("France"),
                vat: String::from("FR00000000000"),
                vatpolicy: String::from("Reverse charge"),
                partyid: Some(7),
            },
            date: Date::new(2024, 3, 15).unwrap(),
        },
        items: amounts
            .iter()
            .map(|amount| LineItem {
                description: String::from("Work"),
                amount: Money(*amount),
                attachment: None,
            })
            .collect(),
    }
}

#[test]
fn negative_money_has_the_minus_sign() {
    let text = Money(-5).to_string();
    assert_eq!(text, "\u{2212}\u{20ac}0.05");
    assert!(!text.contains('-'));
}

#[test]
fn zero_money_has_no_sign() {
    assert_eq!(Money(0).to_string(), "\u{20ac}0.00");
}

#[test]
fn money_is_euros_point_cents() {
    assert_eq!(Money(12345).to_string(), "\u{20ac}123.45");
    assert_eq!(Money(5).to_string(), "\u{20ac}0.05");
    assert_eq!(Money(50).to_string(), "\u{20ac}0.50");
    assert_eq!(Money(100).to_string(), "\u{20ac}1.00");
    assert_eq!(Money(-12345).to_string(), "\u{2212}\u{20ac}123.45");
    assert_eq!(Money(-100).to_string(), "\u{2212}\u{20ac}1.00");
}

#[test]
fn money_at_the_ends_of_its_range() {
    assert_eq!(Money(i32::MAX).to_string(), "\u{20ac}21474836.47");
    assert_eq!(Money(i32::MIN).to_string(), "\u{2212}\u{20ac}21474836.48");
}

#[test]
fn cents_of_a_sum_carry_into_the_euros() {
    let sum = Money::sum(&[Money(150), Money(275)]);
    assert_eq!(sum, Money(425));
    assert_eq!(sum.to_string(), "\u{20ac}4.25");
    let carried = Money::sum(&[Money(199), Money(1)]);
    assert_eq!(carried.to_string(), "\u{20ac}2.00");
}

#[test]
fn sum_below_zero_has_the_minus_sign() {
    let sum = Money::sum(&[Money(100), Money(-250)]);
    assert_eq!(sum, Money(-150));
    assert_eq!(sum.to_string(), "\u{2212}\u{20ac}1.50");
    let zero = Money::sum(&[Money(100), Money(-100)]);
    assert_eq!(zero.to_string(), "\u{20ac}0.00");
}

#[test]
fn sum_of_nothing_is_nothing() {
    assert_eq!(Money::sum(&[]), Money(0));
}

#[test]
fn wide_amounts_are_written_in_full() {
    assert_eq!(
        invoices::invoice::cents_text(1_000_000_000_000),
        "\u{20ac}10000000000.00"
    );
    assert_eq!(
        invoices::invoice::cents_text(-1_000_000_000_001),
        "\u{2212}\u{20ac}10000000000.01"
    );
}

#[test]
fn total_is_the_sum_of_the_lines() {
    let invoice = invoice_with(&[12345, 55, -400]);
    assert_eq!(invoice.total(), Money(12000));
    assert_eq!(invoice.total_cents(), 12000);
}

#[test]
fn total_does_not_depend_on_the_order_of_the_lines() {
    assert_eq!(
        invoice_with(&[1, 20, 300]).total(),
        invoice_with(&[300, 1, 20]).total()
    );
}

#[test]
fn total_of_no_lines_is_zero() {
    assert_eq!(invoice_with(&[]).total(), Money(0));
}

#[test]
fn total_in_cents_may_exceed_money() {
    let invoice = invoice_with(&[i32::MAX, i32::MAX]);
    assert_eq!(invoice.total_cents(), 2 * (i32::MAX as i128));
}

#[test]
fn index_is_year_and_number() {
    let index = InvoiceIndex { year: 2024, index: 1 };
    assert_eq!(index.to_string(), "2024-01");
    assert_eq!(index.filename(), "2024/01.html");
}

#[test]
fn index_is_padded_with_zeros() {
    let index = InvoiceIndex { year: 7, index: 0 };
    assert_eq!(index.to_string(), "0007-00");
    assert_eq!(index.filename(), "0007/00.html");
}

#[test]
fn index_wider_than_its_padding_is_written_in_full() {
    let index = InvoiceIndex { year: 65535, index: 255 };
    assert_eq!(index.to_string(), "65535-255");
    assert_eq!(index.filename(), "65535/255.html");
}
