use invoices::error::{Error, ShapeFault};
use invoices::html::{read_shape, substitute_template, ItemRow, Template, TemplateShape};
use invoices::invoice::{
    Business, Client, Date, Invoice, InvoiceData, InvoiceIndex, LineItem, Money,
};

const TEMPLATE: &str = "<!DOCTYPE html><html><head><title>Invoice</title></head><body>\
<h1>Invoice <output data-field=\"invoice-index\"></output></h1>\
<p><output data-field=\"client-name\"></output></p>\
<table><tbody class=\"items\"></tbody></table>\
<p>Total: <output data-field=\"total\"></output></p>\
</body></html>";

fn sample(items: Vec<LineItem>) -> Invoice {
    Invoice {
        index: InvoiceIndex { year: 2024, index: 1 },
        metadata: InvoiceData {
            business: Business {
                name: String::from("Sole Trader"),
                street: String::from("1 Main Street"),
                city: String::from("Ghent"),
                country: String::from("Belgium"),
                vat: String::from("BE0123456789"),
                bank: String::from("Bank"),
                iban: String::from("BE00 0000 0000 0000"),
                bic: String::from("ABCDBEBB"),
            },
            client: Client {
                name: String::from("Acme"),
                street: String::from("2 Side Street"),
                city: String::from("Paris"),
                country: String::from("France"),
                vat: String::from("FR00000000000"),
                vatpolicy: String::from("Reverse charge"),
                partyid: Some(7),
            },
            date: Date::new(2024, 3, 15).unwrap(),
        },
        items,
    }
}

fn line(description: &str, amount: i32) -> LineItem {
    LineItem {
        description: description.to_string(),
        amount: Money(amount),
        attachment: None,
    }
}

fn shape(fields: &[Option<&str>], containers: usize) -> TemplateShape {
    TemplateShape {
        fields: fields
            .iter()
            .map(|field| field.map(|name| name.to_string()))
            .collect(),
        containers,
    }
}

#[test]
fn every_field_of_an_invoice() {
    let invoice = sample(vec![line("Consulting", 12345), line("Travel", -345)]);
    let expected = [
        ("total", "\u{20ac}120.00"),
        ("invoice-date", "2024-03-15"),
        ("invoice-index", "2024-01"),
        ("client-name", "Acme"),
        ("client-street", "2 Side Street"),
        ("client-city", "Paris"),
        ("client-country", "France"),
        ("client-vat", "FR00000000000"),
        ("client-vat-policy", "Reverse charge"),
        ("business-name", "Sole Trader"),
        ("business-street", "1 Main Street"),
        ("business-city", "Ghent"),
        ("business-country", "Belgium"),
        ("business-vat", "BE0123456789"),
        ("business-bank", "Bank"),
        ("business-iban", "BE00 0000 0000 0000"),
        ("business-bic", "ABCDBEBB"),
    ];
    for (name, text) in expected {
        assert_eq!(invoice.field(name), Some(text.to_string()));
    }
}

#[test]
fn no_field_of_another_name() {
    let invoice = sample(vec![]);
    for name in ["", "Total", "total ", "client", "client-partyid", "business-fax"] {
        assert_eq!(invoice.field(name), None);
    }
}

#[test]
fn total_beyond_the_range_of_money_is_written_in_full() {
    let invoice = sample(vec![line("a", i32::MAX), line("b", i32::MAX)]);
    assert_eq!(
        invoice.field("total"),
        Some("\u{20ac}42949672.94".to_string())
    );
}

#[test]
fn texts_and_rows_for_a_shape() {
    let invoice = sample(vec![line("Consulting", 12345), line("Refund", -5)]);
    let written = invoice
        .substitution(&shape(
            &[Some("client-name"), Some("total"), Some("client-name")],
            1,
        ))
        .unwrap();
    assert_eq!(
        written.outputs,
        vec!["Acme", "\u{20ac}123.40", "Acme"]
    );
    assert_eq!(
        written.rows,
        vec![
            ItemRow {
                description: "Consulting".to_string(),
                amount: "\u{20ac}123.45".to_string(),
            },
            ItemRow {
                description: "Refund".to_string(),
                amount: "\u{2212}\u{20ac}0.05".to_string(),
            },
        ]
    );
}

#[test]
fn rows_keep_the_order_of_the_lines() {
    let names = ["c", "a", "d", "b", "a"];
    let invoice = sample(names.iter().map(|name| line(name, 1)).collect());
    let written = invoice.substitution(&shape(&[], 1)).unwrap();
    let rows: Vec<&str> = written
        .rows
        .iter()
        .map(|row| row.description.as_str())
        .collect();
    assert_eq!(rows, names);
}

#[test]
fn shape_without_places_and_lines() {
    let written = sample(vec![]).substitution(&shape(&[], 1)).unwrap();
    assert!(written.outputs.is_empty());
    assert!(written.rows.is_empty());
}

#[test]
fn no_items_container() {
    assert_eq!(
        sample(vec![]).substitution(&shape(&[Some("total")], 0)).err(),
        Some(Error::TemplateShapeError(ShapeFault::NoItems))
    );
}

#[test]
fn two_items_containers() {
    assert_eq!(
        sample(vec![]).substitution(&shape(&[Some("total")], 2)).err(),
        Some(Error::TemplateShapeError(ShapeFault::SeveralItems))
    );
    assert_eq!(
        sample(vec![]).substitution(&shape(&[], usize::MAX)).err(),
        Some(Error::TemplateShapeError(ShapeFault::SeveralItems))
    );
}

#[test]
fn place_that_asks_for_an_unknown_field() {
    assert_eq!(
        sample(vec![])
            .substitution(&shape(&[Some("total"), Some("colour")], 1))
            .err(),
        Some(Error::TemplateShapeError(ShapeFault::UnknownField))
    );
}

#[test]
fn place_that_names_no_field() {
    assert_eq!(
        sample(vec![]).substitution(&shape(&[None], 1)).err(),
        Some(Error::TemplateShapeError(ShapeFault::UnknownField))
    );
}

#[test]
fn unknown_field_comes_before_the_containers() {
    assert_eq!(
        sample(vec![]).substitution(&shape(&[Some("colour")], 0)).err(),
        Some(Error::TemplateShapeError(ShapeFault::UnknownField))
    );
    assert_eq!(
        sample(vec![]).substitution(&shape(&[Some("colour")], 2)).err(),
        Some(Error::TemplateShapeError(ShapeFault::UnknownField))
    );
}

#[test]
fn shape_of_a_template() {
    let found = read_shape(TEMPLATE.as_bytes()).unwrap();
    assert_eq!(
        found.fields,
        vec![
            Some("invoice-index".to_string()),
            Some("client-name".to_string()),
            Some("total".to_string()),
        ]
    );
    assert_eq!(found.containers, 1);
}

#[test]
fn shape_of_a_template_without_anything() {
    let found = read_shape(b"<p>Nothing</p>").unwrap();
    assert!(found.fields.is_empty());
    assert_eq!(found.containers, 0);
}

#[test]
fn shape_with_a_place_without_a_field() {
    let found = read_shape(b"<output></output><output data-field=\"\"></output>").unwrap();
    assert_eq!(found.fields, vec![None, Some(String::new())]);
}

#[test]
fn shape_counts_every_element_of_the_class() {
    let found =
        read_shape(b"<ul class=\"items\"></ul><div class=\"wide items\"></div><p class=\"item\"></p>")
            .unwrap();
    assert_eq!(found.containers, 2);
}

#[test]
fn invoice_written_into_a_template() {
    let invoice = sample(vec![line("Consulting", 12345), line("Travel", 655)]);
    let document = invoice.generate_invoice(TEMPLATE.as_bytes()).unwrap();
    assert_eq!(
        document.to_string(),
        "<!DOCTYPE html><html><head><title>Invoice</title></head><body>\
<h1>Invoice <output data-field=\"invoice-index\">2024-01</output></h1>\
<p><output data-field=\"client-name\">Acme</output></p>\
<table><tbody class=\"items\">\
<tr><td>Consulting</td><td class=\"num\">\u{20ac}123.45</td></tr>\
<tr><td>Travel</td><td class=\"num\">\u{20ac}6.55</td></tr>\
</tbody></table>\
<p>Total: <output data-field=\"total\">\u{20ac}130.00</output></p>\
</body></html>"
    );
}

#[test]
fn texts_are_written_as_text() {
    let invoice = sample(vec![line("R&D <b>bold</b>", 100)]);
    let document = invoice
        .generate_invoice(b"<table class=\"items\"></table>")
        .unwrap();
    let cell = document.select_first("td").unwrap();
    assert_eq!(cell.text_contents(), "R&D <b>bold</b>");
    assert!(document.select_first("b").is_err());
}

#[test]
fn text_comes_after_what_a_place_holds() {
    let invoice = sample(vec![]);
    let document = substitute_template(
        b"<output data-field=\"client-city\">City: </output><ul class=\"items\"></ul>",
        &invoice,
    )
    .unwrap();
    let place = document.select_first("output").unwrap();
    assert_eq!(place.text_contents(), "City: Paris");
}

#[test]
fn template_without_items_container() {
    let invoice = sample(vec![line("Consulting", 12345)]);
    assert_eq!(
        invoice
            .generate_invoice(b"<p><output data-field=\"total\"></output></p>")
            .err(),
        Some(Error::TemplateShapeError(ShapeFault::NoItems))
    );
}

#[test]
fn template_with_two_items_containers() {
    let invoice = sample(vec![line("Consulting", 12345)]);
    assert_eq!(
        invoice
            .generate_invoice(b"<ul class=\"items\"></ul><ol class=\"items\"></ol>")
            .err(),
        Some(Error::TemplateShapeError(ShapeFault::SeveralItems))
    );
}

#[test]
fn template_with_an_unknown_field() {
    let invoice = sample(vec![]);
    assert_eq!(
        invoice
            .generate_invoice(b"<output data-field=\"colour\"></output><ul class=\"items\"></ul>")
            .err(),
        Some(Error::TemplateShapeError(ShapeFault::UnknownField))
    );
    assert_eq!(
        invoice
            .generate_invoice(b"<output></output><ul class=\"items\"></ul>")
            .err(),
        Some(Error::TemplateShapeError(ShapeFault::UnknownField))
    );
}

#[test]
fn shape_errors_in_words() {
    assert_eq!(
        Error::TemplateShapeError(ShapeFault::NoItems).description(),
        "missing .items element"
    );
    assert_eq!(
        Error::TemplateShapeError(ShapeFault::SeveralItems).description(),
        "more than one .items element"
    );
    assert_eq!(
        Error::TemplateShapeError(ShapeFault::UnknownField).description(),
        "output element with unknown data-field attribute"
    );
}

#[test]
fn rows_come_after_what_the_container_holds() {
    let invoice = sample(vec![line("A<b>", -5), line("Second", 100), line("A<b>", -5)]);
    let document = invoice
        .generate_invoice(
            b"<table><tbody class=\"items\"><tr><th>What</th><th>Price</th></tr></tbody></table>",
        )
        .unwrap();
    let container = document.select_first(".items").unwrap();
    let children: Vec<kuchiki::NodeRef> = container.as_node().children().collect();
    assert_eq!(children.len(), 4);
    assert_eq!(children[0].text_contents(), "WhatPrice");
    let texts = ["A<b>", "Second", "A<b>"];
    let amounts = ["\u{2212}\u{20ac}0.05", "\u{20ac}1.00", "\u{2212}\u{20ac}0.05"];
    for t in 0..3 {
        let row = &children[t + 1];
        assert_eq!(&*row.as_element().unwrap().name.local, "tr");
        assert!(row.as_element().unwrap().attributes.borrow().map.is_empty());
        let cells: Vec<kuchiki::NodeRef> = row.children().collect();
        assert_eq!(cells.len(), 2);
        for cell in &cells {
            assert_eq!(&*cell.as_element().unwrap().name.local, "td");
            assert_eq!(cell.children().count(), 1);
            assert!(cell.first_child().unwrap().as_text().is_some());
        }
        assert_eq!(cells[0].as_element().unwrap().attributes.borrow().get("class"), None);
        assert_eq!(
            cells[1].as_element().unwrap().attributes.borrow().get("class"),
            Some("num")
        );
        assert_eq!(cells[0].text_contents(), texts[t]);
        assert_eq!(cells[1].text_contents(), amounts[t]);
    }
}

#[test]
fn one_field_fills_every_place_that_asks_for_it() {
    let invoice = sample(vec![]);
    let document = invoice
        .generate_invoice(
            b"<output data-field=\"client-vat\"><i>VAT</i></output>\
<output data-field=\"client-vat\"></output><ul class=\"items\"></ul>",
        )
        .unwrap();
    let places: Vec<_> = document.select("output").unwrap().collect();
    assert_eq!(places.len(), 2);
    for place in &places {
        let last = place.as_node().last_child().unwrap();
        assert_eq!(&*last.as_text().unwrap().borrow(), "FR00000000000");
    }
    assert_eq!(places[0].as_node().children().count(), 2);
    assert_eq!(places[1].as_node().children().count(), 1);
}

#[test]
fn nothing_is_written_below_other_nodes() {
    let invoice = sample(vec![line("Consulting", 1)]);
    let document = invoice
        .generate_invoice(b"<p id=\"a\">Before</p><ul class=\"items\"></ul><p>After</p>")
        .unwrap();
    let paragraphs: Vec<_> = document.select("p").unwrap().collect();
    assert_eq!(paragraphs[0].text_contents(), "Before");
    assert_eq!(paragraphs[1].text_contents(), "After");
    assert_eq!(document.select("tr").unwrap().count(), 1);
}

fn row(description: &str, amount: &str) -> ItemRow {
    ItemRow {
        description: description.to_string(),
        amount: amount.to_string(),
    }
}

#[test]
fn rows_into_the_one_container() {
    let mut template = Template::open(b"<ul class=\"items\"><li>Old</li></ul>").unwrap();
    assert_eq!(template.shape().containers, 1);
    assert_eq!(
        template.insert_items(&vec![row("b", "2"), row("a", "1"), row("b", "2")]),
        Ok(())
    );
    let document = template.into_document();
    let container = document.select_first(".items").unwrap();
    let children: Vec<String> = container
        .as_node()
        .children()
        .map(|child| child.text_contents())
        .collect();
    assert_eq!(children, vec!["Old", "b2", "a1", "b2"]);
}

#[test]
fn no_rows_into_the_one_container() {
    let mut template = Template::open(b"<ul class=\"items\"><li>Old</li></ul>").unwrap();
    assert_eq!(template.insert_items(&vec![]), Ok(()));
    let document = template.into_document();
    assert_eq!(document.select_first(".items").unwrap().as_node().children().count(), 1);
}

#[test]
fn rows_without_a_container() {
    let mut template = Template::open(b"<p>Nothing</p>").unwrap();
    assert_eq!(
        template.insert_items(&vec![row("a", "1")]),
        Err(Error::TemplateShapeError(ShapeFault::NoItems))
    );
    assert_eq!(
        template.insert_items(&vec![]),
        Err(Error::TemplateShapeError(ShapeFault::NoItems))
    );
    assert_eq!(template.into_document().select("tr").unwrap().count(), 0);
}

#[test]
fn rows_with_several_containers() {
    let text = b"<div class=\"items\"><div class=\"items\"></div></div>";
    let mut template = Template::open(text).unwrap();
    assert_eq!(template.shape().containers, 2);
    assert_eq!(
        template.insert_items(&vec![row("a", "1")]),
        Err(Error::TemplateShapeError(ShapeFault::SeveralItems))
    );
    assert_eq!(
        template.insert_items(&vec![]),
        Err(Error::TemplateShapeError(ShapeFault::SeveralItems))
    );
    assert_eq!(template.into_document().select("tr").unwrap().count(), 0);
}

#[test]
fn texts_into_the_places() {
    let text = b"<output data-field=\"a\">A: </output><p><output></output></p>";
    let mut template = Template::open(text).unwrap();
    assert_eq!(
        template.shape().fields,
        vec![Some("a".to_string()), None]
    );
    template.insert_output(&vec!["<1&".to_string(), "two".to_string()]);
    let document = template.into_document();
    let places: Vec<String> = document
        .select("output")
        .unwrap()
        .map(|place| place.text_contents())
        .collect();
    assert_eq!(places, vec!["A: <1&", "two"]);
    assert_eq!(document.select("output").unwrap().count(), 2);
}
