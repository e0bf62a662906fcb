use invoices::csv::{assemble, Businesses, Clients, InvoiceRecord, Invoices};
use invoices::error::{Error, Table};
use invoices::invoice::{Date, InvoiceIndex, LineItem, Money};
use invoices::read_invoice;

const CLIENTS: &str = "\
id,name,street,city,country,vat,vatpolicy
C1,Acme,2 Side Street,Paris,France,FR00000000000,Reverse charge
C2,\"Smith, Jones & Co\",\"3 \"\"High\"\" Street\",London,United Kingdom,GB000000000,Outside of scope
";

const BUSINESSES: &str = "\
id,name,street,city,country,vat,bank,iban,bic
B1,Sole Trader,1 Main Street,Ghent,Belgium,BE0123456789,Bank,BE00 0000 0000 0000,ABCDBEBB
";

const DATA: &str = "\
index,amount,services,attachment
1,12345,Consulting,
";

const INVOICES: &str = "\
index,business,client,year,month,day
1,B1,C1,2024,3,15
";

fn line(description: &str, amount: i32, attachment: Option<&str>) -> LineItem {
    LineItem {
        description: description.to_string(),
        amount: Money(amount),
        attachment: attachment.map(|name| name.to_string()),
    }
}

fn records(rows: &[&[&str]]) -> Vec<Vec<String>> {
    rows.iter()
        .map(|row| row.iter().map(|field| field.to_string()).collect())
        .collect()
}

#[test]
fn clients_by_key() {
    let clients = Clients::from_reader(CLIENTS.as_bytes()).unwrap();
    let acme = clients.get("C1").unwrap();
    assert_eq!(acme.name, "Acme");
    assert_eq!(acme.street, "2 Side Street");
    assert_eq!(acme.city, "Paris");
    assert_eq!(acme.country, "France");
    assert_eq!(acme.vat, "FR00000000000");
    assert_eq!(acme.vatpolicy, "Reverse charge");
    assert_eq!(acme.partyid, None);
}

#[test]
fn fields_in_quotes_are_read_whole() {
    let clients = Clients::from_reader(CLIENTS.as_bytes()).unwrap();
    let smith = clients.get("C2").unwrap();
    assert_eq!(smith.name, "Smith, Jones & Co");
    assert_eq!(smith.street, "3 \"High\" Street");
}

#[test]
fn client_that_is_not_there() {
    let clients = Clients::from_reader(CLIENTS.as_bytes()).unwrap();
    assert!(clients.get("C3").is_none());
    assert!(clients.get("").is_none());
    assert!(clients.get("id").is_none());
}

#[test]
fn clients_with_their_number_in_the_accounts() {
    let text = "\
id,name,street,city,country,vat,vatpolicy,partyid
C1,Acme,2 Side Street,Paris,France,FR00000000000,Reverse charge,4711
C2,Bolt,3 High Street,London,United Kingdom,GB000000000,Outside of scope,
";
    let clients = Clients::from_reader(text.as_bytes()).unwrap();
    assert_eq!(clients.get("C1").unwrap().partyid, Some(4711));
    assert_eq!(clients.get("C2").unwrap().partyid, None);
}

#[test]
fn client_number_that_is_none() {
    for number in ["x", "-1", "4294967296", "1.5"] {
        let text = format!(
            "id,name,street,city,country,vat,vatpolicy,partyid\nC1,a,b,c,d,e,f,{}\n",
            number
        );
        assert_eq!(
            Clients::from_reader(text.as_bytes()).err(),
            Some(Error::MalformedSource(Table::Clients))
        );
    }
}

#[test]
fn columns_in_another_order() {
    let text = "\
vatpolicy,vat,country,city,street,name,id
Reverse charge,FR00000000000,France,Paris,2 Side Street,Acme,C1
";
    let clients = Clients::from_reader(text.as_bytes()).unwrap();
    let acme = clients.get("C1").unwrap();
    assert_eq!(acme.name, "Acme");
    assert_eq!(acme.vatpolicy, "Reverse charge");
    assert_eq!(acme.city, "Paris");
}

#[test]
fn later_row_with_the_same_key_counts() {
    let text = "\
id,name,street,city,country,vat,vatpolicy
C1,First,a,b,c,d,e
C1,Second,a,b,c,d,e
";
    let clients = Clients::from_reader(text.as_bytes()).unwrap();
    assert_eq!(clients.get("C1").unwrap().name, "Second");
}

#[test]
fn clients_without_a_column() {
    let text = "id,name,street,city,country,vat\nC1,a,b,c,d,e\n";
    assert_eq!(
        Clients::from_reader(text.as_bytes()).err(),
        Some(Error::MalformedSource(Table::Clients))
    );
}

#[test]
fn clients_with_a_column_too_many() {
    let text = "id,name,street,city,country,vat,vatpolicy,colour\nC1,a,b,c,d,e,f,g\n";
    assert_eq!(
        Clients::from_reader(text.as_bytes()).err(),
        Some(Error::MalformedSource(Table::Clients))
    );
}

#[test]
fn clients_with_a_column_twice() {
    let text = "id,name,street,city,country,vat,id\nC1,a,b,c,d,e,f\n";
    assert_eq!(
        Clients::from_reader(text.as_bytes()).err(),
        Some(Error::MalformedSource(Table::Clients))
    );
}

#[test]
fn clients_with_a_short_row() {
    let text = "id,name,street,city,country,vat,vatpolicy\nC1,a,b,c,d,e\n";
    assert_eq!(
        Clients::from_reader(text.as_bytes()).err(),
        Some(Error::MalformedSource(Table::Clients))
    );
}

#[test]
fn clients_from_nothing() {
    assert_eq!(
        Clients::from_reader(b"").err(),
        Some(Error::MalformedSource(Table::Clients))
    );
}

#[test]
fn clients_with_a_header_only() {
    let clients = Clients::from_reader(b"id,name,street,city,country,vat,vatpolicy\n").unwrap();
    assert!(clients.get("C1").is_none());
}

#[test]
fn clients_that_are_no_text() {
    let text = b"id,name,street,city,country,vat,vatpolicy\nC1,\xff,b,c,d,e,f\n";
    assert_eq!(
        Clients::from_reader(text).err(),
        Some(Error::MalformedSource(Table::Clients))
    );
}

#[test]
fn clients_from_records() {
    let rows = records(&[
        &["id", "name", "street", "city", "country", "vat", "vatpolicy"],
        &["C1", "Acme", "s", "c", "l", "v", "p"],
    ]);
    let clients = Clients::from_records(&rows).unwrap();
    assert_eq!(clients.get("C1").unwrap().name, "Acme");
    let short = records(&[
        &["id", "name", "street", "city", "country", "vat", "vatpolicy"],
        &["C1", "Acme"],
    ]);
    assert_eq!(
        Clients::from_records(&short).err(),
        Some(Error::MalformedSource(Table::Clients))
    );
    assert_eq!(
        Clients::from_records(&records(&[])).err(),
        Some(Error::MalformedSource(Table::Clients))
    );
}

#[test]
fn businesses_by_key() {
    let businesses = Businesses::from_reader(BUSINESSES.as_bytes()).unwrap();
    let business = businesses.get("B1").unwrap();
    assert_eq!(business.name, "Sole Trader");
    assert_eq!(business.street, "1 Main Street");
    assert_eq!(business.city, "Ghent");
    assert_eq!(business.country, "Belgium");
    assert_eq!(business.vat, "BE0123456789");
    assert_eq!(business.bank, "Bank");
    assert_eq!(business.iban, "BE00 0000 0000 0000");
    assert_eq!(business.bic, "ABCDBEBB");
    assert!(businesses.get("B2").is_none());
}

#[test]
fn businesses_without_a_column() {
    let text = "id,name,street,city,country,vat,bank,iban\nB1,a,b,c,d,e,f,g\n";
    assert_eq!(
        Businesses::from_reader(text.as_bytes()).err(),
        Some(Error::MalformedSource(Table::Businesses))
    );
}

#[test]
fn businesses_with_a_column_too_many() {
    let text = "id,name,street,city,country,vat,bank,iban,bic,fax\nB1,a,b,c,d,e,f,g,h,i\n";
    assert_eq!(
        Businesses::from_reader(text.as_bytes()).err(),
        Some(Error::MalformedSource(Table::Businesses))
    );
}

#[test]
fn businesses_from_records() {
    let rows = records(&[
        &["bic", "iban", "bank", "vat", "country", "city", "street", "name", "id"],
        &["1", "2", "3", "4", "5", "6", "7", "8", "9"],
    ]);
    let businesses = Businesses::from_records(&rows).unwrap();
    let business = businesses.get("9").unwrap();
    assert_eq!(business.name, "8");
    assert_eq!(business.bic, "1");
}

#[test]
fn ledger_keeps_the_order_of_its_rows() {
    let text = "\
index,amount,services,attachment
2,100,First of two,
1,200,First of one,a.pdf
2,-300,Second of two,b.pdf
3,400,Only of three,
1,500,Second of one,
2,600,Third of two,
";
    let ledger = Invoices::read_costs(text.as_bytes()).unwrap();
    assert_eq!(ledger.len(), 3);
    assert_eq!(
        ledger[&1],
        vec![
            line("First of one", 200, Some("a.pdf")),
            line("Second of one", 500, None),
        ]
    );
    assert_eq!(
        ledger[&2],
        vec![
            line("First of two", 100, None),
            line("Second of two", -300, Some("b.pdf")),
            line("Third of two", 600, None),
        ]
    );
    assert_eq!(ledger[&3], vec![line("Only of three", 400, None)]);
}

#[test]
fn ledger_does_not_depend_on_the_rows_of_other_invoices() {
    let together = "\
index,amount,services,attachment
1,1,a,
1,2,b,
2,3,c,
";
    let apart = "\
index,amount,services,attachment
2,9,z,
1,1,a,
2,3,c,
2,8,y,
1,2,b,
";
    let first = Invoices::read_costs(together.as_bytes()).unwrap();
    let second = Invoices::read_costs(apart.as_bytes()).unwrap();
    assert_eq!(first[&1], second[&1]);
    assert_eq!(first[&1], vec![line("a", 1, None), line("b", 2, None)]);
}

#[test]
fn empty_attachment_is_none() {
    let ledger = Invoices::read_costs(DATA.as_bytes()).unwrap();
    assert_eq!(ledger[&1], vec![line("Consulting", 12345, None)]);
}

#[test]
fn ledger_with_an_amount_that_is_none() {
    for amount in ["", "12.5", "2147483648", "-2147483649", "1e3", "twelve"] {
        let text = format!("index,amount,services,attachment\n1,{},Work,\n", amount);
        assert_eq!(
            Invoices::read_costs(text.as_bytes()).err(),
            Some(Error::MalformedSource(Table::Ledger))
        );
    }
}

#[test]
fn ledger_with_the_largest_amounts() {
    let text = "index,amount,services,attachment\n0,2147483647,a,\n255,-2147483648,b,\n";
    let ledger = Invoices::read_costs(text.as_bytes()).unwrap();
    assert_eq!(ledger[&0], vec![line("a", i32::MAX, None)]);
    assert_eq!(ledger[&255], vec![line("b", i32::MIN, None)]);
}

#[test]
fn ledger_with_a_number_that_is_none() {
    for index in ["", "256", "-1", "x"] {
        let text = format!("index,amount,services,attachment\n{},1,Work,\n", index);
        assert_eq!(
            Invoices::read_costs(text.as_bytes()).err(),
            Some(Error::MalformedSource(Table::Ledger))
        );
    }
}

#[test]
fn ledger_without_a_column() {
    let text = "index,amount,services\n1,1,Work\n";
    assert_eq!(
        Invoices::read_costs(text.as_bytes()).err(),
        Some(Error::MalformedSource(Table::Ledger))
    );
}

#[test]
fn ledger_with_a_long_row() {
    let text = "index,amount,services,attachment\n1,1,Work,,\n";
    assert_eq!(
        Invoices::read_costs(text.as_bytes()).err(),
        Some(Error::MalformedSource(Table::Ledger))
    );
}

#[test]
fn ledger_from_records() {
    let rows = records(&[
        &["services", "index", "attachment", "amount"],
        &["Work", "4", "", "10"],
        &["More work", "4", "proof.pdf", "20"],
    ]);
    let ledger = Invoices::costs_from_records(&rows).unwrap();
    assert_eq!(
        ledger[&4],
        vec![line("Work", 10, None), line("More work", 20, Some("proof.pdf"))]
    );
}

#[test]
fn invoices_by_number() {
    let text = "\
index,business,client,year,month,day
1,B1,C1,2024,3,15
2,B1,C2,2024,4,30
";
    let table = Invoices::read_invoice_data(text.as_bytes()).unwrap();
    assert_eq!(table.len(), 2);
    assert_eq!(
        table[&2],
        InvoiceRecord {
            business: "B1".to_string(),
            client: "C2".to_string(),
            year: 2024,
            month: 4,
            day: 30,
        }
    );
}

#[test]
fn later_record_of_an_invoice_counts() {
    let text = "\
index,business,client,year,month,day
1,B1,C1,2024,3,15
1,B2,C2,2025,4,16
";
    let table = Invoices::read_invoice_data(text.as_bytes()).unwrap();
    assert_eq!(table.len(), 1);
    assert_eq!(table[&1].business, "B2");
    assert_eq!(table[&1].day, 16);
}

#[test]
fn invoices_with_a_value_that_is_none() {
    for row in [
        "x,B1,C1,2024,3,15",
        "1,B1,C1,65536,3,15",
        "1,B1,C1,2024,256,15",
        "1,B1,C1,2024,3,256",
        "1,B1,C1,2024,,15",
        "1,B1,C1,2024,3",
    ] {
        let text = format!("index,business,client,year,month,day\n{}\n", row);
        assert_eq!(
            Invoices::read_invoice_data(text.as_bytes()).err(),
            Some(Error::MalformedSource(Table::Metadata))
        );
    }
}

#[test]
fn invoices_keep_a_date_that_does_not_exist() {
    let text = "index,business,client,year,month,day\n1,B1,C1,2023,2,30\n";
    let table = Invoices::read_invoice_data(text.as_bytes()).unwrap();
    assert_eq!((table[&1].month, table[&1].day), (2, 30));
}

#[test]
fn invoices_from_records() {
    let rows = records(&[
        &["index", "business", "client", "year", "month", "day"],
        &["9", "B", "C", "1999", "12", "31"],
    ]);
    let table = Invoices::invoice_data_from_records(&rows).unwrap();
    assert_eq!(table[&9].year, 1999);
    let wrong = records(&[&["index", "business", "client", "year", "month"]]);
    assert_eq!(
        Invoices::invoice_data_from_records(&wrong).err(),
        Some(Error::MalformedSource(Table::Metadata))
    );
}

#[test]
fn lines_and_record_of_an_invoice() {
    let year = Invoices::read(DATA.as_bytes(), INVOICES.as_bytes()).unwrap();
    let (items, record) = year.get(1).unwrap();
    assert_eq!(items, &vec![line("Consulting", 12345, None)]);
    assert_eq!(record.business, "B1");
    assert_eq!(record.client, "C1");
    assert_eq!((record.year, record.month, record.day), (2024, 3, 15));
}

#[test]
fn invoice_without_lines_is_missing() {
    let year = Invoices::read(DATA.as_bytes(), INVOICES.as_bytes()).unwrap();
    assert_eq!(year.get(2).err(), Some(Error::MissingInvoice(Table::Ledger)));
}

#[test]
fn invoice_without_record_is_missing() {
    let data = "index,amount,services,attachment\n1,1,a,\n2,2,b,\n";
    let year = Invoices::read(data.as_bytes(), INVOICES.as_bytes()).unwrap();
    assert_eq!(
        year.get(2).err(),
        Some(Error::MissingInvoice(Table::Metadata))
    );
}

#[test]
fn year_with_a_table_that_is_none() {
    assert_eq!(
        Invoices::read(b"x", INVOICES.as_bytes()).err(),
        Some(Error::MalformedSource(Table::Ledger))
    );
    assert_eq!(
        Invoices::read(DATA.as_bytes(), b"x").err(),
        Some(Error::MalformedSource(Table::Metadata))
    );
    assert_eq!(
        Invoices::read(b"x", b"x").err(),
        Some(Error::MalformedSource(Table::Ledger))
    );
}

#[test]
fn end_to_end() {
    let invoice = read_invoice(
        CLIENTS.as_bytes(),
        BUSINESSES.as_bytes(),
        DATA.as_bytes(),
        INVOICES.as_bytes(),
        InvoiceIndex { year: 2024, index: 1 },
    )
    .unwrap();
    assert_eq!(invoice.index, InvoiceIndex { year: 2024, index: 1 });
    assert_eq!(invoice.total(), Money(12345));
    assert_eq!(invoice.metadata.date.to_string(), "2024-03-15");
    assert_eq!(invoice.metadata.date, Date::new(2024, 3, 15).unwrap());
    assert_eq!(invoice.metadata.client.name, "Acme");
    assert_eq!(invoice.metadata.business.name, "Sole Trader");
    assert_eq!(invoice.items, vec![line("Consulting", 12345, None)]);
    assert_eq!(
        invoice.metadata.date.add_days(30).to_string(),
        "2024-04-14"
    );
}

#[test]
fn assembling_without_metadata_is_a_missing_invoice() {
    let data = "index,amount,services,attachment\n1,1,a,\n2,2,b,\n";
    let result = read_invoice(
        CLIENTS.as_bytes(),
        BUSINESSES.as_bytes(),
        data.as_bytes(),
        INVOICES.as_bytes(),
        InvoiceIndex { year: 2024, index: 2 },
    );
    assert_eq!(result.err(), Some(Error::MissingInvoice(Table::Metadata)));
}

#[test]
fn assembling_without_lines_is_a_missing_invoice() {
    let result = read_invoice(
        CLIENTS.as_bytes(),
        BUSINESSES.as_bytes(),
        DATA.as_bytes(),
        INVOICES.as_bytes(),
        InvoiceIndex { year: 2024, index: 2 },
    );
    assert_eq!(result.err(), Some(Error::MissingInvoice(Table::Ledger)));
}

#[test]
fn assembling_with_an_unknown_business_is_a_missing_reference() {
    let invoices = "index,business,client,year,month,day\n1,B2,C1,2024,3,15\n";
    let result = read_invoice(
        CLIENTS.as_bytes(),
        BUSINESSES.as_bytes(),
        DATA.as_bytes(),
        invoices.as_bytes(),
        InvoiceIndex { year: 2024, index: 1 },
    );
    assert_eq!(
        result.err(),
        Some(Error::MissingReference(Table::Businesses))
    );
}

#[test]
fn assembling_with_an_unknown_client_is_a_missing_reference() {
    let invoices = "index,business,client,year,month,day\n1,B1,C9,2024,3,15\n";
    let result = read_invoice(
        CLIENTS.as_bytes(),
        BUSINESSES.as_bytes(),
        DATA.as_bytes(),
        invoices.as_bytes(),
        InvoiceIndex { year: 2024, index: 1 },
    );
    assert_eq!(result.err(), Some(Error::MissingReference(Table::Clients)));
}

#[test]
fn business_is_looked_up_before_the_client() {
    let invoices = "index,business,client,year,month,day\n1,B2,C9,2024,3,15\n";
    let result = read_invoice(
        CLIENTS.as_bytes(),
        BUSINESSES.as_bytes(),
        DATA.as_bytes(),
        invoices.as_bytes(),
        InvoiceIndex { year: 2024, index: 1 },
    );
    assert_eq!(
        result.err(),
        Some(Error::MissingReference(Table::Businesses))
    );
}

#[test]
fn assembling_with_a_date_that_does_not_exist_is_malformed() {
    let invoices = "index,business,client,year,month,day\n1,B1,C1,2023,2,29\n";
    let result = read_invoice(
        CLIENTS.as_bytes(),
        BUSINESSES.as_bytes(),
        DATA.as_bytes(),
        invoices.as_bytes(),
        InvoiceIndex { year: 2023, index: 1 },
    );
    assert_eq!(result.err(), Some(Error::MalformedSource(Table::Metadata)));
}

#[test]
fn first_table_that_is_none_decides() {
    let index = InvoiceIndex { year: 2024, index: 1 };
    assert_eq!(
        read_invoice(b"x", b"x", b"x", b"x", index).err(),
        Some(Error::MalformedSource(Table::Clients))
    );
    assert_eq!(
        read_invoice(CLIENTS.as_bytes(), b"x", b"x", b"x", index).err(),
        Some(Error::MalformedSource(Table::Businesses))
    );
    assert_eq!(
        read_invoice(CLIENTS.as_bytes(), BUSINESSES.as_bytes(), b"x", b"x", index).err(),
        Some(Error::MalformedSource(Table::Ledger))
    );
    assert_eq!(
        read_invoice(
            CLIENTS.as_bytes(),
            BUSINESSES.as_bytes(),
            DATA.as_bytes(),
            b"x",
            index
        )
        .err(),
        Some(Error::MalformedSource(Table::Metadata))
    );
}

#[test]
fn assembling_from_tables_in_memory() {
    let clients = Clients::from_reader(CLIENTS.as_bytes()).unwrap();
    let businesses = Businesses::from_reader(BUSINESSES.as_bytes()).unwrap();
    let year = Invoices::read(DATA.as_bytes(), INVOICES.as_bytes()).unwrap();
    let invoice = assemble(
        &clients,
        &businesses,
        &year,
        InvoiceIndex { year: 2024, index: 1 },
    )
    .unwrap();
    assert_eq!(invoice.metadata.client, *clients.get("C1").unwrap());
    assert_eq!(invoice.metadata.business, *businesses.get("B1").unwrap());
    assert_eq!(invoice.items.len(), 1);
}

#[test]
fn table_errors_in_words() {
    assert_eq!(
        Error::MissingInvoice(Table::Ledger).description(),
        "Missing entry in data.csv"
    );
    assert_eq!(
        Error::MissingInvoice(Table::Metadata).description(),
        "Missing entry in invoices.csv"
    );
    assert_eq!(
        Error::MissingReference(Table::Businesses).description(),
        "Missing business"
    );
    assert_eq!(
        Error::MissingReference(Table::Clients).description(),
        "Missing client"
    );
}

#[test]
fn year_from_records() {
    let data = records(&[
        &["index", "amount", "services", "attachment"],
        &["1", "12345", "Consulting", ""],
    ]);
    let invoices = records(&[
        &["index", "business", "client", "year", "month", "day"],
        &["1", "B1", "C1", "2024", "3", "15"],
    ]);
    let year = Invoices::from_records(&data, &invoices).unwrap();
    let clients = Clients::from_records(&records(&[
        &["id", "name", "street", "city", "country", "vat", "vatpolicy"],
        &["C1", "Acme", "s", "c", "l", "v", "p"],
    ]))
    .unwrap();
    let businesses = Businesses::from_records(&records(&[
        &["id", "name", "street", "city", "country", "vat", "bank", "iban", "bic"],
        &["B1", "Sole Trader", "s", "c", "l", "v", "b", "i", "c"],
    ]))
    .unwrap();
    let invoice = assemble(
        &clients,
        &businesses,
        &year,
        InvoiceIndex { year: 2024, index: 1 },
    )
    .unwrap();
    assert_eq!(invoice.total(), Money(12345));
    assert_eq!(invoice.metadata.date.to_string(), "2024-03-15");
    assert_eq!(
        Invoices::from_records(&invoices, &invoices).err(),
        Some(Error::MalformedSource(Table::Ledger))
    );
    assert_eq!(
        Invoices::from_records(&data, &data).err(),
        Some(Error::MalformedSource(Table::Metadata))
    );
}

#[test]
fn year_from_its_two_tables() {
    let items = Invoices::read_costs(DATA.as_bytes()).unwrap();
    let metadata = Invoices::read_invoice_data(INVOICES.as_bytes()).unwrap();
    let year = Invoices::new(items, metadata);
    assert_eq!(year.get(1).unwrap().0.len(), 1);
    assert!(year.get(2).is_err());
}
