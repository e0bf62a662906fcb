//! The four tables, read from comma-separated text, and the invoice that
//! they give together.
//!
//! The `csv` crate splits a text into records; everything after that is
//! decided here: which columns a table must have, what each field must be,
//! and how the rows of the tables belong together.

use crate::error::{Error, Table};
use crate::date::{Date, DateView};
use crate::invoice::{
    clone_items, items_view, Business, BusinessView, Client, ClientView, Invoice, InvoiceData,
    InvoiceDataView, InvoiceIndex, InvoiceView, LineItem, LineItemView, Money,
};
use crate::text::{integer_of, parse_integer, text_is};
use std::collections::HashMap;
use vstd::hash_map::StringHashMap;
use vstd::prelude::*;

verus! {

/// The records that the `csv` crate reads from a text, the header among
/// them as the first; a record is the list of its fields. `None` where the
/// crate reports an error.
pub uninterp spec fn csv_records(data: Seq<u8>) -> Option<Seq<Seq<Seq<char>>>>;

/// `csv::Reader::records`, on a reader over `data` that hands out the
/// header like every other record: all records of the text, or `None`
/// where the reader reports an error.
#[verifier::external_body]
fn read_records(data: &[u8]) -> (r: Option<Vec<Vec<String>>>)
    ensures
        match r {
            Some(records) => csv_records(data@) == Some(records.deep_view()),
            None => csv_records(data@) is None,
        },
{
    let mut reader = csv::ReaderBuilder::new().has_headers(false).from_reader(data);
    reader.records().map(
        |record| record.map(|fields| fields.iter().map(String::from).collect()),
    ).collect::<Result<_, _>>().ok()
}

/// The first place of a header that holds `name`.
pub open spec fn column_of(header: Seq<Seq<char>>, name: Seq<char>) -> Option<int>
    decreases header.len(),
{
    if header.len() == 0 {
        None
    } else {
        match column_of(header.drop_last(), name) {
            Some(i) => Some(i),
            None => if header.last() == name {
                Some(header.len() - 1)
            } else {
                None
            },
        }
    }
}

/// Where [`column_of`] finds a name, the name stands; where it finds none,
/// the name stands nowhere.
pub proof fn lemma_column_of(header: Seq<Seq<char>>, name: Seq<char>)
    ensures
        match column_of(header, name) {
            Some(i) => 0 <= i < header.len() && header[i] == name && forall|j: int|
                0 <= j < i ==> header[j] != name,
            None => forall|j: int| 0 <= j < header.len() ==> header[j] != name,
        },
    decreases header.len(),
{
    if header.len() > 0 {
        let front = header.drop_last();
        lemma_column_of(front, name);
        assert forall|j: int| 0 <= j < front.len() implies front[j] == header[j] by {}
        match column_of(front, name) {
            Some(i) => {
                assert forall|j: int| 0 <= j < i implies header[j] != name by {
                    assert(front[j] != name);
                }
            },
            None => {
                assert forall|j: int| 0 <= j < header.len() - 1 implies header[j] != name by {
                    assert(front[j] != name);
                }
            },
        }
    }
}

/// A header holds exactly the columns `names`, in any order.
pub open spec fn has_columns(header: Seq<Seq<char>>, names: Seq<Seq<char>>) -> bool {
    &&& header.len() == names.len()
    &&& forall|k: int| 0 <= k < names.len() ==> (#[trigger] column_of(header, names[k])) is Some
}

/// The field of a record that stands under the column `name`.
pub open spec fn field(header: Seq<Seq<char>>, record: Seq<Seq<char>>, name: Seq<char>) -> Seq<
    char,
> {
    record[column_of(header, name)->0]
}

/// The texts of some names.
pub open spec fn texts(names: Seq<&'static str>) -> Seq<Seq<char>> {
    names.map_values(|name: &'static str| name@)
}

/// The first place of a header that holds `name`.
pub fn find_column(header: &Vec<String>, name: &str) -> (r: Option<usize>)
    ensures
        match r {
            Some(i) => column_of(header.deep_view(), name@) == Some(i as int) && i < header.len(),
            None => column_of(header.deep_view(), name@) is None,
        },
{
    let ghost model = header.deep_view();
    let mut i: usize = 0;
    while i < header.len()
        invariant
            i <= header.len(),
            model == header.deep_view(),
            forall|j: int| 0 <= j < i ==> model[j] != name@,
        decreases header.len() - i,
    {
        assert(model[i as int] == header[i as int]@);
        if text_is(header[i].as_str(), name) {
            proof {
                lemma_column_of(model, name@);
            }
            return Some(i);
        }
        i = i + 1;
    }
    proof {
        lemma_column_of(model, name@);
    }
    None
}

/// The places of the columns `names` in a header that holds exactly these
/// columns; `None` for any other header.
pub fn find_columns(header: &Vec<String>, names: &Vec<&'static str>) -> (r: Option<Vec<usize>>)
    ensures
        match r {
            Some(places) => {
                &&& has_columns(header.deep_view(), texts(names@))
                &&& places.len() == names.len()
                &&& forall|k: int|
                    0 <= k < names.len() ==> column_of(header.deep_view(), names[k]@) == Some(
                        #[trigger] places[k] as int,
                    ) && places[k] < header.len()
            },
            None => !has_columns(header.deep_view(), texts(names@)),
        },
{
    if header.len() != names.len() {
        return None;
    }
    let mut places: Vec<usize> = Vec::new();
    let mut k: usize = 0;
    while k < names.len()
        invariant
            k <= names.len(),
            header.len() == names.len(),
            places.len() == k,
            forall|j: int|
                0 <= j < k ==> column_of(header.deep_view(), names[j]@) == Some(
                    #[trigger] places[j] as int,
                ) && places[j] < header.len(),
        decreases names.len() - k,
    {
        match find_column(header, names[k]) {
            Some(place) => {
                places.push(place);
            },
            None => {
                proof {
                    assert(texts(names@)[k as int] == names[k as int]@);
                }
                return None;
            },
        }
        k = k + 1;
    }
    proof {
        assert forall|j: int| 0 <= j < names.len() implies (#[trigger] column_of(
            header.deep_view(),
            texts(names@)[j],
        )) is Some by {
            assert(texts(names@)[j] == names[j]@);
            assert(column_of(header.deep_view(), names[j]@) == Some(places[j] as int));
        }
    }
    Some(places)
}

/// What `read` makes of each of some rows, in their order; `None` where it
/// makes nothing of one of them.
pub open spec fn read_rows<T>(
    rows: Seq<Seq<Seq<char>>>,
    read: spec_fn(Seq<Seq<char>>) -> Option<T>,
) -> Option<Seq<T>> {
    if forall|i: int| 0 <= i < rows.len() ==> (#[trigger] read(rows[i])) is Some {
        Some(rows.map_values(|row: Seq<Seq<char>>| read(row)->0))
    } else {
        None
    }
}

/// The table that a list of keys with their values gives: of two entries
/// with one key the later counts.
pub open spec fn keyed<K, V>(entries: Seq<(K, V)>) -> Map<K, V>
    decreases entries.len(),
{
    if entries.len() == 0 {
        Map::empty()
    } else {
        keyed(entries.drop_last()).insert(entries.last().0, entries.last().1)
    }
}

/// A copy of the field of a record at a place.
pub fn cell(record: &Vec<String>, place: usize) -> (r: String)
    requires
        place < record.len(),
    ensures
        r@ == record.deep_view()[place as int],
{
    assert(record.deep_view()[place as int] == record[place as int]@);
    record[place].clone()
}

/// The columns that a table of clients must have.
pub open spec fn client_columns() -> Seq<Seq<char>> {
    seq!["id"@, "name"@, "street"@, "city"@, "country"@, "vat"@, "vatpolicy"@]
}

/// A header of a table of clients: the columns of [`client_columns`], and
/// `partyid` or not.
pub open spec fn clients_header(header: Seq<Seq<char>>) -> bool {
    if column_of(header, "partyid"@) is Some {
        has_columns(header, client_columns().push("partyid"@))
    } else {
        has_columns(header, client_columns())
    }
}

/// The client's number in the accounts that a record gives: none where the
/// table has no such column or the field is empty. `None` where the field
/// holds something that is no such number.
pub open spec fn party_of(header: Seq<Seq<char>>, record: Seq<Seq<char>>) -> Option<Option<u32>> {
    if column_of(header, "partyid"@) is None {
        Some(None)
    } else if field(header, record, "partyid"@).len() == 0 {
        Some(None)
    } else {
        match integer_of(field(header, record, "partyid"@), 0, u32::MAX as int) {
            Some(number) => Some(Some(number as u32)),
            None => None,
        }
    }
}

/// The key and the client that a record gives; `None` where the record does
/// not fit the header.
pub open spec fn client_of(header: Seq<Seq<char>>, record: Seq<Seq<char>>) -> Option<
    (Seq<char>, ClientView),
> {
    if record.len() != header.len() {
        None
    } else {
        match party_of(header, record) {
            None => None,
            Some(partyid) => Some(
                (
                    field(header, record, "id"@),
                    ClientView {
                        name: field(header, record, "name"@),
                        street: field(header, record, "street"@),
                        city: field(header, record, "city"@),
                        country: field(header, record, "country"@),
                        vat: field(header, record, "vat"@),
                        vatpolicy: field(header, record, "vatpolicy"@),
                        partyid,
                    },
                ),
            ),
        }
    }
}

/// The clients that the records of a table give, the first record being
/// its header; of two records with one key the later counts.
pub open spec fn clients_table(records: Seq<Seq<Seq<char>>>) -> Option<Map<Seq<char>, ClientView>> {
    if records.len() == 0 || !clients_header(records[0]) {
        None
    } else {
        match read_rows(records.skip(1), |row: Seq<Seq<char>>| client_of(records[0], row)) {
            Some(entries) => Some(keyed(entries)),
            None => None,
        }
    }
}

/// The clients that a text gives. `None` where the `csv` crate reports an
/// error or the records are no such table.
pub open spec fn clients_in(data: Seq<u8>) -> Option<Map<Seq<char>, ClientView>> {
    match csv_records(data) {
        Some(records) => clients_table(records),
        None => None,
    }
}

/// The clients, by their keys.
pub struct Clients {
    clients: StringHashMap<Client>,
}

impl View for Clients {
    type V = Map<Seq<char>, ClientView>;

    closed spec fn view(&self) -> Map<Seq<char>, ClientView> {
        self.clients@.map_values(|client: Client| client@)
    }
}

impl Clients {
    /// Reads the table of clients from comma-separated text.
    pub fn from_reader(data: &[u8]) -> (r: Result<Clients, Error>)
        ensures
            match r {
                Ok(table) => clients_in(data@) == Some(table@),
                Err(e) => e == Error::MalformedSource(Table::Clients) && clients_in(data@) is None,
            },
    {
        match read_records(data) {
            Some(records) => Clients::from_records(&records),
            None => Err(Error::MalformedSource(Table::Clients)),
        }
    }

    /// The table of clients that some records give, the first being the
    /// header.
    pub fn from_records(records: &Vec<Vec<String>>) -> (r: Result<Clients, Error>)
        ensures
            match r {
                Ok(table) => clients_table(records.deep_view()) == Some(table@),
                Err(e) => e == Error::MalformedSource(Table::Clients) && clients_table(
                    records.deep_view(),
                ) is None,
            },
    {
        let ghost model = records.deep_view();
        if records.len() == 0 {
            return Err(Error::MalformedSource(Table::Clients));
        }
        let header = &records[0];
        assert(model[0] == header.deep_view());
        let party = find_column(header, "partyid");
        let mut names = vec!["id", "name", "street", "city", "country", "vat", "vatpolicy"];
        assert(texts(names@) =~= client_columns());
        if party.is_some() {
            names.push("partyid");
            assert(texts(names@) =~= client_columns().push("partyid"@));
        }
        let places = match find_columns(header, &names) {
            Some(places) => places,
            None => {
                return Err(Error::MalformedSource(Table::Clients));
            },
        };
        let mut clients: StringHashMap<Client> = StringHashMap::new();
        let ghost read = |row: Seq<Seq<char>>| client_of(model[0], row);
        let ghost mut entries: Seq<(Seq<char>, ClientView)> = Seq::empty();
        let mut i: usize = 1;
        while i < records.len()
            invariant
                1 <= i <= records.len(),
                model == records.deep_view(),
                model[0] == header.deep_view(),
                clients_header(model[0]),
                read == |row: Seq<Seq<char>>| client_of(model[0], row),
                places.len() >= 7,
                names.len() == places.len(),
                names[0]@ == "id"@,
                names[1]@ == "name"@,
                names[2]@ == "street"@,
                names[3]@ == "city"@,
                names[4]@ == "country"@,
                names[5]@ == "vat"@,
                names[6]@ == "vatpolicy"@,
                forall|k: int|
                    0 <= k < names.len() ==> column_of(model[0], names[k]@) == Some(
                        #[trigger] places[k] as int,
                    ) && places[k] < header.len(),
                match party {
                    Some(place) => column_of(model[0], "partyid"@) == Some(place as int) && place
                        < header.len(),
                    None => column_of(model[0], "partyid"@) is None,
                },
                entries.len() == i - 1,
                forall|j: int| 0 <= j < i - 1 ==> read(#[trigger] model.skip(1)[j]) == Some(entries[j]),
                clients@.map_values(|client: Client| client@) == keyed(entries),
            decreases records.len() - i,
        {
            let record = &records[i];
            proof {
                assert(model[i as int] == record.deep_view());
                assert(model.skip(1)[i - 1] == model[i as int]);
            }
            if record.len() != header.len() {
                assert(read(model.skip(1)[i - 1]) is None);
                return Err(Error::MalformedSource(Table::Clients));
            }
            let partyid = match party {
                None => None,
                Some(place) => {
                    assert(record.deep_view()[place as int] == record[place as int]@);
                    if record[place].as_str().unicode_len() == 0 {
                        None
                    } else {
                        match parse_integer(record[place].as_str(), 0, u32::MAX as i64) {
                            Some(number) => Some(number as u32),
                            None => {
                                assert(read(model.skip(1)[i - 1]) is None);
                                return Err(Error::MalformedSource(Table::Clients));
                            },
                        }
                    }
                },
            };
            let client = Client {
                name: cell(record, places[1]),
                street: cell(record, places[2]),
                city: cell(record, places[3]),
                country: cell(record, places[4]),
                vat: cell(record, places[5]),
                vatpolicy: cell(record, places[6]),
                partyid,
            };
            let key = cell(record, places[0]);
            proof {
                assert(read(model.skip(1)[i - 1]) == Some((key@, client@)));
                assert(clients@.insert(key@, client).map_values(|client: Client| client@)
                    =~= clients@.map_values(|client: Client| client@).insert(key@, client@));
                assert(entries.push((key@, client@)).drop_last() =~= entries);
                entries = entries.push((key@, client@));
            }
            clients.insert(key, client);
            i = i + 1;
        }
        proof {
            let rows = model.skip(1);
            assert(rows.len() == entries.len());
            assert forall|j: int| 0 <= j < rows.len() implies (#[trigger] read(rows[j])) is Some by {
                assert(read(model.skip(1)[j]) == Some(entries[j]));
            }
            assert(rows.map_values(|row: Seq<Seq<char>>| read(row)->0) =~= entries);
        }
        Ok(Clients { clients })
    }

    /// The client with a key, if the table has one.
    pub fn get(&self, key: &str) -> (r: Option<&Client>)
        ensures
            match r {
                Some(client) => self@.contains_key(key@) && self@[key@] == client@,
                None => !self@.contains_key(key@),
            },
    {
        self.clients.get(key)
    }
}

/// The columns that a table of businesses must have.
pub open spec fn business_columns() -> Seq<Seq<char>> {
    seq!["id"@, "name"@, "street"@, "city"@, "country"@, "vat"@, "bank"@, "iban"@, "bic"@]
}

/// The key and the business that a record gives; `None` where the record
/// does not fit the header.
pub open spec fn business_of(header: Seq<Seq<char>>, record: Seq<Seq<char>>) -> Option<
    (Seq<char>, BusinessView),
> {
    if record.len() != header.len() {
        None
    } else {
        Some(
            (
                field(header, record, "id"@),
                BusinessView {
                    name: field(header, record, "name"@),
                    street: field(header, record, "street"@),
                    city: field(header, record, "city"@),
                    country: field(header, record, "country"@),
                    vat: field(header, record, "vat"@),
                    bank: field(header, record, "bank"@),
                    iban: field(header, record, "iban"@),
                    bic: field(header, record, "bic"@),
                },
            ),
        )
    }
}

/// The businesses that the records of a table give, the first record being
/// its header; of two records with one key the later counts.
pub open spec fn businesses_table(records: Seq<Seq<Seq<char>>>) -> Option<
    Map<Seq<char>, BusinessView>,
> {
    if records.len() == 0 || !has_columns(records[0], business_columns()) {
        None
    } else {
        match read_rows(records.skip(1), |row: Seq<Seq<char>>| business_of(records[0], row)) {
            Some(entries) => Some(keyed(entries)),
            None => None,
        }
    }
}

/// The businesses that a text gives. `None` where the `csv` crate reports an
/// error or the records are no such table.
pub open spec fn businesses_in(data: Seq<u8>) -> Option<Map<Seq<char>, BusinessView>> {
    match csv_records(data) {
        Some(records) => businesses_table(records),
        None => None,
    }
}

/// The businesses, by their keys.
pub struct Businesses {
    businesses: StringHashMap<Business>,
}

impl View for Businesses {
    type V = Map<Seq<char>, BusinessView>;

    closed spec fn view(&self) -> Map<Seq<char>, BusinessView> {
        self.businesses@.map_values(|business: Business| business@)
    }
}

impl Businesses {
    /// Reads the table of businesses from comma-separated text.
    pub fn from_reader(data: &[u8]) -> (r: Result<Businesses, Error>)
        ensures
            match r {
                Ok(table) => businesses_in(data@) == Some(table@),
                Err(e) => e == Error::MalformedSource(Table::Businesses) && businesses_in(data@) is None,
            },
    {
        match read_records(data) {
            Some(records) => Businesses::from_records(&records),
            None => Err(Error::MalformedSource(Table::Businesses)),
        }
    }

    /// The table of businesses that some records give, the first being the
    /// header.
    pub fn from_records(records: &Vec<Vec<String>>) -> (r: Result<Businesses, Error>)
        ensures
            match r {
                Ok(table) => businesses_table(records.deep_view()) == Some(table@),
                Err(e) => e == Error::MalformedSource(Table::Businesses) && businesses_table(
                    records.deep_view(),
                ) is None,
            },
    {
        let ghost model = records.deep_view();
        if records.len() == 0 {
            return Err(Error::MalformedSource(Table::Businesses));
        }
        let header = &records[0];
        assert(model[0] == header.deep_view());
        let names = vec!["id", "name", "street", "city", "country", "vat", "bank", "iban", "bic"];
        assert(texts(names@) =~= business_columns());
        let places = match find_columns(header, &names) {
            Some(places) => places,
            None => {
                return Err(Error::MalformedSource(Table::Businesses));
            },
        };
        let mut businesses: StringHashMap<Business> = StringHashMap::new();
        let ghost read = |row: Seq<Seq<char>>| business_of(model[0], row);
        let ghost mut entries: Seq<(Seq<char>, BusinessView)> = Seq::empty();
        let mut i: usize = 1;
        while i < records.len()
            invariant
                1 <= i <= records.len(),
                model == records.deep_view(),
                model[0] == header.deep_view(),
                read == |row: Seq<Seq<char>>| business_of(model[0], row),
                places.len() == 9,
                names.len() == 9,
                names[0]@ == "id"@,
                names[1]@ == "name"@,
                names[2]@ == "street"@,
                names[3]@ == "city"@,
                names[4]@ == "country"@,
                names[5]@ == "vat"@,
                names[6]@ == "bank"@,
                names[7]@ == "iban"@,
                names[8]@ == "bic"@,
                forall|k: int|
                    0 <= k < names.len() ==> column_of(model[0], names[k]@) == Some(
                        #[trigger] places[k] as int,
                    ) && places[k] < header.len(),
                entries.len() == i - 1,
                forall|j: int| 0 <= j < i - 1 ==> read(#[trigger] model.skip(1)[j]) == Some(entries[j]),
                businesses@.map_values(|business: Business| business@) == keyed(entries),
            decreases records.len() - i,
        {
            let record = &records[i];
            proof {
                assert(model[i as int] == record.deep_view());
                assert(model.skip(1)[i - 1] == model[i as int]);
            }
            if record.len() != header.len() {
                assert(read(model.skip(1)[i - 1]) is None);
                return Err(Error::MalformedSource(Table::Businesses));
            }
            let business = Business {
                name: cell(record, places[1]),
                street: cell(record, places[2]),
                city: cell(record, places[3]),
                country: cell(record, places[4]),
                vat: cell(record, places[5]),
                bank: cell(record, places[6]),
                iban: cell(record, places[7]),
                bic: cell(record, places[8]),
            };
            let key = cell(record, places[0]);
            proof {
                assert(read(model.skip(1)[i - 1]) == Some((key@, business@)));
                assert(businesses@.insert(key@, business).map_values(
                    |business: Business| business@,
                ) =~= businesses@.map_values(|business: Business| business@).insert(
                    key@,
                    business@,
                ));
                assert(entries.push((key@, business@)).drop_last() =~= entries);
                entries = entries.push((key@, business@));
            }
            businesses.insert(key, business);
            i = i + 1;
        }
        proof {
            let rows = model.skip(1);
            assert forall|j: int| 0 <= j < rows.len() implies (#[trigger] read(rows[j])) is Some by {
                assert(read(model.skip(1)[j]) == Some(entries[j]));
            }
            assert(rows.map_values(|row: Seq<Seq<char>>| read(row)->0) =~= entries);
        }
        Ok(Businesses { businesses })
    }

    /// The business with a key, if the table has one.
    pub fn get(&self, key: &str) -> (r: Option<&Business>)
        ensures
            match r {
                Some(business) => self@.contains_key(key@) && self@[key@] == business@,
                None => !self@.contains_key(key@),
            },
    {
        self.businesses.get(key)
    }
}

/// The columns that a ledger must have.
pub open spec fn ledger_columns() -> Seq<Seq<char>> {
    seq!["index"@, "amount"@, "services"@, "attachment"@]
}

/// The number of the invoice that a record of a ledger belongs to, and the
/// line that it gives: an empty attachment is none. `None` where the record
/// does not fit the header, or where the number or the amount is none.
pub open spec fn line_of(header: Seq<Seq<char>>, record: Seq<Seq<char>>) -> Option<
    (u8, LineItemView),
> {
    if record.len() != header.len() {
        None
    } else {
        match (
            integer_of(field(header, record, "index"@), 0, u8::MAX as int),
            integer_of(field(header, record, "amount"@), i32::MIN as int, i32::MAX as int),
        ) {
            (Some(index), Some(amount)) => Some(
                (
                    index as u8,
                    LineItemView {
                        description: field(header, record, "services"@),
                        amount: Money(amount as i32),
                        attachment: if field(header, record, "attachment"@).len() == 0 {
                            None
                        } else {
                            Some(field(header, record, "attachment"@))
                        },
                    },
                ),
            ),
            _ => None,
        }
    }
}

/// The lines of one invoice among the lines of a ledger, in the order of
/// the ledger.
pub open spec fn items_for(lines: Seq<(u8, LineItemView)>, index: u8) -> Seq<LineItemView>
    decreases lines.len(),
{
    if lines.len() == 0 {
        Seq::empty()
    } else if lines.last().0 == index {
        items_for(lines.drop_last(), index).push(lines.last().1)
    } else {
        items_for(lines.drop_last(), index)
    }
}

/// The lines of a ledger by invoice: each invoice that has a line, with its
/// lines in the order of the ledger.
pub open spec fn ledger_of(lines: Seq<(u8, LineItemView)>) -> Map<u8, Seq<LineItemView>> {
    Map::new(|index: u8| items_for(lines, index).len() > 0, |index: u8| items_for(lines, index))
}

/// The ledger that the records of a table give, the first record being its
/// header.
pub open spec fn ledger_table(records: Seq<Seq<Seq<char>>>) -> Option<
    Map<u8, Seq<LineItemView>>,
> {
    if records.len() == 0 || !has_columns(records[0], ledger_columns()) {
        None
    } else {
        match read_rows(records.skip(1), |row: Seq<Seq<char>>| line_of(records[0], row)) {
            Some(lines) => Some(ledger_of(lines)),
            None => None,
        }
    }
}

/// The ledger that a text gives. `None` where the `csv` crate reports an
/// error or the records are no such table.
pub open spec fn ledger_in(data: Seq<u8>) -> Option<Map<u8, Seq<LineItemView>>> {
    match csv_records(data) {
        Some(records) => ledger_table(records),
        None => None,
    }
}

/// The lines that a ledger in memory holds, by invoice.
pub open spec fn ledger_view(items: Map<u8, Vec<LineItem>>) -> Map<u8, Seq<LineItemView>> {
    items.map_values(|group: Vec<LineItem>| items_view(group@))
}

/// The lines of an invoice are those of its records in the ledger, in
/// their order, wherever the records of other invoices stand among them:
/// two ledgers that hold the same records of one invoice in the same order
/// give it the same lines.
pub proof fn lemma_ledger_keeps_order(
    first: Seq<(u8, LineItemView)>,
    second: Seq<(u8, LineItemView)>,
    index: u8,
)
    requires
        first.filter(|line: (u8, LineItemView)| line.0 == index) == second.filter(
            |line: (u8, LineItemView)| line.0 == index,
        ),
    ensures
        items_for(first, index) == items_for(second, index),
        items_for(first, index) == first.filter(|line: (u8, LineItemView)| line.0 == index).map_values(
            |line: (u8, LineItemView)| line.1,
        ),
        ledger_of(first).contains_key(index) ==> ledger_of(first)[index] == items_for(
            first,
            index,
        ),
{
    lemma_items_for_filter(first, index);
    lemma_items_for_filter(second, index);
}

/// The lines of one invoice are the records with its number, without the
/// number.
pub proof fn lemma_items_for_filter(lines: Seq<(u8, LineItemView)>, index: u8)
    ensures
        items_for(lines, index) == lines.filter(|line: (u8, LineItemView)| line.0 == index).map_values(
            |line: (u8, LineItemView)| line.1,
        ),
    decreases lines.len(),
{
    reveal(Seq::filter);
    let keep = |line: (u8, LineItemView)| line.0 == index;
    let second = |line: (u8, LineItemView)| line.1;
    if lines.len() > 0 {
        lemma_items_for_filter(lines.drop_last(), index);
        if lines.last().0 == index {
            assert(lines.filter(keep) == lines.drop_last().filter(keep).push(lines.last()));
            assert(lines.drop_last().filter(keep).push(lines.last()).map_values(second)
                =~= lines.drop_last().filter(keep).map_values(second).push(lines.last().1));
        }
    } else {
        assert(lines.filter(keep).map_values(second) =~= Seq::<LineItemView>::empty());
    }
}

/// What the table of a year's invoices holds of one invoice.
#[derive(Debug, PartialEq, Eq)]
pub struct InvoiceRecord {
    pub business: String,
    pub client: String,
    pub year: u16,
    pub month: u8,
    pub day: u8,
}

/// The model of an [`InvoiceRecord`].
pub struct InvoiceRecordView {
    pub business: Seq<char>,
    pub client: Seq<char>,
    pub year: u16,
    pub month: u8,
    pub day: u8,
}

impl View for InvoiceRecord {
    type V = InvoiceRecordView;

    open spec fn view(&self) -> InvoiceRecordView {
        InvoiceRecordView {
            business: self.business@,
            client: self.client@,
            year: self.year,
            month: self.month,
            day: self.day,
        }
    }
}

/// The columns that a table of invoices must have.
pub open spec fn invoice_columns() -> Seq<Seq<char>> {
    seq!["index"@, "business"@, "client"@, "year"@, "month"@, "day"@]
}

/// The number of an invoice and what a record of the table of invoices
/// says of it. `None` where the record does not fit the header, or where
/// one of its numbers is none.
pub open spec fn invoice_record_of(header: Seq<Seq<char>>, record: Seq<Seq<char>>) -> Option<
    (u8, InvoiceRecordView),
> {
    if record.len() != header.len() {
        None
    } else {
        match (
            integer_of(field(header, record, "index"@), 0, u8::MAX as int),
            integer_of(field(header, record, "year"@), 0, u16::MAX as int),
            integer_of(field(header, record, "month"@), 0, u8::MAX as int),
            integer_of(field(header, record, "day"@), 0, u8::MAX as int),
        ) {
            (Some(index), Some(year), Some(month), Some(day)) => Some(
                (
                    index as u8,
                    InvoiceRecordView {
                        business: field(header, record, "business"@),
                        client: field(header, record, "client"@),
                        year: year as u16,
                        month: month as u8,
                        day: day as u8,
                    },
                ),
            ),
            _ => None,
        }
    }
}

/// The table of invoices that the records of a table give, the first record
/// being its header; of two records of one invoice the later counts.
pub open spec fn invoices_table(records: Seq<Seq<Seq<char>>>) -> Option<
    Map<u8, InvoiceRecordView>,
> {
    if records.len() == 0 || !has_columns(records[0], invoice_columns()) {
        None
    } else {
        match read_rows(records.skip(1), |row: Seq<Seq<char>>| invoice_record_of(records[0], row)) {
            Some(entries) => Some(keyed(entries)),
            None => None,
        }
    }
}

/// The table of invoices that a text gives. `None` where the `csv` crate reports an
/// error or the records are no such table.
pub open spec fn invoices_in(data: Seq<u8>) -> Option<Map<u8, InvoiceRecordView>> {
    match csv_records(data) {
        Some(records) => invoices_table(records),
        None => None,
    }
}

/// What a table of invoices in memory holds, by invoice.
pub open spec fn invoices_view(metadata: Map<u8, InvoiceRecord>) -> Map<u8, InvoiceRecordView> {
    metadata.map_values(|record: InvoiceRecord| record@)
}

/// The invoices of one year: their lines, and who wrote each to whom and
/// when.
pub struct Invoices {
    items: HashMap<u8, Vec<LineItem>>,
    metadata: HashMap<u8, InvoiceRecord>,
}

impl Invoices {
    /// The lines of the year, by invoice.
    pub closed spec fn ledger(&self) -> Map<u8, Seq<LineItemView>> {
        ledger_view(self.items@)
    }

    /// Business, client and date of the year's invoices, by invoice.
    pub closed spec fn metadata(&self) -> Map<u8, InvoiceRecordView> {
        invoices_view(self.metadata@)
    }

    /// The invoices of a year from its ledger and its table of invoices.
    pub fn new(items: HashMap<u8, Vec<LineItem>>, metadata: HashMap<u8, InvoiceRecord>) -> (r:
        Invoices)
        ensures
            r.ledger() == ledger_view(items@),
            r.metadata() == invoices_view(metadata@),
    {
        Invoices { items, metadata }
    }

    /// The invoices of a year from the records of its two tables, the first
    /// record of each being its header. The ledger is looked at first.
    pub fn from_records(data: &Vec<Vec<String>>, invoices: &Vec<Vec<String>>) -> (r: Result<
        Invoices,
        Error,
    >)
        ensures
            match r {
                Ok(year) => ledger_table(data.deep_view()) == Some(year.ledger())
                    && invoices_table(invoices.deep_view()) == Some(year.metadata()),
                Err(e) => if ledger_table(data.deep_view()) is None {
                    e == Error::MalformedSource(Table::Ledger)
                } else {
                    e == Error::MalformedSource(Table::Metadata) && invoices_table(
                        invoices.deep_view(),
                    ) is None
                },
            },
    {
        let items = match Invoices::costs_from_records(data) {
            Ok(items) => items,
            Err(e) => {
                return Err(e);
            },
        };
        let metadata = match Invoices::invoice_data_from_records(invoices) {
            Ok(metadata) => metadata,
            Err(e) => {
                return Err(e);
            },
        };
        Ok(Invoices { items, metadata })
    }

    /// Reads a ledger from comma-separated text.
    pub fn read_costs(data: &[u8]) -> (r: Result<HashMap<u8, Vec<LineItem>>, Error>)
        ensures
            match r {
                Ok(items) => ledger_in(data@) == Some(ledger_view(items@)),
                Err(e) => e == Error::MalformedSource(Table::Ledger) && ledger_in(data@) is None,
            },
    {
        match read_records(data) {
            Some(records) => Invoices::costs_from_records(&records),
            None => Err(Error::MalformedSource(Table::Ledger)),
        }
    }

    /// The ledger that some records give, the first being the header.
    pub fn costs_from_records(records: &Vec<Vec<String>>) -> (r: Result<
        HashMap<u8, Vec<LineItem>>,
        Error,
    >)
        ensures
            match r {
                Ok(items) => ledger_table(records.deep_view()) == Some(ledger_view(items@)),
                Err(e) => e == Error::MalformedSource(Table::Ledger) && ledger_table(
                    records.deep_view(),
                ) is None,
            },
    {
        broadcast use vstd::std_specs::hash::group_hash_axioms;

        let ghost model = records.deep_view();
        if records.len() == 0 {
            return Err(Error::MalformedSource(Table::Ledger));
        }
        let header = &records[0];
        assert(model[0] == header.deep_view());
        let names = vec!["index", "amount", "services", "attachment"];
        assert(texts(names@) =~= ledger_columns());
        let places = match find_columns(header, &names) {
            Some(places) => places,
            None => {
                return Err(Error::MalformedSource(Table::Ledger));
            },
        };
        let mut items: HashMap<u8, Vec<LineItem>> = HashMap::new();
        let ghost read = |row: Seq<Seq<char>>| line_of(model[0], row);
        let ghost mut lines: Seq<(u8, LineItemView)> = Seq::empty();
        let mut i: usize = 1;
        assert(ledger_view(items@) =~= ledger_of(lines));
        while i < records.len()
            invariant
                1 <= i <= records.len(),
                model == records.deep_view(),
                model[0] == header.deep_view(),
                read == |row: Seq<Seq<char>>| line_of(model[0], row),
                places.len() == 4,
                names.len() == 4,
                names[0]@ == "index"@,
                names[1]@ == "amount"@,
                names[2]@ == "services"@,
                names[3]@ == "attachment"@,
                forall|k: int|
                    0 <= k < names.len() ==> column_of(model[0], names[k]@) == Some(
                        #[trigger] places[k] as int,
                    ) && places[k] < header.len(),
                lines.len() == i - 1,
                forall|j: int| 0 <= j < i - 1 ==> read(#[trigger] model.skip(1)[j]) == Some(lines[j]),
                ledger_view(items@) == ledger_of(lines),
            decreases records.len() - i,
        {
            let record = &records[i];
            proof {
                assert(model[i as int] == record.deep_view());
                assert(model.skip(1)[i - 1] == model[i as int]);
            }
            if record.len() != header.len() {
                assert(read(model.skip(1)[i - 1]) is None);
                return Err(Error::MalformedSource(Table::Ledger));
            }
            proof {
                assert(record.deep_view()[places[0] as int] == record[places[0] as int]@);
                assert(record.deep_view()[places[1] as int] == record[places[1] as int]@);
                assert(record.deep_view()[places[3] as int] == record[places[3] as int]@);
            }
            let index = match parse_integer(record[places[0]].as_str(), 0, u8::MAX as i64) {
                Some(index) => index as u8,
                None => {
                    assert(read(model.skip(1)[i - 1]) is None);
                    return Err(Error::MalformedSource(Table::Ledger));
                },
            };
            let amount = match parse_integer(
                record[places[1]].as_str(),
                i32::MIN as i64,
                i32::MAX as i64,
            ) {
                Some(amount) => amount as i32,
                None => {
                    assert(read(model.skip(1)[i - 1]) is None);
                    return Err(Error::MalformedSource(Table::Ledger));
                },
            };
            let attachment = if record[places[3]].as_str().unicode_len() == 0 {
                None
            } else {
                Some(cell(record, places[3]))
            };
            let item = LineItem {
                description: cell(record, places[2]),
                amount: Money(amount),
                attachment,
            };
            let ghost before = items@;
            let mut group = match items.remove(&index) {
                Some(group) => group,
                None => Vec::new(),
            };
            proof {
                assert(read(model.skip(1)[i - 1]) == Some((index, item@)));
                assert(lines.push((index, item@)).drop_last() =~= lines);
                if before.contains_key(index) {
                    assert(ledger_view(before)[index] == items_view(group@));
                } else {
                    assert(!ledger_view(before).contains_key(index));
                    assert(items_for(lines, index).len() == 0);
                }
                assert(items_view(group@.push(item)) =~= items_view(group@).push(item@));
            }
            group.push(item);
            items.insert(index, group);
            proof {
                let after = lines.push((index, item@));
                assert forall|k: u8| #[trigger]
                    ledger_of(after).contains_key(k) == ledger_view(items@).contains_key(k) by {
                    if k != index {
                        assert(ledger_of(lines).contains_key(k) == ledger_view(before).contains_key(
                            k,
                        ));
                    }
                }
                assert forall|k: u8| #[trigger]
                    ledger_view(items@).contains_key(k) implies ledger_view(items@)[k] == ledger_of(
                    after,
                )[k] by {
                    if k != index {
                        assert(ledger_view(before).contains_key(k));
                        assert(ledger_view(before)[k] == ledger_of(lines)[k]);
                    }
                }
                assert(ledger_view(items@) =~= ledger_of(after));
                lines = after;
            }
            i = i + 1;
        }
        proof {
            let rows = model.skip(1);
            assert forall|j: int| 0 <= j < rows.len() implies (#[trigger] read(rows[j])) is Some by {
                assert(read(model.skip(1)[j]) == Some(lines[j]));
            }
            assert(rows.map_values(|row: Seq<Seq<char>>| read(row)->0) =~= lines);
        }
        Ok(items)
    }

    /// Reads the table of a year's invoices from comma-separated text.
    pub fn read_invoice_data(data: &[u8]) -> (r: Result<HashMap<u8, InvoiceRecord>, Error>)
        ensures
            match r {
                Ok(metadata) => invoices_in(data@) == Some(invoices_view(metadata@)),
                Err(e) => e == Error::MalformedSource(Table::Metadata) && invoices_in(data@) is None,
            },
    {
        match read_records(data) {
            Some(records) => Invoices::invoice_data_from_records(&records),
            None => Err(Error::MalformedSource(Table::Metadata)),
        }
    }

    /// The table of invoices that some records give, the first being the
    /// header.
    pub fn invoice_data_from_records(records: &Vec<Vec<String>>) -> (r: Result<
        HashMap<u8, InvoiceRecord>,
        Error,
    >)
        ensures
            match r {
                Ok(metadata) => invoices_table(records.deep_view()) == Some(
                    invoices_view(metadata@),
                ),
                Err(e) => e == Error::MalformedSource(Table::Metadata) && invoices_table(
                    records.deep_view(),
                ) is None,
            },
    {
        broadcast use vstd::std_specs::hash::group_hash_axioms;

        let ghost model = records.deep_view();
        if records.len() == 0 {
            return Err(Error::MalformedSource(Table::Metadata));
        }
        let header = &records[0];
        assert(model[0] == header.deep_view());
        let names = vec!["index", "business", "client", "year", "month", "day"];
        assert(texts(names@) =~= invoice_columns());
        let places = match find_columns(header, &names) {
            Some(places) => places,
            None => {
                return Err(Error::MalformedSource(Table::Metadata));
            },
        };
        let mut metadata: HashMap<u8, InvoiceRecord> = HashMap::new();
        let ghost read = |row: Seq<Seq<char>>| invoice_record_of(model[0], row);
        let ghost mut entries: Seq<(u8, InvoiceRecordView)> = Seq::empty();
        let mut i: usize = 1;
        assert(invoices_view(metadata@) =~= keyed(entries));
        while i < records.len()
            invariant
                1 <= i <= records.len(),
                model == records.deep_view(),
                model[0] == header.deep_view(),
                read == |row: Seq<Seq<char>>| invoice_record_of(model[0], row),
                places.len() == 6,
                names.len() == 6,
                names[0]@ == "index"@,
                names[1]@ == "business"@,
                names[2]@ == "client"@,
                names[3]@ == "year"@,
                names[4]@ == "month"@,
                names[5]@ == "day"@,
                forall|k: int|
                    0 <= k < names.len() ==> column_of(model[0], names[k]@) == Some(
                        #[trigger] places[k] as int,
                    ) && places[k] < header.len(),
                entries.len() == i - 1,
                forall|j: int| 0 <= j < i - 1 ==> read(#[trigger] model.skip(1)[j]) == Some(entries[j]),
                invoices_view(metadata@) == keyed(entries),
            decreases records.len() - i,
        {
            let record = &records[i];
            proof {
                assert(model[i as int] == record.deep_view());
                assert(model.skip(1)[i - 1] == model[i as int]);
            }
            if record.len() != header.len() {
                assert(read(model.skip(1)[i - 1]) is None);
                return Err(Error::MalformedSource(Table::Metadata));
            }
            proof {
                assert(record.deep_view()[places[0] as int] == record[places[0] as int]@);
                assert(record.deep_view()[places[3] as int] == record[places[3] as int]@);
                assert(record.deep_view()[places[4] as int] == record[places[4] as int]@);
                assert(record.deep_view()[places[5] as int] == record[places[5] as int]@);
            }
            let index = match parse_integer(record[places[0]].as_str(), 0, u8::MAX as i64) {
                Some(index) => index as u8,
                None => {
                    assert(read(model.skip(1)[i - 1]) is None);
                    return Err(Error::MalformedSource(Table::Metadata));
                },
            };
            let year = match parse_integer(record[places[3]].as_str(), 0, u16::MAX as i64) {
                Some(year) => year as u16,
                None => {
                    assert(read(model.skip(1)[i - 1]) is None);
                    return Err(Error::MalformedSource(Table::Metadata));
                },
            };
            let month = match parse_integer(record[places[4]].as_str(), 0, u8::MAX as i64) {
                Some(month) => month as u8,
                None => {
                    assert(read(model.skip(1)[i - 1]) is None);
                    return Err(Error::MalformedSource(Table::Metadata));
                },
            };
            let day = match parse_integer(record[places[5]].as_str(), 0, u8::MAX as i64) {
                Some(day) => day as u8,
                None => {
                    assert(read(model.skip(1)[i - 1]) is None);
                    return Err(Error::MalformedSource(Table::Metadata));
                },
            };
            let entry = InvoiceRecord {
                business: cell(record, places[1]),
                client: cell(record, places[2]),
                year,
                month,
                day,
            };
            proof {
                assert(read(model.skip(1)[i - 1]) == Some((index, entry@)));
                assert(entries.push((index, entry@)).drop_last() =~= entries);
                assert(invoices_view(metadata@.insert(index, entry)) =~= invoices_view(
                    metadata@,
                ).insert(index, entry@));
                entries = entries.push((index, entry@));
            }
            metadata.insert(index, entry);
            i = i + 1;
        }
        proof {
            let rows = model.skip(1);
            assert forall|j: int| 0 <= j < rows.len() implies (#[trigger] read(rows[j])) is Some by {
                assert(read(model.skip(1)[j]) == Some(entries[j]));
            }
            assert(rows.map_values(|row: Seq<Seq<char>>| read(row)->0) =~= entries);
        }
        Ok(metadata)
    }

    /// Reads the invoices of one year: the ledger first, then the table of
    /// invoices.
    pub fn read(data: &[u8], invoices: &[u8]) -> (r: Result<Invoices, Error>)
        ensures
            match r {
                Ok(year) => ledger_in(data@) == Some(year.ledger()) && invoices_in(invoices@)
                    == Some(year.metadata()),
                Err(e) => if ledger_in(data@) is None {
                    e == Error::MalformedSource(Table::Ledger)
                } else {
                    e == Error::MalformedSource(Table::Metadata) && invoices_in(invoices@) is None
                },
            },
    {
        let items = match Invoices::read_costs(data) {
            Ok(items) => items,
            Err(e) => {
                return Err(e);
            },
        };
        let metadata = match Invoices::read_invoice_data(invoices) {
            Ok(metadata) => metadata,
            Err(e) => {
                return Err(e);
            },
        };
        Ok(Invoices { items, metadata })
    }

    /// The lines of an invoice, and who wrote it to whom and when.
    pub fn get(&self, index: u8) -> (r: Result<(&Vec<LineItem>, &InvoiceRecord), Error>)
        ensures
            match r {
                Ok((items, record)) => {
                    &&& self.ledger().contains_key(index)
                    &&& self.ledger()[index] == items_view(items@)
                    &&& self.metadata().contains_key(index)
                    &&& self.metadata()[index] == record@
                },
                Err(e) => if !self.ledger().contains_key(index) {
                    e == Error::MissingInvoice(Table::Ledger)
                } else {
                    e == Error::MissingInvoice(Table::Metadata) && !self.metadata().contains_key(
                        index,
                    )
                },
            },
    {
        broadcast use vstd::std_specs::hash::group_hash_axioms;

        let items = match self.items.get(&index) {
            Some(items) => items,
            None => {
                return Err(Error::MissingInvoice(Table::Ledger));
            },
        };
        let record = match self.metadata.get(&index) {
            Some(record) => record,
            None => {
                return Err(Error::MissingInvoice(Table::Metadata));
            },
        };
        Ok((items, record))
    }
}

/// An invoice in memory is the one that was to be made, or the error is the
/// one that was to come.
pub open spec fn is_outcome(r: Result<Invoice, Error>, expected: Result<InvoiceView, Error>) -> bool {
    match (r, expected) {
        (Ok(invoice), Ok(view)) => invoice@ == view,
        (Err(e), Err(f)) => e == f,
        _ => false,
    }
}

/// The invoice that four tables give for an index. The ledger must have
/// lines for it and the table of invoices a record, or the invoice is
/// missing, in the first of the two that lacks it. The record's business
/// and client must be in their tables, or a reference is missing, the
/// business looked up first. The record's date must exist in the calendar.
pub open spec fn assembled(
    clients: Map<Seq<char>, ClientView>,
    businesses: Map<Seq<char>, BusinessView>,
    ledger: Map<u8, Seq<LineItemView>>,
    metadata: Map<u8, InvoiceRecordView>,
    index: InvoiceIndex,
) -> Result<InvoiceView, Error> {
    if !ledger.contains_key(index.index) {
        Err(Error::MissingInvoice(Table::Ledger))
    } else if !metadata.contains_key(index.index) {
        Err(Error::MissingInvoice(Table::Metadata))
    } else {
        let record = metadata[index.index];
        let date = DateView {
            year: record.year as int,
            month: record.month as int,
            day: record.day as int,
        };
        if !businesses.contains_key(record.business) {
            Err(Error::MissingReference(Table::Businesses))
        } else if !clients.contains_key(record.client) {
            Err(Error::MissingReference(Table::Clients))
        } else if !date.exists_in_calendar() {
            Err(Error::MalformedSource(Table::Metadata))
        } else {
            Ok(
                InvoiceView {
                    index,
                    metadata: InvoiceDataView {
                        business: businesses[record.business],
                        client: clients[record.client],
                        date,
                    },
                    items: ledger[index.index],
                },
            )
        }
    }
}

/// An invoice that has lines in the ledger but no record in the table of
/// invoices is missing.
pub proof fn lemma_missing_metadata(
    clients: Map<Seq<char>, ClientView>,
    businesses: Map<Seq<char>, BusinessView>,
    ledger: Map<u8, Seq<LineItemView>>,
    metadata: Map<u8, InvoiceRecordView>,
    index: InvoiceIndex,
)
    requires
        ledger.contains_key(index.index),
        !metadata.contains_key(index.index),
    ensures
        assembled(clients, businesses, ledger, metadata, index) == Err::<InvoiceView, Error>(
            Error::MissingInvoice(Table::Metadata),
        ),
{
}

/// An invoice whose record names a business that the table of businesses
/// lacks has a missing reference.
pub proof fn lemma_missing_business(
    clients: Map<Seq<char>, ClientView>,
    businesses: Map<Seq<char>, BusinessView>,
    ledger: Map<u8, Seq<LineItemView>>,
    metadata: Map<u8, InvoiceRecordView>,
    index: InvoiceIndex,
)
    requires
        ledger.contains_key(index.index),
        metadata.contains_key(index.index),
        !businesses.contains_key(metadata[index.index].business),
    ensures
        assembled(clients, businesses, ledger, metadata, index) == Err::<InvoiceView, Error>(
            Error::MissingReference(Table::Businesses),
        ),
{
}

/// Puts the invoice with an index together from the four tables.
pub fn assemble(
    clients: &Clients,
    businesses: &Businesses,
    invoices: &Invoices,
    index: InvoiceIndex,
) -> (r: Result<Invoice, Error>)
    ensures
        is_outcome(
            r,
            assembled(clients@, businesses@, invoices.ledger(), invoices.metadata(), index),
        ),
{
    let (items, record) = match invoices.get(index.index) {
        Ok(found) => found,
        Err(e) => {
            return Err(e);
        },
    };
    let business = match businesses.get(record.business.as_str()) {
        Some(business) => business.clone(),
        None => {
            return Err(Error::MissingReference(Table::Businesses));
        },
    };
    let client = match clients.get(record.client.as_str()) {
        Some(client) => client.clone(),
        None => {
            return Err(Error::MissingReference(Table::Clients));
        },
    };
    let date = match Date::new(record.year, record.month, record.day) {
        Some(date) => date,
        None => {
            return Err(Error::MalformedSource(Table::Metadata));
        },
    };
    Ok(Invoice { index, metadata: InvoiceData { business, client, date }, items: clone_items(items) })
}

/// The invoice that four texts give for an index: the tables are read in
/// the order clients, businesses, ledger, invoices, and the first that is
/// none decides the error; then the tables are put together.
pub open spec fn invoice_of(
    clients: Seq<u8>,
    businesses: Seq<u8>,
    data: Seq<u8>,
    invoices: Seq<u8>,
    index: InvoiceIndex,
) -> Result<InvoiceView, Error> {
    if clients_in(clients) is None {
        Err(Error::MalformedSource(Table::Clients))
    } else if businesses_in(businesses) is None {
        Err(Error::MalformedSource(Table::Businesses))
    } else if ledger_in(data) is None {
        Err(Error::MalformedSource(Table::Ledger))
    } else if invoices_in(invoices) is None {
        Err(Error::MalformedSource(Table::Metadata))
    } else {
        assembled(
            clients_in(clients)->0,
            businesses_in(businesses)->0,
            ledger_in(data)->0,
            invoices_in(invoices)->0,
            index,
        )
    }
}

/// Reads the four tables from comma-separated text and puts the invoice
/// with an index together: `clients` and `businesses` are the tables of all
/// years, `data` and `invoices` the ledger and the table of invoices of the
/// year of the index.
pub fn read_invoice(
    clients: &[u8],
    businesses: &[u8],
    data: &[u8],
    invoices: &[u8],
    index: InvoiceIndex,
) -> (r: Result<Invoice, Error>)
    ensures
        is_outcome(r, invoice_of(clients@, businesses@, data@, invoices@, index)),
{
    let clients = match Clients::from_reader(clients) {
        Ok(clients) => clients,
        Err(e) => {
            return Err(e);
        },
    };
    let businesses = match Businesses::from_reader(businesses) {
        Ok(businesses) => businesses,
        Err(e) => {
            return Err(e);
        },
    };
    let year = match Invoices::read(data, invoices) {
        Ok(year) => year,
        Err(e) => {
            return Err(e);
        },
    };
    assemble(&clients, &businesses, &year, index)
}

} // verus!
