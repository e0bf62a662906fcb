//! The invoice written into a template.
//!
//! A template is an HTML document with places that ask for a field of the
//! invoice, and one place for the lines. What is written where is decided
//! here, from the fields that the places ask for; `kuchiki` reads the
//! document and takes what is written. What the document holds is stated
//! over [`Markup`], a tree of nodes, and the places in it are paths from
//! the document down.

use crate::error::{Error, ShapeFault};
use crate::invoice::{cents_text, money_text, Invoice, InvoiceView, LineItem, LineItemView};
use crate::text::text_is;
use kuchiki::traits::TendrilSink;
use kuchiki::NodeRef;
use vstd::prelude::*;

verus! {

#[verifier::external_type_specification]
#[verifier::external_body]
pub struct ExNodeRef(kuchiki::NodeRef);

/// What kind of node a place in a document holds.
pub enum Kind {
    /// A text.
    Text(Seq<char>),
    /// An element: its namespace, its name, and its attributes that are in
    /// no namespace, by their names.
    Element { namespace: Seq<char>, name: Seq<char>, attributes: Map<Seq<char>, Seq<char>> },
    /// Anything else: the document itself, a comment, a doctype.
    Other,
}

/// A node with everything below it: the model of a `NodeRef`.
pub struct Markup {
    pub kind: Kind,
    pub children: Seq<Markup>,
}

impl Markup {
    /// The path leads to a node: each of its numbers is the place of a
    /// child among the children of the node before.
    pub open spec fn has_place(self, place: Seq<int>) -> bool
        decreases place.len(),
    {
        place.len() == 0 || (0 <= place[0] < self.children.len() && self.children[place[0]].has_place(
            place.skip(1),
        ))
    }

    /// The children of the node that a path leads to.
    pub open spec fn children_at(self, place: Seq<int>) -> Seq<Markup>
        decreases place.len(),
    {
        if place.len() == 0 {
            self.children
        } else if 0 <= place[0] < self.children.len() {
            self.children[place[0]].children_at(place.skip(1))
        } else {
            Seq::empty()
        }
    }

    /// The same markup with one more child, the last, at the node that a
    /// path leads to.
    pub open spec fn with_child(self, place: Seq<int>, child: Markup) -> Markup
        decreases place.len(),
    {
        if place.len() == 0 {
            Markup { kind: self.kind, children: self.children.push(child) }
        } else if 0 <= place[0] < self.children.len() {
            Markup {
                kind: self.kind,
                children: self.children.update(
                    place[0],
                    self.children[place[0]].with_child(place.skip(1), child),
                ),
            }
        } else {
            self
        }
    }
}

/// A text node.
pub open spec fn text_markup(text: Seq<char>) -> Markup {
    Markup { kind: Kind::Text(text), children: Seq::empty() }
}

/// An element without children, with one attribute or none.
pub open spec fn element_markup(
    namespace: Seq<char>,
    name: Seq<char>,
    attribute: Option<(&str, &str)>,
) -> Markup {
    Markup {
        kind: Kind::Element {
            namespace,
            name,
            attributes: match attribute {
                Some((key, value)) => Map::empty().insert(key@, value@),
                None => Map::empty(),
            },
        },
        children: Seq::empty(),
    }
}

/// What a node holds, with everything below it.
pub uninterp spec fn markup_of(node: NodeRef) -> Markup;

/// Where a node stands in a document: the path from the document to it,
/// `None` for a node that is not part of the document.
pub uninterp spec fn place_in(document: NodeRef, node: NodeRef) -> Option<Seq<int>>;

/// The document that `kuchiki` reads from `html`.
pub uninterp spec fn html_markup(html: Seq<u8>) -> Markup;

/// What `kuchiki` selects in the document that it reads from `html`: for
/// each element that `selector` selects, in the order of the document, its
/// place in the document and the value of its attribute `attribute`, if it
/// has that attribute. `None` where `kuchiki` does not take `selector` for
/// a selector.
pub uninterp spec fn selected_in(html: Seq<u8>, selector: Seq<char>, attribute: Seq<char>) -> Option<
    Seq<(Seq<int>, Option<Seq<char>>)>,
>;

/// The attributes of what was selected.
pub open spec fn attributes_in(selected: Seq<(Seq<int>, Option<Seq<char>>)>) -> Seq<
    Option<Seq<char>>,
> {
    selected.map_values(|element: (Seq<int>, Option<Seq<char>>)| element.1)
}

/// The places of what was selected.
pub open spec fn places_in(selected: Seq<(Seq<int>, Option<Seq<char>>)>) -> Seq<Seq<int>> {
    selected.map_values(|element: (Seq<int>, Option<Seq<char>>)| element.0)
}

/// The values of an attribute that come with some elements.
pub open spec fn attributes_of(found: Seq<(NodeRef, Option<String>)>) -> Seq<Option<Seq<char>>> {
    found.map_values(|element: (NodeRef, Option<String>)| element.1.deep_view())
}

/// The places of some elements in a document.
pub open spec fn places_of(document: NodeRef, found: Seq<(NodeRef, Option<String>)>) -> Seq<
    Seq<int>,
> {
    found.map_values(|element: (NodeRef, Option<String>)| place_in(document, element.0)->0)
}

/// No place stands twice in a list of places.
pub open spec fn distinct(places: Seq<Seq<int>>) -> bool {
    forall|i: int, j: int| 0 <= i < j < places.len() ==> places[i] != places[j]
}

/// The elements found in a document are those that a selector selects in
/// the text it was read from: each stands at its place in the document and
/// comes with its attribute, and no element is found twice.
pub open spec fn found_in(
    document: NodeRef,
    found: Seq<(NodeRef, Option<String>)>,
    html: Seq<u8>,
    selector: Seq<char>,
    attribute: Seq<char>,
) -> bool {
    &&& selected_in(html, selector, attribute) matches Some(selected)
    &&& selected.len() == found.len()
    &&& forall|i: int|
        0 <= i < found.len() ==> {
            &&& place_in(document, (#[trigger] found[i]).0) == Some(selected[i].0)
            &&& found[i].1.deep_view() == selected[i].1
            &&& html_markup(html).has_place(selected[i].0)
        }
    &&& distinct(places_in(selected))
}

/// A text is short enough to be read as one piece: `kuchiki` takes it in a
/// buffer whose length is a `u32`.
pub open spec fn readable(html: Seq<u8>) -> bool {
    html.len() <= u32::MAX
}

/// `kuchiki::parse_html` on `html`, then `NodeRef::select` on the document
/// for each of two selectors, with `Attributes::get` on every element
/// found: the document, and for each selector its elements in the order of
/// the document, each with its value of one attribute. `None` where
/// `select` refuses a selector. The text must be short enough for the
/// buffer that the parser takes it in.
#[verifier::external_body]
fn open_template(html: &[u8], outputs: &str, field: &str, containers: &str, class: &str) -> (r:
    Option<(NodeRef, Vec<(NodeRef, Option<String>)>, Vec<(NodeRef, Option<String>)>)>)
    requires
        readable(html@),
    ensures
        match r {
            Some((document, first, second)) => {
                &&& markup_of(document) == html_markup(html@)
                &&& found_in(document, first@, html@, outputs@, field@)
                &&& found_in(document, second@, html@, containers@, class@)
            },
            None => selected_in(html@, outputs@, field@) is None || selected_in(
                html@,
                containers@,
                class@,
            ) is None,
        },
{
    let document = kuchiki::parse_html().from_utf8().one(html);
    let first = document.select(outputs).ok()?.map(
        |e| (e.as_node().clone(), e.attributes.borrow().get(field).map(String::from)),
    ).collect();
    let second = document.select(containers).ok()?.map(
        |e| (e.as_node().clone(), e.attributes.borrow().get(class).map(String::from)),
    ).collect();
    Some((document, first, second))
}

/// `kuchiki::NodeRef::append` with a new text node from
/// `NodeRef::new_text`: the node `place`, which is part of `document`, gets
/// the text as its last child. Nothing else in the document changes, and
/// every node of the document stays where it is.
#[verifier::external_body]
fn append_text(document: &mut NodeRef, place: &NodeRef, text: &str)
    requires
        place_in(*old(document), *place) is Some,
    ensures
        markup_of(*final(document)) == markup_of(*old(document)).with_child(
            place_in(*old(document), *place)->0,
            text_markup(text@),
        ),
        forall|node: NodeRef|
            place_in(*old(document), node) is Some ==> #[trigger] place_in(*final(document), node)
                == place_in(*old(document), node),
{
    place.append(NodeRef::new_text(text))
}

/// `kuchiki::NodeRef::append` with a new element from
/// `NodeRef::new_element`: the node `place`, which is part of `document`,
/// gets as its last child an element without children, with a name in a
/// namespace and at most one attribute, which is in no namespace. Nothing
/// else in the document changes, and every node of the document stays
/// where it is. The new element is handed back.
#[verifier::external_body]
fn append_element(
    document: &mut NodeRef,
    place: &NodeRef,
    namespace: &str,
    local: &str,
    attribute: Option<(&str, &str)>,
) -> (r: NodeRef)
    requires
        place_in(*old(document), *place) is Some,
    ensures
        markup_of(*final(document)) == markup_of(*old(document)).with_child(
            place_in(*old(document), *place)->0,
            element_markup(namespace@, local@, attribute),
        ),
        forall|node: NodeRef|
            place_in(*old(document), node) is Some ==> #[trigger] place_in(*final(document), node)
                == place_in(*old(document), node),
        place_in(*final(document), r) == Some(
            place_in(*old(document), *place)->0.push(
                markup_of(*old(document)).children_at(place_in(*old(document), *place)->0).len() as int,
            ),
        ),
{
    let name = markup5ever::QualName::new(None, namespace.into(), local.into());
    let element = NodeRef::new_element(
        name,
        attribute.map(
            |(key, value)|
                (
                    kuchiki::ExpandedName::new("", key),
                    kuchiki::Attribute { prefix: None, value: value.to_string() },
                ),
        ),
    );
    place.append(element.clone());
    element
}

/// What the filling of a template depends on: the field that each of its
/// places asks for, in the order of the document, and the number of places
/// that are marked to take the lines.
pub struct TemplateShape {
    pub fields: Vec<Option<String>>,
    pub containers: usize,
}

/// The model of a [`TemplateShape`].
pub struct ShapeView {
    pub fields: Seq<Option<Seq<char>>>,
    pub containers: nat,
}

impl View for TemplateShape {
    type V = ShapeView;

    open spec fn view(&self) -> ShapeView {
        ShapeView { fields: self.fields.deep_view(), containers: self.containers as nat }
    }
}

/// One row of the list of lines: what was done, and the amount as text.
/// The cell of the amount carries the class `num`.
#[derive(Debug, PartialEq, Eq)]
pub struct ItemRow {
    pub description: String,
    pub amount: String,
}

/// The model of an [`ItemRow`].
pub struct RowView {
    pub description: Seq<char>,
    pub amount: Seq<char>,
}

impl View for ItemRow {
    type V = RowView;

    open spec fn view(&self) -> RowView {
        RowView { description: self.description@, amount: self.amount@ }
    }
}

/// What is written into a template: a text for each place that asks for a
/// field, in the order of the document, and the rows of the lines.
#[derive(Debug, PartialEq, Eq)]
pub struct Substitution {
    pub outputs: Vec<String>,
    pub rows: Vec<ItemRow>,
}

/// The model of a [`Substitution`].
pub struct SubstitutionView {
    pub outputs: Seq<Seq<char>>,
    pub rows: Seq<RowView>,
}

impl View for Substitution {
    type V = SubstitutionView;

    open spec fn view(&self) -> SubstitutionView {
        SubstitutionView {
            outputs: self.outputs.deep_view(),
            rows: self.rows@.map_values(|row: ItemRow| row@),
        }
    }
}

/// The text of a field of an invoice; `None` where an invoice has no field
/// of that name.
pub open spec fn field_text(invoice: InvoiceView, name: Seq<char>) -> Option<Seq<char>> {
    if name == "total"@ {
        Some(money_text(invoice.total()))
    } else if name == "invoice-date"@ {
        Some(invoice.metadata.date.text())
    } else if name == "invoice-index"@ {
        Some(invoice.index.text())
    } else if name == "client-name"@ {
        Some(invoice.metadata.client.name)
    } else if name == "client-street"@ {
        Some(invoice.metadata.client.street)
    } else if name == "client-city"@ {
        Some(invoice.metadata.client.city)
    } else if name == "client-country"@ {
        Some(invoice.metadata.client.country)
    } else if name == "client-vat"@ {
        Some(invoice.metadata.client.vat)
    } else if name == "client-vat-policy"@ {
        Some(invoice.metadata.client.vatpolicy)
    } else if name == "business-name"@ {
        Some(invoice.metadata.business.name)
    } else if name == "business-street"@ {
        Some(invoice.metadata.business.street)
    } else if name == "business-city"@ {
        Some(invoice.metadata.business.city)
    } else if name == "business-country"@ {
        Some(invoice.metadata.business.country)
    } else if name == "business-vat"@ {
        Some(invoice.metadata.business.vat)
    } else if name == "business-bank"@ {
        Some(invoice.metadata.business.bank)
    } else if name == "business-iban"@ {
        Some(invoice.metadata.business.iban)
    } else if name == "business-bic"@ {
        Some(invoice.metadata.business.bic)
    } else {
        None
    }
}

/// The text that a place gets: that of the field it asks for. `None` where
/// it names no field, or one that an invoice does not have.
pub open spec fn output_text(invoice: InvoiceView, field: Option<Seq<char>>) -> Option<Seq<char>> {
    match field {
        Some(name) => field_text(invoice, name),
        None => None,
    }
}

/// The row of a line.
pub open spec fn row_of(item: LineItemView) -> RowView {
    RowView { description: item.description, amount: money_text(item.amount.0 as int) }
}

/// What is written into a template of a shape for an invoice. The places
/// that ask for a field come first: one that gets no text is a fault. Then
/// the template must have one place for the lines, not none and not
/// several. Each place then gets its text, and each line its row, in the
/// order of the lines.
pub open spec fn substitution_of(invoice: InvoiceView, shape: ShapeView) -> Result<
    SubstitutionView,
    Error,
> {
    if exists|i: int|
        0 <= i < shape.fields.len() && (#[trigger] output_text(invoice, shape.fields[i])) is None {
        Err(Error::TemplateShapeError(ShapeFault::UnknownField))
    } else if shape.containers == 0 {
        Err(Error::TemplateShapeError(ShapeFault::NoItems))
    } else if shape.containers > 1 {
        Err(Error::TemplateShapeError(ShapeFault::SeveralItems))
    } else {
        Ok(
            SubstitutionView {
                outputs: shape.fields.map_values(
                    |field: Option<Seq<char>>| output_text(invoice, field)->0,
                ),
                rows: invoice.items.map_values(|item: LineItemView| row_of(item)),
            },
        )
    }
}

/// A template with no place for the lines cannot be filled, nor one with
/// more than one: the error is of the template's shape.
pub proof fn lemma_one_items_container(invoice: InvoiceView, shape: ShapeView)
    requires
        shape.containers != 1,
    ensures
        substitution_of(invoice, shape) matches Err(Error::TemplateShapeError(_)),
{
}

/// The rows that are written are the lines of the invoice, one row for each
/// line and in the same order.
pub proof fn lemma_rows_keep_order(invoice: InvoiceView, shape: ShapeView)
    requires
        substitution_of(invoice, shape) is Ok,
    ensures
        substitution_of(invoice, shape)->Ok_0.rows.len() == invoice.items.len(),
        forall|i: int|
            0 <= i < invoice.items.len() ==> (#[trigger] substitution_of(
                invoice,
                shape,
            )->Ok_0.rows[i]) == row_of(invoice.items[i]),
{
}

/// The rows of some lines.
pub fn rows_of(items: &Vec<LineItem>) -> (r: Vec<ItemRow>)
    ensures
        r@.map_values(|row: ItemRow| row@) == crate::invoice::items_view(items@).map_values(
            |item: LineItemView| row_of(item),
        ),
{
    let mut rows: Vec<ItemRow> = Vec::new();
    let mut i: usize = 0;
    while i < items.len()
        invariant
            i <= items.len(),
            rows.len() == i,
            forall|j: int| 0 <= j < i ==> (#[trigger] rows[j])@ == row_of(items[j]@),
        decreases items.len() - i,
    {
        let row = ItemRow {
            description: items[i].description.clone(),
            amount: items[i].amount.to_string(),
        };
        rows.push(row);
        i = i + 1;
    }
    proof {
        assert(rows@.map_values(|row: ItemRow| row@) =~= crate::invoice::items_view(
            items@,
        ).map_values(|item: LineItemView| row_of(item)));
    }
    rows
}

impl Invoice {
    /// The text of a field of the invoice; `None` where an invoice has no
    /// field of that name.
    pub fn field(&self, name: &str) -> (r: Option<String>)
        ensures
            match r {
                Some(text) => field_text(self@, name@) == Some(text@),
                None => field_text(self@, name@) is None,
            },
    {
        if text_is(name, "total") {
            Some(cents_text(self.total_cents()))
        } else if text_is(name, "invoice-date") {
            Some(self.metadata.date.to_string())
        } else if text_is(name, "invoice-index") {
            Some(self.index.to_string())
        } else if text_is(name, "client-name") {
            Some(self.metadata.client.name.clone())
        } else if text_is(name, "client-street") {
            Some(self.metadata.client.street.clone())
        } else if text_is(name, "client-city") {
            Some(self.metadata.client.city.clone())
        } else if text_is(name, "client-country") {
            Some(self.metadata.client.country.clone())
        } else if text_is(name, "client-vat") {
            Some(self.metadata.client.vat.clone())
        } else if text_is(name, "client-vat-policy") {
            Some(self.metadata.client.vatpolicy.clone())
        } else if text_is(name, "business-name") {
            Some(self.metadata.business.name.clone())
        } else if text_is(name, "business-street") {
            Some(self.metadata.business.street.clone())
        } else if text_is(name, "business-city") {
            Some(self.metadata.business.city.clone())
        } else if text_is(name, "business-country") {
            Some(self.metadata.business.country.clone())
        } else if text_is(name, "business-vat") {
            Some(self.metadata.business.vat.clone())
        } else if text_is(name, "business-bank") {
            Some(self.metadata.business.bank.clone())
        } else if text_is(name, "business-iban") {
            Some(self.metadata.business.iban.clone())
        } else if text_is(name, "business-bic") {
            Some(self.metadata.business.bic.clone())
        } else {
            None
        }
    }

    /// What is written into a template of a shape for this invoice, or why
    /// the template cannot be filled.
    pub fn substitution(&self, shape: &TemplateShape) -> (r: Result<Substitution, Error>)
        ensures
            match r {
                Ok(written) => substitution_of(self@, shape@) == Ok::<SubstitutionView, Error>(
                    written@,
                ),
                Err(e) => substitution_of(self@, shape@) == Err::<SubstitutionView, Error>(e),
            },
    {
        let ghost fields = shape@.fields;
        let mut outputs: Vec<String> = Vec::new();
        let mut i: usize = 0;
        while i < shape.fields.len()
            invariant
                i <= shape.fields.len(),
                fields == shape.fields.deep_view(),
                outputs.len() == i,
                forall|j: int|
                    0 <= j < i ==> output_text(self@, #[trigger] fields[j]) == Some(outputs[j]@),
            decreases shape.fields.len() - i,
        {
            assert(fields[i as int] == shape.fields[i as int].deep_view());
            let text = match &shape.fields[i] {
                Some(name) => self.field(name.as_str()),
                None => None,
            };
            match text {
                Some(text) => {
                    outputs.push(text);
                },
                None => {
                    assert(output_text(self@, fields[i as int]) is None);
                    return Err(Error::TemplateShapeError(ShapeFault::UnknownField));
                },
            }
            i = i + 1;
        }
        if shape.containers == 0 {
            return Err(Error::TemplateShapeError(ShapeFault::NoItems));
        }
        if shape.containers > 1 {
            return Err(Error::TemplateShapeError(ShapeFault::SeveralItems));
        }
        let rows = rows_of(&self.items);
        proof {
            assert(outputs.deep_view() =~= fields.map_values(
                |field: Option<Seq<char>>| output_text(self@, field)->0,
            )) by {
                assert forall|j: int| 0 <= j < fields.len() implies outputs.deep_view()[j]
                    == output_text(self@, fields[j])->0 by {
                    assert(outputs.deep_view()[j] == outputs[j]@);
                }
            }
        }
        Ok(Substitution { outputs, rows })
    }
}

/// The shape of the template that a text holds: its places are the
/// elements `output`, each asking for the field that its attribute
/// `data-field` names, and the places for the lines are the elements of the
/// class `items`. `None` where the text is too long to be read, or the
/// document cannot be searched for them.
pub open spec fn shape_in(html: Seq<u8>) -> Option<ShapeView> {
    if !readable(html) {
        None
    } else {
        match (
            selected_in(html, "output"@, "data-field"@),
            selected_in(html, ".items"@, "class"@),
        ) {
            (Some(outputs), Some(containers)) => Some(
                ShapeView { fields: attributes_in(outputs), containers: containers.len() },
            ),
            _ => None,
        }
    }
}

/// The places that are selected in a text are places of its document: the
/// place for the lines, and every place that asks for a field.
pub open spec fn places_hold(html: Seq<u8>) -> bool {
    &&& html_markup(html).has_place(places_in(selected_in(html, ".items"@, "class"@)->0)[0])
    &&& forall|i: int|
        0 <= i < selected_in(html, "output"@, "data-field"@)->0.len() ==> html_markup(
            html,
        ).has_place(#[trigger] places_in(selected_in(html, "output"@, "data-field"@)->0)[i])
    &&& distinct(places_in(selected_in(html, "output"@, "data-field"@)->0))
}

/// What is written into the template that a text holds, for an invoice.
pub open spec fn rendering_of(invoice: InvoiceView, html: Seq<u8>) -> Result<
    SubstitutionView,
    Error,
> {
    match shape_in(html) {
        Some(shape) => substitution_of(invoice, shape),
        None => Err(Error::TemplateShapeError(ShapeFault::Unreadable)),
    }
}

/// The namespace of the elements of HTML.
pub open spec fn xhtml() -> Seq<char> {
    "http://www.w3.org/1999/xhtml"@
}

/// A markup with a text as the new last child of each of some places, one
/// place after the other.
pub open spec fn with_texts(markup: Markup, places: Seq<Seq<int>>, texts: Seq<Seq<char>>) -> Markup
    decreases places.len(),
{
    if places.len() == 0 || texts.len() != places.len() {
        markup
    } else {
        with_texts(markup, places.drop_last(), texts.drop_last()).with_child(
            places.last(),
            text_markup(texts.last()),
        )
    }
}

/// The row of a line as markup: a `tr` with two `td`, the first with what
/// was done as its text, the second of the class `num` with the amount as
/// its text.
pub open spec fn row_markup(row: RowView) -> Markup {
    Markup {
        kind: element_markup(xhtml(), "tr"@, None).kind,
        children: seq![
            Markup {
                kind: element_markup(xhtml(), "td"@, None).kind,
                children: seq![text_markup(row.description)],
            },
            Markup {
                kind: element_markup(xhtml(), "td"@, Some(("class", "num"))).kind,
                children: seq![text_markup(row.amount)],
            },
        ],
    }
}

/// A markup with the rows of some lines as the new last children of a
/// place, in the order of the lines.
pub open spec fn with_rows(markup: Markup, place: Seq<int>, rows: Seq<RowView>) -> Markup
    decreases rows.len(),
{
    if rows.len() == 0 {
        markup
    } else {
        with_rows(markup, place, rows.drop_last()).with_child(place, row_markup(rows.last()))
    }
}

/// The document that a template becomes when something is written into it:
/// each element `output` gets its text as a new last child, in the order of
/// the document, and then the element of the class `items` gets the rows as
/// new last children, after what it held.
pub open spec fn document_of(html: Seq<u8>, written: SubstitutionView) -> Markup {
    with_rows(
        with_texts(
            html_markup(html),
            places_in(selected_in(html, "output"@, "data-field"@)->0),
            written.outputs,
        ),
        places_in(selected_in(html, ".items"@, "class"@)->0)[0],
        written.rows,
    )
}

/// What is appended below a new last child of a place is part of that
/// child.
pub proof fn lemma_with_child_inside(
    markup: Markup,
    place: Seq<int>,
    child: Markup,
    inner: Seq<int>,
    grandchild: Markup,
)
    requires
        markup.has_place(place),
    ensures
        markup.with_child(place, child).with_child(
            place.push(markup.children_at(place).len() as int) + inner,
            grandchild,
        ) == markup.with_child(place, child.with_child(inner, grandchild)),
        markup.with_child(place, child).children_at(
            place.push(markup.children_at(place).len() as int) + inner,
        ) == child.children_at(inner),
    decreases place.len(),
{
    let count = markup.children_at(place).len() as int;
    let path = place.push(count) + inner;
    if place.len() == 0 {
        assert(path.skip(1) =~= inner);
        assert(markup.children.push(child).update(count, child.with_child(inner, grandchild))
            =~= markup.children.push(child.with_child(inner, grandchild)));
    } else {
        let first = place[0];
        lemma_with_child_inside(markup.children[first], place.skip(1), child, inner, grandchild);
        assert(path.skip(1) =~= place.skip(1).push(count) + inner);
        let below = markup.children[first].with_child(place.skip(1), child);
        assert(markup.children.update(first, below).update(
            first,
            below.with_child(path.skip(1), grandchild),
        ) =~= markup.children.update(
            first,
            markup.children[first].with_child(place.skip(1), child.with_child(inner, grandchild)),
        ));
    }
}

/// A row that is built cell by cell and text by text is the row of its
/// line.
pub proof fn lemma_row_built(row: RowView)
    ensures
        element_markup(xhtml(), "tr"@, None).with_child(
            Seq::empty(),
            element_markup(xhtml(), "td"@, None),
        ).with_child(seq![0int], text_markup(row.description)).with_child(
            Seq::empty(),
            element_markup(xhtml(), "td"@, Some(("class", "num"))),
        ).with_child(seq![1int], text_markup(row.amount)) == row_markup(row),
{
    let tr = element_markup(xhtml(), "tr"@, None);
    let td = element_markup(xhtml(), "td"@, None);
    let num = element_markup(xhtml(), "td"@, Some(("class", "num")));
    let first = text_markup(row.description);
    let second = text_markup(row.amount);
    let none = Seq::<int>::empty();
    assert(seq![0int].skip(1) =~= none);
    assert(seq![1int].skip(1) =~= none);
    let one = tr.with_child(none, td);
    assert(one.children =~= seq![td]);
    let filled = td.with_child(none, first);
    assert(filled.children =~= seq![first]);
    let two = one.with_child(seq![0int], first);
    assert(two.children =~= seq![filled]);
    let three = two.with_child(none, num);
    assert(three.children =~= seq![filled, num]);
    let priced = num.with_child(none, second);
    assert(priced.children =~= seq![second]);
    let four = three.with_child(seq![1int], second);
    assert(four.children =~= seq![filled, priced]);
    assert(row_markup(row).children =~= seq![filled, priced]);
}

/// A new last child somewhere leaves every place a place.
pub proof fn lemma_with_child_keeps_places(
    markup: Markup,
    place: Seq<int>,
    child: Markup,
    other: Seq<int>,
)
    requires
        markup.has_place(other),
    ensures
        markup.with_child(place, child).has_place(other),
    decreases other.len(),
{
    if other.len() > 0 && place.len() > 0 && 0 <= place[0] < markup.children.len() {
        if other[0] == place[0] {
            lemma_with_child_keeps_places(
                markup.children[place[0]],
                place.skip(1),
                child,
                other.skip(1),
            );
        }
    }
}

/// A new last child of a place is the last of its children, after those it
/// had.
pub proof fn lemma_with_child_is_last(markup: Markup, place: Seq<int>, child: Markup)
    requires
        markup.has_place(place),
    ensures
        markup.with_child(place, child).children_at(place) == markup.children_at(place).push(child),
    decreases place.len(),
{
    if place.len() > 0 {
        lemma_with_child_is_last(markup.children[place[0]], place.skip(1), child);
    }
}

/// The place for the lines holds, after the rows are written, what it held
/// before and then one row for each line, in the order of the lines.
pub proof fn lemma_rows_after_children(markup: Markup, place: Seq<int>, rows: Seq<RowView>)
    requires
        markup.has_place(place),
    ensures
        with_rows(markup, place, rows).has_place(place),
        with_rows(markup, place, rows).children_at(place) == markup.children_at(place)
            + rows.map_values(|row: RowView| row_markup(row)),
    decreases rows.len(),
{
    let made = |row: RowView| row_markup(row);
    if rows.len() == 0 {
        assert(markup.children_at(place) + rows.map_values(made) =~= markup.children_at(place));
    } else {
        let front = with_rows(markup, place, rows.drop_last());
        lemma_rows_after_children(markup, place, rows.drop_last());
        lemma_with_child_is_last(front, place, row_markup(rows.last()));
        lemma_with_child_keeps_places(front, place, row_markup(rows.last()), place);
        assert((markup.children_at(place) + rows.drop_last().map_values(made)).push(
            row_markup(rows.last()),
        ) =~= markup.children_at(place) + rows.map_values(made));
    }
}

/// Texts written into a markup leave every place a place.
pub proof fn lemma_with_texts_keeps_places(
    markup: Markup,
    places: Seq<Seq<int>>,
    texts: Seq<Seq<char>>,
    other: Seq<int>,
)
    requires
        markup.has_place(other),
    ensures
        with_texts(markup, places, texts).has_place(other),
    decreases places.len(),
{
    if places.len() > 0 && texts.len() == places.len() {
        lemma_with_texts_keeps_places(markup, places.drop_last(), texts.drop_last(), other);
        lemma_with_child_keeps_places(
            with_texts(markup, places.drop_last(), texts.drop_last()),
            places.last(),
            text_markup(texts.last()),
            other,
        );
    }
}

/// A path goes through a child of a place: it leads to that child or
/// further down below it.
pub open spec fn through(path: Seq<int>, place: Seq<int>, child: int) -> bool {
    path.len() > place.len() && path.take(place.len() as int) == place && path[place.len() as int]
        == child
}

/// A path that leads somewhere through a child of a place goes through one
/// of the children that the place has.
pub proof fn lemma_through_a_child(markup: Markup, path: Seq<int>, place: Seq<int>, child: int)
    requires
        markup.has_place(path),
        through(path, place, child),
    ensures
        0 <= child < markup.children_at(place).len(),
    decreases place.len(),
{
    if place.len() > 0 {
        assert(path.take(place.len() as int)[0] == place[0]);
        assert(path.skip(1).take(place.len() - 1) =~= place.skip(1)) by {
            assert forall|k: int| 0 <= k < place.len() - 1 implies path.skip(1).take(
                place.len() - 1,
            )[k] == place.skip(1)[k] by {
                assert(path.take(place.len() as int)[k + 1] == place[k + 1]);
            }
        }
        lemma_through_a_child(markup.children[path[0]], path.skip(1), place.skip(1), child);
    }
}

/// A new last child at one place leaves another place with as many children
/// as it had, and leaves each of them as it was unless the path to the new
/// child goes through it.
pub proof fn lemma_with_child_elsewhere(
    markup: Markup,
    path: Seq<int>,
    child: Markup,
    place: Seq<int>,
    at: int,
)
    requires
        markup.has_place(place),
        path != place,
    ensures
        markup.with_child(path, child).children_at(place).len() == markup.children_at(place).len(),
        0 <= at < markup.children_at(place).len() && !through(path, place, at) ==> markup.with_child(
            path,
            child,
        ).children_at(place)[at] == markup.children_at(place)[at],
    decreases place.len(),
{
    if place.len() == 0 {
        assert(path.len() > 0) by {
            if path.len() == 0 {
                assert(path =~= place);
            }
        }
        assert(path.take(0) =~= place);
    } else if path.len() > 0 && 0 <= path[0] < markup.children.len() && path[0] == place[0] {
        assert(path.skip(1) != place.skip(1)) by {
            if path.skip(1) == place.skip(1) {
                assert(path =~= seq![path[0]] + path.skip(1));
                assert(place =~= seq![place[0]] + place.skip(1));
            }
        }
        lemma_with_child_elsewhere(
            markup.children[place[0]],
            path.skip(1),
            child,
            place.skip(1),
            at,
        );
        if through(path.skip(1), place.skip(1), at) {
            assert(path.take(place.len() as int) =~= place) by {
                assert forall|k: int| 0 <= k < place.len() implies path.take(place.len() as int)[k]
                    == place[k] by {
                    if k > 0 {
                        assert(path.skip(1).take(place.len() - 1)[k - 1] == place.skip(1)[k - 1]);
                    }
                }
            }
            assert(through(path, place, at));
        }
    }
}

/// What a place holds once texts are written at some places: as many
/// children as it had, and one more, its text, where a text was written at
/// the place itself.
pub proof fn lemma_texts_are_written(
    markup: Markup,
    places: Seq<Seq<int>>,
    texts: Seq<Seq<char>>,
    place: Seq<int>,
)
    requires
        places.len() == texts.len(),
        distinct(places),
        forall|i: int| 0 <= i < places.len() ==> markup.has_place(#[trigger] places[i]),
        markup.has_place(place),
    ensures
        with_texts(markup, places, texts).has_place(place),
        (forall|i: int| 0 <= i < places.len() ==> #[trigger] places[i] != place) ==> with_texts(
            markup,
            places,
            texts,
        ).children_at(place).len() == markup.children_at(place).len(),
        forall|i: int|
            0 <= i < places.len() && #[trigger] places[i] == place ==> {
                &&& with_texts(markup, places, texts).children_at(place).len()
                    == markup.children_at(place).len() + 1
                &&& with_texts(markup, places, texts).children_at(place)[markup.children_at(
                    place,
                ).len() as int] == text_markup(texts[i])
            },
    decreases places.len(),
{
    lemma_with_texts_keeps_places(markup, places, texts, place);
    if places.len() > 0 {
        let front = places.drop_last();
        let front_texts = texts.drop_last();
        let before = with_texts(markup, front, front_texts);
        let last = places.last();
        let count = markup.children_at(place).len() as int;
        assert(distinct(front)) by {
            assert forall|i: int, j: int| 0 <= i < j < front.len() implies front[i] != front[j] by {
                assert(places[i] != places[j]);
            }
        }
        assert forall|i: int| 0 <= i < front.len() implies markup.has_place(#[trigger] front[i]) by {
            assert(markup.has_place(places[i]));
        }
        lemma_texts_are_written(markup, front, front_texts, place);
        lemma_with_texts_keeps_places(markup, front, front_texts, place);
        if last == place {
            assert forall|i: int| 0 <= i < front.len() implies #[trigger] front[i] != place by {
                assert(places[i] != places[places.len() - 1]);
            }
            lemma_with_child_is_last(before, place, text_markup(texts.last()));
            assert forall|i: int| 0 <= i < places.len() && #[trigger] places[i] == place implies i
                == places.len() - 1 by {
                if i < places.len() - 1 {
                    assert(places[i] != places[places.len() - 1]);
                }
            }
        } else {
            assert(markup.has_place(places[places.len() - 1]));
            lemma_with_child_elsewhere(before, last, text_markup(texts.last()), place, count);
            if through(last, place, count) {
                lemma_through_a_child(markup, last, place, count);
            }
            assert forall|i: int| 0 <= i < places.len() && #[trigger] places[i] == place implies {
                &&& with_texts(markup, places, texts).children_at(place).len() == count + 1
                &&& with_texts(markup, places, texts).children_at(place)[count] == text_markup(
                    texts[i],
                )
            } by {
                assert(i < places.len() - 1);
                assert(front[i] == place);
                assert(front_texts[i] == texts[i]);
            }
            if forall|i: int| 0 <= i < places.len() ==> #[trigger] places[i] != place {
                assert forall|i: int| 0 <= i < front.len() implies #[trigger] front[i] != place by {
                    assert(places[i] != place);
                }
            }
        }
    }
}

/// In the document that a template becomes, each place that asks for a
/// field holds what it held and, as the next child, the text that was
/// written for it, inserted as one text.
pub proof fn lemma_document_holds_texts(html: Seq<u8>, written: SubstitutionView, i: int)
    requires
        places_hold(html),
        written.outputs.len() == selected_in(html, "output"@, "data-field"@)->0.len(),
        0 <= i < written.outputs.len(),
    ensures
        ({
            let place = places_in(selected_in(html, "output"@, "data-field"@)->0)[i];
            let count = html_markup(html).children_at(place).len() as int;
            &&& document_of(html, written).has_place(place)
            &&& count < document_of(html, written).children_at(place).len()
            &&& document_of(html, written).children_at(place)[count] == text_markup(
                written.outputs[i],
            )
            &&& forall|k: int|
                0 <= k < count ==> (#[trigger] document_of(html, written).children_at(place)[k]).kind
                    == html_markup(html).children_at(place)[k].kind
        }),
{
    let markup = html_markup(html);
    let places = places_in(selected_in(html, "output"@, "data-field"@)->0);
    let container = places_in(selected_in(html, ".items"@, "class"@)->0)[0];
    let place = places[i];
    let count = markup.children_at(place).len() as int;
    let before = with_texts(markup, places, written.outputs);
    lemma_texts_are_written(markup, places, written.outputs, place);
    assert(places[i] == place);
    lemma_with_texts_keeps_places(markup, places, written.outputs, container);
    lemma_rows_after_children(before, container, written.rows);
    if through(container, place, count) {
        lemma_through_a_child(markup, container, place, count);
    }
    lemma_rows_keep(before, container, written.rows, place, count);
    assert forall|k: int| 0 <= k < count implies (#[trigger] document_of(
        html,
        written,
    ).children_at(place)[k]).kind == markup.children_at(place)[k].kind by {
        lemma_texts_keep_kinds(markup, places, written.outputs, place, k);
        lemma_rows_keep_kinds(before, container, written.rows, place, k);
    }
}

/// Rows written at one place leave another place with as many children as
/// it had, and each of them as it was unless the path to the rows goes
/// through it; at the place of the rows itself they come after what it
/// held.
pub proof fn lemma_rows_keep(
    markup: Markup,
    container: Seq<int>,
    rows: Seq<RowView>,
    place: Seq<int>,
    at: int,
)
    requires
        markup.has_place(container),
        markup.has_place(place),
        0 <= at < markup.children_at(place).len(),
        !through(container, place, at),
    ensures
        with_rows(markup, container, rows).has_place(place),
        markup.children_at(place).len() <= with_rows(markup, container, rows).children_at(
            place,
        ).len(),
        with_rows(markup, container, rows).children_at(place)[at] == markup.children_at(place)[at],
    decreases rows.len(),
{
    if rows.len() > 0 {
        let before = with_rows(markup, container, rows.drop_last());
        lemma_rows_keep(markup, container, rows.drop_last(), place, at);
        lemma_rows_after_children(markup, container, rows.drop_last());
        lemma_with_child_keeps_places(before, container, row_markup(rows.last()), place);
        if container == place {
            lemma_with_child_is_last(before, place, row_markup(rows.last()));
        } else {
            lemma_with_child_elsewhere(before, container, row_markup(rows.last()), place, at);
        }
    }
}

/// A new last child somewhere leaves the kind of every child of every
/// place.
pub proof fn lemma_with_child_keeps_kinds(
    markup: Markup,
    path: Seq<int>,
    child: Markup,
    place: Seq<int>,
    at: int,
)
    requires
        markup.has_place(place),
        0 <= at < markup.children_at(place).len(),
    ensures
        at < markup.with_child(path, child).children_at(place).len(),
        markup.with_child(path, child).children_at(place)[at].kind == markup.children_at(
            place,
        )[at].kind,
    decreases place.len(),
{
    if place.len() > 0 {
        if path.len() > 0 && 0 <= path[0] < markup.children.len() && path[0] == place[0] {
            lemma_with_child_keeps_kinds(
                markup.children[place[0]],
                path.skip(1),
                child,
                place.skip(1),
                at,
            );
        }
    } else if path.len() > 0 && 0 <= path[0] < markup.children.len() && path[0] == at {
        assert(markup.children[at].with_child(path.skip(1), child).kind
            == markup.children[at].kind);
    }
}

/// Texts written into a markup leave the kind of every child of every
/// place.
pub proof fn lemma_texts_keep_kinds(
    markup: Markup,
    places: Seq<Seq<int>>,
    texts: Seq<Seq<char>>,
    place: Seq<int>,
    at: int,
)
    requires
        markup.has_place(place),
        0 <= at < markup.children_at(place).len(),
    ensures
        with_texts(markup, places, texts).has_place(place),
        at < with_texts(markup, places, texts).children_at(place).len(),
        with_texts(markup, places, texts).children_at(place)[at].kind == markup.children_at(
            place,
        )[at].kind,
    decreases places.len(),
{
    lemma_with_texts_keeps_places(markup, places, texts, place);
    if places.len() > 0 && texts.len() == places.len() {
        lemma_texts_keep_kinds(markup, places.drop_last(), texts.drop_last(), place, at);
        lemma_with_child_keeps_kinds(
            with_texts(markup, places.drop_last(), texts.drop_last()),
            places.last(),
            text_markup(texts.last()),
            place,
            at,
        );
    }
}

/// Rows written into a markup leave the kind of every child of every
/// place.
pub proof fn lemma_rows_keep_kinds(
    markup: Markup,
    container: Seq<int>,
    rows: Seq<RowView>,
    place: Seq<int>,
    at: int,
)
    requires
        markup.has_place(place),
        0 <= at < markup.children_at(place).len(),
    ensures
        with_rows(markup, container, rows).has_place(place),
        at < with_rows(markup, container, rows).children_at(place).len(),
        with_rows(markup, container, rows).children_at(place)[at].kind == markup.children_at(
            place,
        )[at].kind,
    decreases rows.len(),
{
    if rows.len() > 0 {
        let before = with_rows(markup, container, rows.drop_last());
        lemma_rows_keep_kinds(markup, container, rows.drop_last(), place, at);
        lemma_with_child_keeps_places(before, container, row_markup(rows.last()), place);
        lemma_with_child_keeps_kinds(before, container, row_markup(rows.last()), place, at);
    }
}

/// In the document that a template becomes, the place for the lines holds
/// what it held once the texts were written, and after that one row for
/// each line, in the order of the lines: as many more children as there are
/// lines.
pub proof fn lemma_document_holds_rows(html: Seq<u8>, written: SubstitutionView)
    requires
        places_hold(html),
    ensures
        ({
            let place = places_in(selected_in(html, ".items"@, "class"@)->0)[0];
            let before = with_texts(
                html_markup(html),
                places_in(selected_in(html, "output"@, "data-field"@)->0),
                written.outputs,
            );
            &&& document_of(html, written).has_place(place)
            &&& document_of(html, written).children_at(place) == before.children_at(place)
                + written.rows.map_values(|row: RowView| row_markup(row))
            &&& document_of(html, written).children_at(place).len() == before.children_at(
                place,
            ).len() + written.rows.len()
        }),
{
    let place = places_in(selected_in(html, ".items"@, "class"@)->0)[0];
    let places = places_in(selected_in(html, "output"@, "data-field"@)->0);
    lemma_with_texts_keeps_places(html_markup(html), places, written.outputs, place);
    lemma_rows_after_children(
        with_texts(html_markup(html), places, written.outputs),
        place,
        written.rows,
    );
}

/// The attributes that come with some elements, without the elements.
fn attributes(found: &Vec<(NodeRef, Option<String>)>) -> (r: Vec<Option<String>>)
    ensures
        r.deep_view() == attributes_of(found@),
{
    let mut values: Vec<Option<String>> = Vec::new();
    let mut i: usize = 0;
    while i < found.len()
        invariant
            i <= found.len(),
            values.len() == i,
            forall|j: int| 0 <= j < i ==> (#[trigger] values[j]).deep_view() == found[j].1.deep_view(),
        decreases found.len() - i,
    {
        let value = match &found[i].1 {
            Some(value) => Some(value.clone()),
            None => None,
        };
        values.push(value);
        i = i + 1;
    }
    proof {
        assert(values.deep_view() =~= attributes_of(found@));
    }
    values
}

/// Gives each place its text, as a new text node at its end: the places
/// one after the other, in their order.
fn insert_output(
    document: &mut NodeRef,
    outputs: &Vec<(NodeRef, Option<String>)>,
    texts: &Vec<String>,
)
    requires
        outputs.len() == texts.len(),
        forall|i: int|
            0 <= i < outputs.len() ==> {
                &&& place_in(*old(document), (#[trigger] outputs[i]).0) matches Some(place)
                &&& markup_of(*old(document)).has_place(place)
            },
    ensures
        markup_of(*final(document)) == with_texts(
            markup_of(*old(document)),
            places_of(*old(document), outputs@),
            texts.deep_view(),
        ),
        forall|node: NodeRef|
            place_in(*old(document), node) is Some ==> #[trigger] place_in(*final(document), node)
                == place_in(*old(document), node),
{
    let ghost start = *document;
    let ghost places = places_of(start, outputs@);
    let ghost all = texts.deep_view();
    let mut i: usize = 0;
    while i < outputs.len()
        invariant
            i <= outputs.len(),
            outputs.len() == texts.len(),
            places == places_of(start, outputs@),
            all == texts.deep_view(),
            forall|j: int| 0 <= j < outputs.len() ==> place_in(start, (#[trigger] outputs[j]).0) is Some,
            forall|node: NodeRef|
                place_in(start, node) is Some ==> #[trigger] place_in(*document, node) == place_in(
                    start,
                    node,
                ),
            markup_of(*document) == with_texts(
                markup_of(start),
                places.take(i as int),
                all.take(i as int),
            ),
        decreases outputs.len() - i,
    {
        proof {
            assert(place_in(*document, outputs[i as int].0) == place_in(start, outputs[i as int].0));
            assert(places.take(i + 1).drop_last() =~= places.take(i as int));
            assert(all.take(i + 1).drop_last() =~= all.take(i as int));
            assert(places.take(i + 1).last() == place_in(start, outputs[i as int].0)->0);
            assert(all.take(i + 1).last() == texts[i as int]@);
        }
        append_text(document, &outputs[i].0, texts[i].as_str());
        i = i + 1;
    }
    proof {
        assert(places.take(i as int) =~= places);
        assert(all.take(i as int) =~= all);
    }
}

/// The rows of a list as the models of its rows.
pub open spec fn rows_view(rows: Seq<ItemRow>) -> Seq<RowView> {
    rows.map_values(|row: ItemRow| row@)
}

/// Appends a row for each line to the place for the lines, which must be
/// the only one: a cell with what was done, and a cell of the class `num`
/// with the amount. The rows come after what the place held, in the order
/// of the lines. Where there is no place for the lines, or more than one,
/// nothing is written.
fn insert_items(
    document: &mut NodeRef,
    containers: &Vec<(NodeRef, Option<String>)>,
    rows: &Vec<ItemRow>,
) -> (r: Result<(), Error>)
    requires
        forall|i: int|
            0 <= i < containers.len() ==> {
                &&& place_in(*old(document), (#[trigger] containers[i]).0) matches Some(place)
                &&& markup_of(*old(document)).has_place(place)
            },
    ensures
        r is Ok <==> containers.len() == 1,
        containers.len() == 0 ==> r == Err::<(), Error>(
            Error::TemplateShapeError(ShapeFault::NoItems),
        ),
        containers.len() > 1 ==> r == Err::<(), Error>(
            Error::TemplateShapeError(ShapeFault::SeveralItems),
        ),
        r is Err ==> *final(document) == *old(document),
        r is Ok ==> markup_of(*final(document)) == with_rows(
            markup_of(*old(document)),
            place_in(*old(document), containers[0].0)->0,
            rows_view(rows@),
        ),
        forall|node: NodeRef|
            place_in(*old(document), node) is Some ==> #[trigger] place_in(*final(document), node)
                == place_in(*old(document), node),
{
    if containers.len() == 0 {
        return Err(Error::TemplateShapeError(ShapeFault::NoItems));
    }
    if containers.len() > 1 {
        return Err(Error::TemplateShapeError(ShapeFault::SeveralItems));
    }
    let container = &containers[0].0;
    let namespace = "http://www.w3.org/1999/xhtml";
    let ghost start = *document;
    let ghost place = place_in(start, *container)->0;
    let ghost all = rows_view(rows@);
    let mut i: usize = 0;
    while i < rows.len()
        invariant
            i <= rows.len(),
            all == rows_view(rows@),
            namespace@ == xhtml(),
            place_in(start, *container) == Some(place),
            forall|node: NodeRef|
                place_in(start, node) is Some ==> #[trigger] place_in(*document, node) == place_in(
                    start,
                    node,
                ),
            markup_of(*document).has_place(place),
            markup_of(*document) == with_rows(markup_of(start), place, all.take(i as int)),
        decreases rows.len() - i,
    {
        let ghost before = markup_of(*document);
        let ghost count = before.children_at(place).len() as int;
        let ghost row_place = place.push(count);
        let ghost row = all[i as int];
        let ghost tr = element_markup(xhtml(), "tr"@, None);
        let ghost td = element_markup(xhtml(), "td"@, None);
        let ghost num = element_markup(xhtml(), "td"@, Some(("class", "num")));
        let ghost first = text_markup(row.description);
        let ghost second = text_markup(row.amount);
        proof {
            assert(place_in(*document, *container) == Some(place));
            assert(row == rows[i as int]@);
        }
        let row_element = append_element(document, container, namespace, "tr", None);
        proof {
            lemma_with_child_inside(before, place, tr, Seq::empty(), td);
            assert(row_place + Seq::<int>::empty() =~= row_place);
        }
        let description_cell = append_element(document, &row_element, namespace, "td", None);
        proof {
            let one = tr.with_child(Seq::empty(), td);
            assert(markup_of(*document) == before.with_child(place, one));
            lemma_with_child_inside(before, place, one, seq![0int], first);
            assert(row_place + seq![0int] =~= row_place.push(0));
        }
        append_text(document, &description_cell, rows[i].description.as_str());
        proof {
            let two = tr.with_child(Seq::empty(), td).with_child(seq![0int], first);
            assert(markup_of(*document) == before.with_child(place, two));
            lemma_with_child_inside(before, place, two, Seq::empty(), num);
            assert(two.children.len() == 1) by {
                assert(seq![0int].skip(1) =~= Seq::<int>::empty());
            }
        }
        let amount_cell = append_element(
            document,
            &row_element,
            namespace,
            "td",
            Some(("class", "num")),
        );
        proof {
            let three = tr.with_child(Seq::empty(), td).with_child(seq![0int], first).with_child(
                Seq::empty(),
                num,
            );
            assert(markup_of(*document) == before.with_child(place, three));
            lemma_with_child_inside(before, place, three, seq![1int], second);
            assert(row_place + seq![1int] =~= row_place.push(1));
        }
        append_text(document, &amount_cell, rows[i].amount.as_str());
        proof {
            let four = tr.with_child(Seq::empty(), td).with_child(seq![0int], first).with_child(
                Seq::empty(),
                num,
            ).with_child(seq![1int], second);
            assert(markup_of(*document) == before.with_child(place, four));
            lemma_row_built(row);
            lemma_with_child_keeps_places(before, place, row_markup(row), place);
            assert(all.take(i + 1).drop_last() =~= all.take(i as int));
            assert(all.take(i + 1).last() == row);
        }
        i = i + 1;
    }
    proof {
        assert(all.take(i as int) =~= all);
    }
    Ok(())
}

/// Rows written into a markup leave every place a place.
pub proof fn lemma_with_rows_keeps_places(
    markup: Markup,
    container: Seq<int>,
    rows: Seq<RowView>,
    other: Seq<int>,
)
    requires
        markup.has_place(other),
    ensures
        with_rows(markup, container, rows).has_place(other),
    decreases rows.len(),
{
    if rows.len() > 0 {
        lemma_with_rows_keeps_places(markup, container, rows.drop_last(), other);
        lemma_with_child_keeps_places(
            with_rows(markup, container, rows.drop_last()),
            container,
            row_markup(rows.last()),
            other,
        );
    }
}

/// Each of some elements stands at a place of a document.
pub open spec fn stand_in(document: NodeRef, found: Seq<(NodeRef, Option<String>)>) -> bool {
    forall|i: int|
        0 <= i < found.len() ==> {
            &&& place_in(document, (#[trigger] found[i]).0) matches Some(place)
            &&& markup_of(document).has_place(place)
        }
}

/// A template that has been read: its document, the places in it that ask
/// for a field, and the places for the lines.
pub struct Template {
    document: NodeRef,
    outputs: Vec<(NodeRef, Option<String>)>,
    containers: Vec<(NodeRef, Option<String>)>,
}

impl Template {
    /// What the document holds.
    pub closed spec fn markup(&self) -> Markup {
        markup_of(self.document)
    }

    /// The places that ask for a field, in the order of the document.
    pub closed spec fn output_places(&self) -> Seq<Seq<int>> {
        places_of(self.document, self.outputs@)
    }

    /// The field that each of these places asks for.
    pub closed spec fn fields(&self) -> Seq<Option<Seq<char>>> {
        attributes_of(self.outputs@)
    }

    /// The places for the lines, in the order of the document.
    pub closed spec fn container_places(&self) -> Seq<Seq<int>> {
        places_of(self.document, self.containers@)
    }

    /// The places of the template are places of its document.
    pub closed spec fn well_formed(&self) -> bool {
        stand_in(self.document, self.outputs@) && stand_in(self.document, self.containers@)
    }

    /// The places of a template are places of its document, and there is a
    /// field, or none, for each place that asks for one.
    pub proof fn lemma_places(&self)
        requires
            self.well_formed(),
        ensures
            self.fields().len() == self.output_places().len(),
            forall|i: int|
                0 <= i < self.output_places().len() ==> self.markup().has_place(
                    #[trigger] self.output_places()[i],
                ),
            forall|i: int|
                0 <= i < self.container_places().len() ==> self.markup().has_place(
                    #[trigger] self.container_places()[i],
                ),
    {
        assert forall|i: int| 0 <= i < self.output_places().len() implies self.markup().has_place(
            #[trigger] self.output_places()[i],
        ) by {
            assert(place_in(self.document, self.outputs[i].0) is Some);
        }
        assert forall|i: int|
            0 <= i < self.container_places().len() implies self.markup().has_place(
            #[trigger] self.container_places()[i],
        ) by {
            assert(place_in(self.document, self.containers[i].0) is Some);
        }
    }

    /// Reads a template: its elements `output` are the places that ask for
    /// a field, the one that the attribute `data-field` names, and its
    /// elements of the class `items` are the places for the lines. `None`
    /// where the text is too long to be read or cannot be searched.
    pub fn open(template: &[u8]) -> (r: Option<Template>)
        ensures
            match r {
                Some(opened) => {
                    &&& readable(template@)
                    &&& selected_in(template@, "output"@, "data-field"@) matches Some(outputs)
                    &&& selected_in(template@, ".items"@, "class"@) matches Some(containers)
                    &&& opened.markup() == html_markup(template@)
                    &&& opened.output_places() == places_in(outputs)
                    &&& opened.fields() == attributes_in(outputs)
                    &&& opened.container_places() == places_in(containers)
                    &&& opened.well_formed()
                    &&& distinct(places_in(outputs))
                },
                None => shape_in(template@) is None,
            },
    {
        if template.len() > u32::MAX as usize {
            return None;
        }
        match open_template(template, "output", "data-field", ".items", "class") {
            Some((document, outputs, containers)) => {
                proof {
                    let first = selected_in(template@, "output"@, "data-field"@)->0;
                    let second = selected_in(template@, ".items"@, "class"@)->0;
                    assert(places_of(document, outputs@) =~= places_in(first));
                    assert(attributes_of(outputs@) =~= attributes_in(first));
                    assert(places_of(document, containers@) =~= places_in(second));
                }
                Some(Template { document, outputs, containers })
            },
            None => None,
        }
    }

    /// What the filling of the template depends on.
    pub fn shape(&self) -> (r: TemplateShape)
        ensures
            r@ == (ShapeView {
                fields: self.fields(),
                containers: self.container_places().len(),
            }),
    {
        TemplateShape { fields: attributes(&self.outputs), containers: self.containers.len() }
    }

    /// Gives each place that asks for a field its text, as a new text node
    /// at its end: the places one after the other, in the order of the
    /// document.
    pub fn insert_output(&mut self, texts: &Vec<String>)
        requires
            old(self).well_formed(),
            texts.len() == old(self).output_places().len(),
        ensures
            final(self).markup() == with_texts(
                old(self).markup(),
                old(self).output_places(),
                texts.deep_view(),
            ),
            final(self).well_formed(),
            final(self).output_places() == old(self).output_places(),
            final(self).fields() == old(self).fields(),
            final(self).container_places() == old(self).container_places(),
    {
        let ghost start = self.document;
        let ghost places = places_of(start, self.outputs@);
        insert_output(&mut self.document, &self.outputs, texts);
        proof {
            assert(places_of(self.document, self.outputs@) =~= places);
            assert(places_of(self.document, self.containers@) =~= places_of(
                start,
                self.containers@,
            ));
            assert forall|i: int| 0 <= i < self.outputs.len() implies markup_of(
                self.document,
            ).has_place(place_in(self.document, (#[trigger] self.outputs[i]).0)->0) by {
                lemma_with_texts_keeps_places(
                    markup_of(start),
                    places,
                    texts.deep_view(),
                    place_in(start, self.outputs[i].0)->0,
                );
            }
            assert forall|i: int| 0 <= i < self.containers.len() implies markup_of(
                self.document,
            ).has_place(place_in(self.document, (#[trigger] self.containers[i]).0)->0) by {
                lemma_with_texts_keeps_places(
                    markup_of(start),
                    places,
                    texts.deep_view(),
                    place_in(start, self.containers[i].0)->0,
                );
            }
        }
    }

    /// Appends a row for each line to the place for the lines, which must
    /// be the only one: a cell with what was done, and a cell of the class
    /// `num` with the amount. The rows come after what the place held, in
    /// the order of the lines. Where there is no place for the lines, or
    /// more than one, nothing is written.
    pub fn insert_items(&mut self, rows: &Vec<ItemRow>) -> (r: Result<(), Error>)
        requires
            old(self).well_formed(),
        ensures
            r is Ok <==> old(self).container_places().len() == 1,
            old(self).container_places().len() == 0 ==> r == Err::<(), Error>(
                Error::TemplateShapeError(ShapeFault::NoItems),
            ),
            old(self).container_places().len() > 1 ==> r == Err::<(), Error>(
                Error::TemplateShapeError(ShapeFault::SeveralItems),
            ),
            r is Err ==> final(self).markup() == old(self).markup(),
            r is Ok ==> final(self).markup() == with_rows(
                old(self).markup(),
                old(self).container_places()[0],
                rows_view(rows@),
            ),
            final(self).well_formed(),
            final(self).output_places() == old(self).output_places(),
            final(self).fields() == old(self).fields(),
            final(self).container_places() == old(self).container_places(),
    {
        let ghost start = self.document;
        let result = insert_items(&mut self.document, &self.containers, rows);
        proof {
            assert(places_of(self.document, self.outputs@) =~= places_of(start, self.outputs@));
            assert(places_of(self.document, self.containers@) =~= places_of(
                start,
                self.containers@,
            ));
            if result is Ok {
                let container = place_in(start, self.containers[0].0)->0;
                assert forall|i: int| 0 <= i < self.outputs.len() implies markup_of(
                    self.document,
                ).has_place(place_in(self.document, (#[trigger] self.outputs[i]).0)->0) by {
                    lemma_with_rows_keeps_places(
                        markup_of(start),
                        container,
                        rows_view(rows@),
                        place_in(start, self.outputs[i].0)->0,
                    );
                }
                assert forall|i: int| 0 <= i < self.containers.len() implies markup_of(
                    self.document,
                ).has_place(place_in(self.document, (#[trigger] self.containers[i]).0)->0) by {
                    lemma_with_rows_keeps_places(
                        markup_of(start),
                        container,
                        rows_view(rows@),
                        place_in(start, self.containers[i].0)->0,
                    );
                }
            }
        }
        result
    }

    /// The document of the template, with what was written into it.
    pub fn into_document(self) -> (r: NodeRef)
        ensures
            markup_of(r) == self.markup(),
    {
        self.document
    }
}

/// Reads the shape of the template that a text holds.
pub fn read_shape(template: &[u8]) -> (r: Option<TemplateShape>)
    ensures
        match r {
            Some(shape) => shape_in(template@) == Some(shape@),
            None => shape_in(template@) is None,
        },
{
    match Template::open(template) {
        Some(opened) => Some(opened.shape()),
        None => None,
    }
}

/// Reads a template and writes an invoice into it: the document with every
/// text and every row in its place. Nothing is written unless everything
/// can be.
pub fn substitute_template(template: &[u8], invoice: &Invoice) -> (r: Result<NodeRef, Error>)
    ensures
        match r {
            Ok(document) => {
                &&& rendering_of(invoice@, template@) matches Ok(written) && markup_of(document)
                    == document_of(template@, written)
                &&& places_hold(template@)
            },
            Err(e) => rendering_of(invoice@, template@) == Err::<SubstitutionView, Error>(e),
        },
{
    let mut opened = match Template::open(template) {
        Some(opened) => opened,
        None => {
            return Err(Error::TemplateShapeError(ShapeFault::Unreadable));
        },
    };
    let written = match invoice.substitution(&opened.shape()) {
        Ok(written) => written,
        Err(e) => {
            return Err(e);
        },
    };
    proof {
        opened.lemma_places();
        assert(written.outputs.deep_view().len() == written.outputs.len());
    }
    opened.insert_output(&written.outputs);
    match opened.insert_items(&written.rows) {
        Ok(()) => Ok(opened.into_document()),
        Err(e) => Err(e),
    }
}

impl Invoice {
    /// The invoice as a document: the template with the fields of the
    /// invoice and its lines written into it.
    pub fn generate_invoice(&self, template: &[u8]) -> (r: Result<NodeRef, Error>)
        ensures
            match r {
                Ok(document) => {
                    &&& rendering_of(self@, template@) matches Ok(written) && markup_of(document)
                        == document_of(template@, written)
                    &&& places_hold(template@)
                },
                Err(e) => rendering_of(self@, template@) == Err::<SubstitutionView, Error>(e),
            },
    {
        substitute_template(template, self)
    }
}

} // verus!
