//! Loading a catalog from comma-separated records.
//!
//! The first record is the header. It names the columns, of which three
//! count: `category`, `name` and `price`. Every further record is an item.
//! Loading stops at the first record that is no item, with the number of its
//! row: the header is row 1.

use vstd::prelude::*;
use crate::amount::{price_from, price_of};
use crate::catalog::{item_models, Item, ItemModel};
use crate::category::{category_of, classify_chars};
use crate::text::{chars_of, same_chars, trim_bounds, trimmed};

verus! {

/// A column that an item is read from.
#[derive(Clone, Copy, Debug, PartialEq, Eq, Structural)]
pub enum Column {
    Category,
    Name,
    Price,
}

/// What is wrong with a header.
#[derive(Clone, Copy, Debug, PartialEq, Eq, Structural)]
pub enum HeaderFault {
    /// No field of the header names the column.
    Missing(Column),
    /// More than one field of the header names the column.
    Repeated(Column),
}

/// Why a catalog could not be loaded.
#[derive(Clone, Debug, PartialEq, Eq)]
pub enum LoadError {
    /// The record of this row could not be read, or has not as many fields
    /// as the header.
    Unreadable { row: usize },
    /// The header does not say where this row's item stands.
    Header { row: usize, fault: HeaderFault },
    /// The price of this row writes no price.
    BadPrice { row: usize, text: String },
    /// The category of this row names no class.
    UnknownCategory { row: usize, label: String },
}

/// A load error as contracts see it.
pub enum LoadErrorModel {
    Unreadable { row: int },
    Header { row: int, fault: HeaderFault },
    BadPrice { row: int, text: Seq<char> },
    UnknownCategory { row: int, label: Seq<char> },
}

impl View for LoadError {
    type V = LoadErrorModel;

    open spec fn view(&self) -> LoadErrorModel {
        match *self {
            LoadError::Unreadable { row } => LoadErrorModel::Unreadable { row: row as int },
            LoadError::Header { row, fault } => LoadErrorModel::Header { row: row as int, fault },
            LoadError::BadPrice { row, text } => LoadErrorModel::BadPrice {
                row: row as int,
                text: text@,
            },
            LoadError::UnknownCategory { row, label } => LoadErrorModel::UnknownCategory {
                row: row as int,
                label: label@,
            },
        }
    }
}

/// The name of a column in the header.
pub open spec fn title(column: Column) -> Seq<char> {
    match column {
        Column::Category => "category"@,
        Column::Name => "name"@,
        Column::Price => "price"@,
    }
}

/// Whether the field `i` of `header` is `name`.
pub open spec fn is_at(header: Seq<Seq<char>>, name: Seq<char>, i: int) -> bool {
    0 <= i < header.len() && header[i] == name
}

/// Whether no field of `header` is `name`.
pub open spec fn is_missing(header: Seq<Seq<char>>, name: Seq<char>) -> bool {
    forall|i: int| !is_at(header, name, i)
}

/// Whether more than one field of `header` is `name`.
pub open spec fn is_repeated(header: Seq<Seq<char>>, name: Seq<char>) -> bool {
    exists|i: int, j: int| i < j && is_at(header, name, i) && is_at(header, name, j)
}

/// The place of a field of `header` that is `name`.
pub open spec fn place(header: Seq<Seq<char>>, name: Seq<char>) -> int {
    choose|i: int| is_at(header, name, i)
}

/// What is wrong with `header` about one column, if anything.
pub open spec fn column_fault(header: Seq<Seq<char>>, column: Column) -> Option<HeaderFault> {
    if is_missing(header, title(column)) {
        Some(HeaderFault::Missing(column))
    } else if is_repeated(header, title(column)) {
        Some(HeaderFault::Repeated(column))
    } else {
        None
    }
}

/// What is wrong with `header`, if anything: about the category first, then
/// the name, then the price.
pub open spec fn header_fault(header: Seq<Seq<char>>) -> Option<HeaderFault> {
    if column_fault(header, Column::Category) is Some {
        column_fault(header, Column::Category)
    } else if column_fault(header, Column::Name) is Some {
        column_fault(header, Column::Name)
    } else {
        column_fault(header, Column::Price)
    }
}

/// The item that three fields of the record at `at` make: its id is its
/// place among the items, its name loses the white space around it, its
/// price is taken as written.
pub open spec fn item_of(label: Seq<char>, name: Seq<char>, price: Seq<char>, at: int) -> Result<
    ItemModel,
    LoadErrorModel,
> {
    match price_of(price) {
        None => Err(LoadErrorModel::BadPrice { row: at + 1, text: price }),
        Some(p) => match category_of(label) {
            None => Err(LoadErrorModel::UnknownCategory { row: at + 1, label }),
            Some(category) => Ok(
                ItemModel { id: at - 1, category, name: trimmed(name), price: p },
            ),
        },
    }
}

/// The item that the record at `at` makes under `header`. A record or a
/// header that could not be read is `None`.
pub open spec fn decoded(
    header: Option<Seq<Seq<char>>>,
    record: Option<Seq<Seq<char>>>,
    at: int,
) -> Result<ItemModel, LoadErrorModel> {
    match header {
        None => Err(LoadErrorModel::Unreadable { row: 1 }),
        Some(h) => match record {
            None => Err(LoadErrorModel::Unreadable { row: at + 1 }),
            Some(r) => if r.len() != h.len() {
                Err(LoadErrorModel::Unreadable { row: at + 1 })
            } else if header_fault(h) is Some {
                Err(LoadErrorModel::Header { row: at + 1, fault: header_fault(h).unwrap() })
            } else {
                item_of(
                    r[place(h, title(Column::Category))],
                    r[place(h, title(Column::Name))],
                    r[place(h, title(Column::Price))],
                    at,
                )
            },
        },
    }
}

/// The items that the first `upto` of `records` make, the header among them,
/// or the error of the first record that makes none.
pub open spec fn loaded(records: Seq<Option<Seq<Seq<char>>>>, upto: int) -> Result<
    Seq<ItemModel>,
    LoadErrorModel,
>
    decreases upto,
{
    if upto <= 1 {
        Ok(Seq::empty())
    } else {
        match loaded(records, upto - 1) {
            Err(e) => Err(e),
            Ok(items) => match decoded(records[0], records[upto - 1], upto - 1) {
                Err(e) => Err(e),
                Ok(item) => Ok(items.push(item)),
            },
        }
    }
}

/// The catalog that `records` make.
pub open spec fn catalog_of(records: Seq<Option<Seq<Seq<char>>>>) -> Result<
    Seq<ItemModel>,
    LoadErrorModel,
> {
    loaded(records, records.len() as int)
}

/// What loading gave, as contracts see it.
pub open spec fn outcome(result: Result<Vec<Item>, LoadError>) -> Result<
    Seq<ItemModel>,
    LoadErrorModel,
> {
    match result {
        Ok(items) => Ok(item_models(items@)),
        Err(e) => Err(e@),
    }
}

/// What decoding one record gave, as contracts see it.
pub open spec fn item_outcome(result: Result<Item, LoadError>) -> Result<
    ItemModel,
    LoadErrorModel,
> {
    match result {
        Ok(item) => Ok(item@),
        Err(e) => Err(e@),
    }
}

/// Once a record has made no item, no further record changes the outcome.
pub proof fn lemma_error_stays(records: Seq<Option<Seq<Seq<char>>>>, at: int, upto: int)
    requires
        at <= upto,
        loaded(records, at) is Err,
    ensures
        loaded(records, upto) == loaded(records, at),
    decreases upto - at,
{
    if at < upto {
        lemma_error_stays(records, at, upto - 1);
    }
}

/// The items that records make are as many as the records after the
/// header, and each has its place as its id.
proof fn lemma_loaded_ids(records: Seq<Option<Seq<Seq<char>>>>, upto: int)
    ensures
        loaded(records, upto) matches Ok(items) ==> {
            &&& items.len() == if upto <= 1 {
                0
            } else {
                upto - 1
            }
            &&& forall|i: int| 0 <= i < items.len() ==> (#[trigger] items[i]).id == i
        },
    decreases upto,
{
    if upto > 1 {
        lemma_loaded_ids(records, upto - 1);
    }
}

/// The items of a loaded catalog are as many as the records after the
/// header, and each has its place as its id: no two share one.
pub proof fn law_ids_are_places(records: Seq<Option<Seq<Seq<char>>>>)
    ensures
        catalog_of(records) matches Ok(items) ==> {
            &&& records.len() <= 1 ==> items.len() == 0
            &&& records.len() > 1 ==> items.len() == records.len() - 1
            &&& forall|i: int| 0 <= i < items.len() ==> (#[trigger] items[i]).id == i
        },
{
    lemma_loaded_ids(records, records.len() as int);
}

/// Where every record up to `upto` makes an item, these are the items, in
/// the order of the records.
proof fn lemma_loaded_all(records: Seq<Option<Seq<Seq<char>>>>, upto: int)
    requires
        upto <= records.len(),
        forall|j: int| 1 <= j < upto ==> (#[trigger] decoded(records[0], records[j], j)) is Ok,
    ensures
        loaded(records, upto) matches Ok(items) && {
            &&& items.len() == if upto <= 1 {
                0
            } else {
                upto - 1
            }
            &&& forall|i: int|
                0 <= i < items.len() ==> decoded(records[0], records[i + 1], i + 1) == Ok::<
                    ItemModel,
                    LoadErrorModel,
                >(#[trigger] items[i])
        },
    decreases upto,
{
    if upto > 1 {
        lemma_loaded_all(records, upto - 1);
        assert(decoded(records[0], records[upto - 1], upto - 1) is Ok);
    }
}

/// A catalog is loaded whole where every record after the header makes an
/// item: the items are what the records make, in their order.
pub proof fn law_loading_takes_every_record(records: Seq<Option<Seq<Seq<char>>>>)
    requires
        forall|j: int|
            1 <= j < records.len() ==> (#[trigger] decoded(records[0], records[j], j)) is Ok,
    ensures
        catalog_of(records) matches Ok(items) && {
            &&& records.len() <= 1 ==> items.len() == 0
            &&& records.len() > 1 ==> items.len() == records.len() - 1
            &&& forall|i: int|
                0 <= i < items.len() ==> decoded(records[0], records[i + 1], i + 1) == Ok::<
                    ItemModel,
                    LoadErrorModel,
                >(#[trigger] items[i])
        },
{
    lemma_loaded_all(records, records.len() as int);
}

/// Loading fails with the error of the first record that makes no item,
/// whatever the records after it hold.
pub proof fn law_loading_stops_at_the_first_fault(
    records: Seq<Option<Seq<Seq<char>>>>,
    first: int,
)
    requires
        1 <= first < records.len(),
        decoded(records[0], records[first], first) is Err,
        forall|j: int| 1 <= j < first ==> (#[trigger] decoded(records[0], records[j], j)) is Ok,
    ensures
        catalog_of(records) matches Err(e) && decoded(records[0], records[first], first) == Err::<
            ItemModel,
            LoadErrorModel,
        >(e),
{
    lemma_loaded_all(records, first);
    lemma_error_stays(records, first + 1, records.len() as int);
}

/// Where a column stands in a header.
enum Search {
    Missing,
    Once(usize),
    Repeated,
}

/// The places of the three columns in a header.
struct Places {
    category: usize,
    name: usize,
    price: usize,
}

/// What a header says of where the items stand.
enum Plan {
    Unreadable,
    Faulty(HeaderFault),
    Ready(Places),
}

impl Plan {
    /// Whether this is what `header` says.
    spec fn fits(self, header: Option<Seq<Seq<char>>>) -> bool {
        match self {
            Plan::Unreadable => header is None,
            Plan::Faulty(fault) => header is Some && header_fault(header.unwrap()) == Some(fault),
            Plan::Ready(places) => {
                &&& header is Some
                &&& header_fault(header.unwrap()) is None
                &&& places.category == place(header.unwrap(), title(Column::Category))
                &&& places.name == place(header.unwrap(), title(Column::Name))
                &&& places.price == place(header.unwrap(), title(Column::Price))
                &&& places.category < header.unwrap().len()
                &&& places.name < header.unwrap().len()
                &&& places.price < header.unwrap().len()
            },
        }
    }
}

/// The name of a column in the header.
fn title_of(column: Column) -> (out: &'static str)
    ensures
        out@ == title(column),
{
    match column {
        Column::Category => "category",
        Column::Name => "name",
        Column::Price => "price",
    }
}

/// Looks for the fields of `header` that name `column`.
fn search(header: &Vec<String>, column: Column) -> (out: Search)
    ensures
        match out {
            Search::Missing => column_fault(header.deep_view(), column) == Some(
                HeaderFault::Missing(column),
            ),
            Search::Repeated => column_fault(header.deep_view(), column) == Some(
                HeaderFault::Repeated(column),
            ),
            Search::Once(i) => {
                &&& column_fault(header.deep_view(), column) is None
                &&& i == place(header.deep_view(), title(column))
                &&& i < header.len()
            },
        },
{
    let name = chars_of(title_of(column));
    let ghost fields = header.deep_view();
    let mut first: Option<usize> = None;
    let mut again: Option<usize> = None;
    let mut i: usize = 0;
    while i < header.len()
        invariant
            i <= header.len(),
            fields == header.deep_view(),
            name@ == title(column),
            first is None ==> again is None && forall|j: int| 0 <= j < i ==> !is_at(fields, name@, j),
            first matches Some(k) ==> k < i && is_at(fields, name@, k as int),
            first matches Some(k) ==> (again matches Some(l) ==> k < l && is_at(
                fields,
                name@,
                l as int,
            )),
            first matches Some(k) ==> (again is None ==> forall|j: int|
                0 <= j < i && j != k ==> !is_at(fields, name@, j)),
        decreases header.len() - i,
    {
        let field = chars_of(header[i].as_str());
        if same_chars(field.as_slice(), name.as_slice()) {
            assert(is_at(fields, name@, i as int));
            if first.is_none() {
                first = Some(i);
            } else if again.is_none() {
                again = Some(i);
            }
        }
        i += 1;
    }
    match first {
        None => Search::Missing,
        Some(k) => if again.is_some() {
            Search::Repeated
        } else {
            assert(!is_missing(fields, name@)) by {
                assert(is_at(fields, name@, k as int));
            }
            Search::Once(k)
        },
    }
}

/// Reads from `header` where the items stand.
fn plan_for(header: &Option<Vec<String>>) -> (out: Plan)
    ensures
        out.fits(header.deep_view()),
{
    match header {
        None => Plan::Unreadable,
        Some(fields) => {
            let category = match search(fields, Column::Category) {
                Search::Missing => {
                    return Plan::Faulty(HeaderFault::Missing(Column::Category));
                },
                Search::Repeated => {
                    return Plan::Faulty(HeaderFault::Repeated(Column::Category));
                },
                Search::Once(i) => i,
            };
            let name = match search(fields, Column::Name) {
                Search::Missing => {
                    return Plan::Faulty(HeaderFault::Missing(Column::Name));
                },
                Search::Repeated => {
                    return Plan::Faulty(HeaderFault::Repeated(Column::Name));
                },
                Search::Once(i) => i,
            };
            let price = match search(fields, Column::Price) {
                Search::Missing => {
                    return Plan::Faulty(HeaderFault::Missing(Column::Price));
                },
                Search::Repeated => {
                    return Plan::Faulty(HeaderFault::Repeated(Column::Price));
                },
                Search::Once(i) => i,
            };
            Plan::Ready(Places { category, name, price })
        },
    }
}

/// The item that three fields of the record at `at` make.
fn item_from(label: &str, name: &str, price: &str, at: usize) -> (out: Result<Item, LoadError>)
    requires
        1 <= at < usize::MAX,
    ensures
        item_outcome(out) == item_of(label@, name@, price@, at as int),
{
    let price_chars = chars_of(price);
    let amount = match price_from(price_chars.as_slice()) {
        None => {
            return Err(LoadError::BadPrice { row: at + 1, text: price.to_owned() });
        },
        Some(amount) => amount,
    };
    let label_chars = chars_of(label);
    let category = match classify_chars(label_chars.as_slice()) {
        None => {
            return Err(LoadError::UnknownCategory { row: at + 1, label: label.to_owned() });
        },
        Some(category) => category,
    };
    let name_chars = chars_of(name);
    let (start, end) = trim_bounds(name_chars.as_slice());
    let trimmed_name = name.substring_char(start, end).to_owned();
    Ok(Item { id: at - 1, category, name: trimmed_name, price: amount })
}

/// The item that the record at `at` makes under the header that `plan` was
/// read from.
fn decode(
    plan: &Plan,
    width: usize,
    record: &Option<Vec<String>>,
    at: usize,
    Ghost(header): Ghost<Option<Seq<Seq<char>>>>,
) -> (out: Result<Item, LoadError>)
    requires
        plan.fits(header),
        header is Some ==> width == header.unwrap().len(),
        1 <= at < usize::MAX,
    ensures
        item_outcome(out) == decoded(header, record.deep_view(), at as int),
{
    match plan {
        Plan::Unreadable => Err(LoadError::Unreadable { row: 1 }),
        Plan::Faulty(fault) => match record {
            Some(fields) if fields.len() == width => Err(
                LoadError::Header { row: at + 1, fault: *fault },
            ),
            _ => Err(LoadError::Unreadable { row: at + 1 }),
        },
        Plan::Ready(places) => match record {
            Some(fields) if fields.len() == width => item_from(
                fields[places.category].as_str(),
                fields[places.name].as_str(),
                fields[places.price].as_str(),
                at,
            ),
            _ => Err(LoadError::Unreadable { row: at + 1 }),
        },
    }
}

/// Loads the catalog that `rows` make: the header first, then one record
/// for each item. A record that could not be read is `None`.
pub fn load_rows(rows: &Vec<Option<Vec<String>>>) -> (out: Result<Vec<Item>, LoadError>)
    ensures
        outcome(out) == catalog_of(rows.deep_view()),
{
    let mut items: Vec<Item> = Vec::new();
    let ghost records = rows.deep_view();
    if rows.len() < 2 {
        assert(item_models(items@) =~= Seq::<ItemModel>::empty());
        return Ok(items);
    }
    let plan = plan_for(&rows[0]);
    let width: usize = match &rows[0] {
        Some(fields) => fields.len(),
        None => 0,
    };
    let mut at: usize = 1;
    assert(item_models(items@) =~= Seq::<ItemModel>::empty());
    while at < rows.len()
        invariant
            1 <= at <= rows.len(),
            records == rows.deep_view(),
            plan.fits(records[0]),
            records[0] is Some ==> width == records[0].unwrap().len(),
            loaded(records, at as int) == Ok::<Seq<ItemModel>, LoadErrorModel>(
                item_models(items@),
            ),
        decreases rows.len() - at,
    {
        let ghost before = items@;
        match decode(&plan, width, &rows[at], at, Ghost(records[0])) {
            Err(e) => {
                proof {
                    lemma_error_stays(records, at + 1, rows.len() as int);
                }
                return Err(e);
            },
            Ok(item) => {
                items.push(item);
                assert(item_models(items@) =~= item_models(before).push(item@));
            },
        }
        at += 1;
    }
    Ok(items)
}

/// The records that comma-separated `data` holds, the header first, each
/// with its fields in order; `None` stands for a record for which the
/// reader reports an error.
pub uninterp spec fn csv_records(data: Seq<u8>) -> Seq<Option<Seq<Seq<char>>>>;

/// Reads `data` with `csv::Reader::records`, on a reader that
/// `csv::ReaderBuilder` makes with its defaults but for `has_headers(false)`,
/// so that the header comes first among the records. Each record is given
/// by its fields, or as `None` where the reader reports an error for it.
/// The contract names what comes back and claims nothing else of it.
#[verifier::external_body]
fn read_records(data: &[u8]) -> (rows: Vec<Option<Vec<String>>>)
    ensures
        rows.deep_view() == csv_records(data@),
{
    let mut reader = csv::ReaderBuilder::new().has_headers(false).from_reader(data);
    reader.records().map(
        |read| read.ok().map(|record| record.iter().map(String::from).collect()),
    ).collect()
}

/// Loads the catalog that comma-separated `data` holds.
pub fn load_items(data: &[u8]) -> (out: Result<Vec<Item>, LoadError>)
    ensures
        outcome(out) == catalog_of(csv_records(data@)),
{
    let rows = read_records(data);
    load_rows(&rows)
}

} // verus!
