//! The item catalog: row validation, canonical ordering, summaries with a
//! content hash, and the diff between an active and a candidate catalog.
use vstd::prelude::*;
use crate::json::{json_quote, json_quoted};
use crate::clock::{now_rfc3339, rfc3339_text, timestamp_in_range};
use crate::text::{
    append, append_str, ascii_lower, chars_of, dec, eq_chars, eq_str, fmt_u64, string_of, text_lt,
    trim, trim_str, lt_chars, to_ascii_lower, join, join_chars, subrange_chars, lowercase_text,
    to_lowercase,
};

verus! {

/// Store key holding the override catalog JSON.
pub const OVERRIDE_JSON_KEY: &'static str = "item_catalog_override_json";

/// Store key holding the override catalog metadata JSON.
pub const OVERRIDE_META_JSON_KEY: &'static str = "item_catalog_override_meta_json";

/// Largest number of rows a catalog may hold.
pub const MAX_CATALOG_ITEMS: usize = 20000;

/// One catalog entry.
#[derive(Clone, Debug)]
pub struct Item {
    pub id: String,
    pub name: String,
    pub category: String,
    pub source: String,
    pub gradeable: bool,
    pub tier: Option<u32>,
    pub stack_max: Option<u32>,
}

pub struct ItemView {
    pub id: Seq<char>,
    pub name: Seq<char>,
    pub category: Seq<char>,
    pub source: Seq<char>,
    pub gradeable: bool,
    pub tier: Option<u32>,
    pub stack_max: Option<u32>,
}

impl View for Item {
    type V = ItemView;

    open spec fn view(&self) -> ItemView {
        ItemView {
            id: self.id@,
            name: self.name@,
            category: self.category@,
            source: self.source@,
            gradeable: self.gradeable,
            tier: self.tier,
            stack_max: self.stack_max,
        }
    }
}

impl Item {
    /// A copy with the same contents.
    pub fn duplicate(&self) -> (r: Item)
        ensures
            r@ == self@,
    {
        Item {
            id: self.id.clone(),
            name: self.name.clone(),
            category: self.category.clone(),
            source: self.source.clone(),
            gradeable: self.gradeable,
            tier: self.tier,
            stack_max: self.stack_max,
        }
    }
}

pub open spec fn items_view(v: Seq<Item>) -> Seq<ItemView> {
    v.map_values(|it: Item| it@)
}

pub fn duplicate_items(v: &Vec<Item>) -> (r: Vec<Item>)
    ensures
        items_view(r@) == items_view(v@),
{
    let mut out: Vec<Item> = Vec::new();
    let mut i: usize = 0;
    while i < v.len()
        invariant
            i <= v.len(),
            items_view(out@) == items_view(v@.take(i as int)),
        decreases v.len() - i,
    {
        out.push(v[i].duplicate());
        assert(items_view(v@.take(i + 1)) =~= items_view(v@.take(i as int)).push(v@[i as int]@));
        assert(items_view(out@) =~= items_view(v@.take(i + 1)));
        i += 1;
    }
    assert(v@.take(v@.len() as int) == v@);
    out
}

// ---------------------------------------------------------------------------
// Rows as the JSON layer hands them over
// ---------------------------------------------------------------------------

/// One element of the catalog's top-level JSON array.
pub enum CatalogRow {
    /// The element is not a JSON object.
    NotObject,
    /// An object: its keys in the order the JSON map lists them, and the
    /// result of decoding it into an item (the decoder's message on failure).
    Object { keys: Vec<String>, decoded: Result<Item, String> },
}

pub enum RowView {
    NotObject,
    Object { keys: Seq<Seq<char>>, decoded: Result<ItemView, Seq<char>> },
}

pub open spec fn strings_view(v: Seq<String>) -> Seq<Seq<char>> {
    v.map_values(|s: String| s@)
}

impl View for CatalogRow {
    type V = RowView;

    open spec fn view(&self) -> RowView {
        match self {
            CatalogRow::NotObject => RowView::NotObject,
            CatalogRow::Object { keys, decoded } => RowView::Object {
                keys: strings_view(keys@),
                decoded: match decoded {
                    Ok(it) => Ok(it@),
                    Err(e) => Err(e@),
                },
            },
        }
    }
}

pub open spec fn rows_view(v: Seq<CatalogRow>) -> Seq<RowView> {
    v.map_values(|r: CatalogRow| r@)
}

/// A catalog document as read from JSON text.
pub enum CatalogDocument {
    /// The text is not JSON; the parser's message.
    InvalidJson(String),
    /// The text is JSON: its elements when it is an array, `None` otherwise.
    Parsed(Option<Vec<CatalogRow>>),
}

pub enum DocumentView {
    InvalidJson(Seq<char>),
    Parsed(Option<Seq<RowView>>),
}

impl View for CatalogDocument {
    type V = DocumentView;

    open spec fn view(&self) -> DocumentView {
        match self {
            CatalogDocument::InvalidJson(e) => DocumentView::InvalidJson(e@),
            CatalogDocument::Parsed(rows) => DocumentView::Parsed(
                match rows {
                    Some(v) => Some(rows_view(v@)),
                    None => None,
                },
            ),
        }
    }
}

// ---------------------------------------------------------------------------
// Validation model
// ---------------------------------------------------------------------------

pub open spec fn allowed_key(k: Seq<char>) -> bool {
    ||| k == "id"@
    ||| k == "name"@
    ||| k == "category"@
    ||| k == "source"@
    ||| k == "gradeable"@
    ||| k == "tier"@
    ||| k == "stackMax"@
}

/// The first key that is not one of the catalog's fields.
pub open spec fn first_unknown_key(keys: Seq<Seq<char>>) -> Option<Seq<char>>
    decreases keys.len(),
{
    if keys.len() == 0 {
        None
    } else if !allowed_key(keys[0]) {
        Some(keys[0])
    } else {
        first_unknown_key(keys.drop_first())
    }
}

pub open spec fn row_prefix(row: nat) -> Seq<char> {
    "catalog row "@ + dec(row)
}

pub open spec fn row_id_prefix(row: nat, id: Seq<char>) -> Seq<char> {
    row_prefix(row) + " ("@ + id + ")"@
}

/// The first rule an item breaks, as its message (`idx` is the 0-based row).
pub open spec fn item_error(it: ItemView, idx: nat) -> Option<Seq<char>> {
    let row = idx + 1;
    if trim(it.id).len() == 0 {
        Some(row_prefix(row) + " has empty id"@)
    } else if trim(it.name).len() == 0 {
        Some(row_id_prefix(row, it.id) + " has empty name"@)
    } else if trim(it.category).len() == 0 {
        Some(row_id_prefix(row, it.id) + " has empty category"@)
    } else if trim(it.source).len() == 0 {
        Some(row_id_prefix(row, it.id) + " has empty source"@)
    } else if it.tier == Some(0u32) {
        Some(row_id_prefix(row, it.id) + " has invalid tier 0"@)
    } else if it.stack_max == Some(0u32) {
        Some(row_id_prefix(row, it.id) + " has invalid stackMax 0"@)
    } else if it.gradeable && it.stack_max != Some(1u32) {
        Some(row_id_prefix(row, it.id) + " is gradeable but does not declare stackMax 1"@)
    } else {
        None
    }
}

/// The item a row yields, or the message of the first problem found in it.
pub open spec fn row_outcome(r: RowView, idx: nat) -> Result<ItemView, Seq<char>> {
    let row = idx + 1;
    match r {
        RowView::NotObject => Err(row_prefix(row) + " must be an object"@),
        RowView::Object { keys, decoded } => match first_unknown_key(keys) {
            Some(k) => Err(row_prefix(row) + " has unknown field "@ + k),
            None => match decoded {
                Err(e) => Err(row_prefix(row) + " is invalid: "@ + e),
                Ok(it) => match item_error(it, idx) {
                    Some(m) => Err(m),
                    None => Ok(it),
                },
            },
        },
    }
}

/// The items of all rows in order, or the first row's problem.
pub open spec fn rows_items(rows: Seq<RowView>) -> Result<Seq<ItemView>, Seq<char>>
    decreases rows.len(),
{
    if rows.len() == 0 {
        Ok(seq![])
    } else {
        match rows_items(rows.drop_last()) {
            Err(e) => Err(e),
            Ok(items) => match row_outcome(rows.last(), (rows.len() - 1) as nat) {
                Err(e) => Err(e),
                Ok(it) => Ok(items.push(it)),
            },
        }
    }
}

/// The first item with exactly the given id.
pub open spec fn find_item_in(items: Seq<ItemView>, id: Seq<char>) -> Option<ItemView>
    decreases items.len(),
{
    if items.len() == 0 {
        None
    } else if items[0].id == id {
        Some(items[0])
    } else {
        find_item_in(items.drop_first(), id)
    }
}

pub open spec fn augment_id() -> Seq<char> {
    "T6_Augment_Acuracy1"@
}

pub open spec fn aluminium_id() -> Seq<char> {
    "AluminiumBar"@
}

/// The sentinel items must keep their known metadata.
pub open spec fn sentinel_error(items: Seq<ItemView>) -> Option<Seq<char>> {
    match find_item_in(items, augment_id()) {
        None => Some("sentinel item T6_Augment_Acuracy1 is missing from catalog"@),
        Some(a) => if !a.gradeable || a.tier != Some(6u32) || a.stack_max != Some(1u32) {
            Some("sentinel item T6_Augment_Acuracy1 lost gradeable/tier/stack metadata"@)
        } else {
            match find_item_in(items, aluminium_id()) {
                None => Some("sentinel item AluminiumBar is missing from catalog"@),
                Some(b) => if b.stack_max != Some(500u32) {
                    Some("sentinel item AluminiumBar lost stackMax 500"@)
                } else {
                    None
                },
            }
        },
    }
}

// ---------------------------------------------------------------------------
// Ordering model
// ---------------------------------------------------------------------------

/// The key the catalog is ordered by.
pub open spec fn sort_key(it: ItemView) -> Seq<char> {
    lowercase_text(it.id)
}

/// Inserts after every element whose key is not greater.
pub open spec fn insert_by_key(s: Seq<ItemView>, e: ItemView) -> Seq<ItemView>
    decreases s.len(),
{
    if s.len() == 0 {
        seq![e]
    } else if text_lt(sort_key(e), sort_key(s[0])) {
        seq![e] + s
    } else {
        seq![s[0]] + insert_by_key(s.drop_first(), e)
    }
}

/// Stable sort by lowercase id: each item goes after the earlier items
/// whose key is not greater than its own.
pub open spec fn sorted_items(s: Seq<ItemView>) -> Seq<ItemView>
    decreases s.len(),
{
    if s.len() == 0 {
        s
    } else {
        insert_by_key(sorted_items(s.drop_last()), s.last())
    }
}

/// The key items are looked up by.
pub open spec fn id_key(it: ItemView) -> Seq<char> {
    ascii_lower(it.id)
}

/// Adds an item to an index: replaces the entry with the same key, or
/// inserts before the first entry with a greater key.
pub open spec fn upsert(es: Seq<ItemView>, e: ItemView) -> Seq<ItemView>
    decreases es.len(),
{
    if es.len() == 0 {
        seq![e]
    } else if id_key(es[0]) == id_key(e) {
        seq![e] + es.drop_first()
    } else if text_lt(id_key(e), id_key(es[0])) {
        seq![e] + es
    } else {
        seq![es[0]] + upsert(es.drop_first(), e)
    }
}

/// One entry per lowercase id, ordered by key; a later item replaces an
/// earlier one with the same key.
pub open spec fn index_by_id(s: Seq<ItemView>) -> Seq<ItemView>
    decreases s.len(),
{
    if s.len() == 0 {
        s
    } else {
        upsert(index_by_id(s.drop_last()), s.last())
    }
}

/// The first entry with the given key.
pub open spec fn find_by_key(es: Seq<ItemView>, k: Seq<char>) -> Option<ItemView>
    decreases es.len(),
{
    if es.len() == 0 {
        None
    } else if id_key(es[0]) == k {
        Some(es[0])
    } else {
        find_by_key(es.drop_first(), k)
    }
}

// ---------------------------------------------------------------------------
// Lemmas
// ---------------------------------------------------------------------------

proof fn lemma_insert_by_key_at(s: Seq<ItemView>, e: ItemView, p: int)
    requires
        0 <= p <= s.len(),
        forall|j: int| 0 <= j < p ==> !text_lt(sort_key(e), #[trigger] sort_key(s[j])),
        p < s.len() ==> text_lt(sort_key(e), sort_key(s[p])),
    ensures
        insert_by_key(s, e) == s.insert(p, e),
    decreases s.len(),
{
    if s.len() == 0 {
        assert(s.insert(p, e) =~= seq![e]);
    } else if p == 0 {
        assert(s.insert(0, e) =~= seq![e] + s);
    } else {
        assert(!text_lt(sort_key(e), sort_key(s[0])));
        let t = s.drop_first();
        assert forall|j: int| 0 <= j < p - 1 implies !text_lt(sort_key(e), #[trigger] sort_key(t[j])) by {
            assert(t[j] == s[j + 1]);
        }
        lemma_insert_by_key_at(t, e, p - 1);
        assert(s.insert(p, e) =~= seq![s[0]] + t.insert(p - 1, e));
    }
}

proof fn lemma_upsert_at(es: Seq<ItemView>, e: ItemView, p: int)
    requires
        0 <= p <= es.len(),
        forall|j: int|
            0 <= j < p ==> id_key(#[trigger] es[j]) != id_key(e) && !text_lt(id_key(e), id_key(es[j])),
    ensures
        p < es.len() && id_key(es[p]) == id_key(e) ==> upsert(es, e) == es.update(p, e),
        p < es.len() && id_key(es[p]) != id_key(e) && text_lt(id_key(e), id_key(es[p])) ==> upsert(
            es,
            e,
        ) == es.insert(p, e),
        p == es.len() ==> upsert(es, e) == es.insert(p, e),
    decreases es.len(),
{
    if es.len() == 0 {
        assert(es.insert(p, e) =~= seq![e]);
    } else if p == 0 {
        assert(es.insert(0, e) =~= seq![e] + es);
        assert(es.update(0, e) =~= seq![e] + es.drop_first());
    } else {
        let t = es.drop_first();
        assert(id_key(es[0]) != id_key(e));
        assert forall|j: int| 0 <= j < p - 1 implies id_key(#[trigger] t[j]) != id_key(e)
            && !text_lt(id_key(e), id_key(t[j])) by {
            assert(t[j] == es[j + 1]);
        }
        lemma_upsert_at(t, e, p - 1);
        assert(es.insert(p, e) =~= seq![es[0]] + t.insert(p - 1, e));
        if p < es.len() {
            assert(es.update(p, e) =~= seq![es[0]] + t.update(p - 1, e));
        }
    }
}

pub(crate) proof fn lemma_find_by_key_at(es: Seq<ItemView>, k: Seq<char>, p: int)
    requires
        0 <= p <= es.len(),
        forall|j: int| 0 <= j < p ==> id_key(#[trigger] es[j]) != k,
        p < es.len() ==> id_key(es[p]) == k,
    ensures
        find_by_key(es, k) == (if p < es.len() {
            Some(es[p])
        } else {
            None::<ItemView>
        }),
    decreases es.len(),
{
    if es.len() > 0 && p > 0 {
        let t = es.drop_first();
        assert forall|j: int| 0 <= j < p - 1 implies id_key(#[trigger] t[j]) != k by {
            assert(t[j] == es[j + 1]);
        }
        lemma_find_by_key_at(t, k, p - 1);
    }
}

pub(crate) proof fn lemma_find_item_in_at(items: Seq<ItemView>, id: Seq<char>, p: int)
    requires
        0 <= p <= items.len(),
        forall|j: int| 0 <= j < p ==> (#[trigger] items[j]).id != id,
        p < items.len() ==> items[p].id == id,
    ensures
        find_item_in(items, id) == (if p < items.len() {
            Some(items[p])
        } else {
            None::<ItemView>
        }),
    decreases items.len(),
{
    if items.len() > 0 && p > 0 {
        let t = items.drop_first();
        assert forall|j: int| 0 <= j < p - 1 implies (#[trigger] t[j]).id != id by {
            assert(t[j] == items[j + 1]);
        }
        lemma_find_item_in_at(t, id, p - 1);
    }
}

proof fn lemma_first_unknown_skip(keys: Seq<Seq<char>>, i: int)
    requires
        0 <= i < keys.len(),
        allowed_key(keys[i]),
    ensures
        first_unknown_key(keys.skip(i)) == first_unknown_key(keys.skip(i + 1)),
{
    assert(keys.skip(i).drop_first() == keys.skip(i + 1));
}

} // verus!

verus! {

// ---------------------------------------------------------------------------
// Validation
// ---------------------------------------------------------------------------

fn row_prefix_exec(row: u64) -> (r: Vec<char>)
    ensures
        r@ == row_prefix(row as nat),
{
    let mut v = chars_of("catalog row ");
    let d = fmt_u64(row);
    append(&mut v, &d);
    v
}

fn row_id_prefix_exec(row: u64, id: &String) -> (r: Vec<char>)
    ensures
        r@ == row_id_prefix(row as nat, id@),
{
    let mut v = row_prefix_exec(row);
    append_str(&mut v, " (");
    append_str(&mut v, id.as_str());
    append_str(&mut v, ")");
    assert(v@ =~= row_id_prefix(row as nat, id@));
    v
}

fn finish(mut v: Vec<char>, tail: &str) -> (r: String)
    ensures
        r@ == v@ + tail@,
{
    append_str(&mut v, tail);
    string_of(&v)
}

fn is_blank(s: &String) -> (r: bool)
    ensures
        r == (trim(s@).len() == 0),
{
    let v = trim_str(s.as_str());
    v.len() == 0
}

/// Checks one decoded row against the catalog rules (`idx` is 0-based).
fn validate_item(item: &Item, idx: usize) -> (r: Result<(), String>)
    requires
        idx < MAX_CATALOG_ITEMS,
    ensures
        match item_error(item@, idx as nat) {
            Some(m) => r matches Err(e) && e@ == m,
            None => r is Ok,
        },
{
    let row = (idx as u64) + 1;
    if is_blank(&item.id) {
        return Err(finish(row_prefix_exec(row), " has empty id"));
    }
    if is_blank(&item.name) {
        return Err(finish(row_id_prefix_exec(row, &item.id), " has empty name"));
    }
    if is_blank(&item.category) {
        return Err(finish(row_id_prefix_exec(row, &item.id), " has empty category"));
    }
    if is_blank(&item.source) {
        return Err(finish(row_id_prefix_exec(row, &item.id), " has empty source"));
    }
    if item.tier == Some(0u32) {
        return Err(finish(row_id_prefix_exec(row, &item.id), " has invalid tier 0"));
    }
    if item.stack_max == Some(0u32) {
        return Err(finish(row_id_prefix_exec(row, &item.id), " has invalid stackMax 0"));
    }
    if item.gradeable && item.stack_max != Some(1u32) {
        return Err(
            finish(
                row_id_prefix_exec(row, &item.id),
                " is gradeable but does not declare stackMax 1",
            ),
        );
    }
    Ok(())
}

fn is_allowed_key(k: &String) -> (r: bool)
    ensures
        r == allowed_key(k@),
{
    let v = chars_of(k.as_str());
    eq_str(&v, "id") || eq_str(&v, "name") || eq_str(&v, "category") || eq_str(&v, "source")
        || eq_str(&v, "gradeable") || eq_str(&v, "tier") || eq_str(&v, "stackMax")
}

/// Rejects a row that carries a key outside the catalog's fields.
fn reject_unknown_keys(idx: usize, keys: &Vec<String>) -> (r: Result<(), String>)
    requires
        idx < MAX_CATALOG_ITEMS,
    ensures
        match first_unknown_key(strings_view(keys@)) {
            Some(k) => r matches Err(e) && e@ == row_prefix((idx + 1) as nat) + " has unknown field "@
                + k,
            None => r is Ok,
        },
{
    let ghost ks = strings_view(keys@);
    let mut i: usize = 0;
    assert(ks.skip(0) == ks);
    while i < keys.len()
        invariant
            i <= keys.len(),
            idx < MAX_CATALOG_ITEMS,
            ks == strings_view(keys@),
            first_unknown_key(ks) == first_unknown_key(ks.skip(i as int)),
        decreases keys.len() - i,
    {
        if !is_allowed_key(&keys[i]) {
            assert(ks.skip(i as int)[0] == ks[i as int]);
            let mut v = row_prefix_exec((idx as u64) + 1);
            append_str(&mut v, " has unknown field ");
            append_str(&mut v, keys[i].as_str());
            return Err(string_of(&v));
        }
        proof {
            lemma_first_unknown_skip(ks, i as int);
        }
        i += 1;
    }
    assert(ks.skip(i as int).len() == 0);
    Ok(())
}

/// The item one row yields, or the first problem found in it.
fn row_item(row: &CatalogRow, idx: usize) -> (r: Result<Item, String>)
    requires
        idx < MAX_CATALOG_ITEMS,
    ensures
        match row_outcome(row@, idx as nat) {
            Ok(it) => r matches Ok(x) && x@ == it,
            Err(m) => r matches Err(e) && e@ == m,
        },
{
    match row {
        CatalogRow::NotObject => Err(finish(row_prefix_exec((idx as u64) + 1), " must be an object")),
        CatalogRow::Object { keys, decoded } => {
            match reject_unknown_keys(idx, keys) {
                Err(e) => return Err(e),
                Ok(()) => {},
            }
            match decoded {
                Err(msg) => {
                    let mut v = row_prefix_exec((idx as u64) + 1);
                    append_str(&mut v, " is invalid: ");
                    append_str(&mut v, msg.as_str());
                    Err(string_of(&v))
                },
                Ok(item) => {
                    match validate_item(item, idx) {
                        Err(e) => Err(e),
                        Ok(()) => Ok(item.duplicate()),
                    }
                },
            }
        },
    }
}

/// The first item with exactly the given id.
pub(crate) fn find_item(items: &Vec<Item>, id: &str) -> (r: Option<usize>)
    ensures
        match find_item_in(items_view(items@), id@) {
            Some(it) => r matches Some(p) && p < items@.len() && items@[p as int]@ == it,
            None => r is None,
        },
{
    let target = chars_of(id);
    let ghost vs = items_view(items@);
    let mut i: usize = 0;
    while i < items.len()
        invariant
            i <= items.len(),
            vs == items_view(items@),
            target@ == id@,
            forall|j: int| 0 <= j < i ==> (#[trigger] vs[j]).id != id@,
        decreases items.len() - i,
    {
        let cand = chars_of(items[i].id.as_str());
        assert(vs[i as int] == items@[i as int]@);
        if eq_chars(&cand, &target) {
            proof {
                lemma_find_item_in_at(vs, id@, i as int);
            }
            return Some(i);
        }
        i += 1;
    }
    proof {
        lemma_find_item_in_at(vs, id@, i as int);
    }
    None
}

/// The sentinel items must be present with their known metadata.
fn validate_sentinel_items(items: &Vec<Item>) -> (r: Result<(), String>)
    ensures
        match sentinel_error(items_view(items@)) {
            Some(m) => r matches Err(e) && e@ == m,
            None => r is Ok,
        },
{
    let augment = match find_item(items, "T6_Augment_Acuracy1") {
        None => {
            let e = chars_of("sentinel item T6_Augment_Acuracy1 is missing from catalog");
            return Err(string_of(&e));
        },
        Some(p) => p,
    };
    let a = &items[augment];
    if !a.gradeable || a.tier != Some(6u32) || a.stack_max != Some(1u32) {
        let e = chars_of("sentinel item T6_Augment_Acuracy1 lost gradeable/tier/stack metadata");
        return Err(string_of(&e));
    }
    let aluminium = match find_item(items, "AluminiumBar") {
        None => {
            let e = chars_of("sentinel item AluminiumBar is missing from catalog");
            return Err(string_of(&e));
        },
        Some(p) => p,
    };
    if items[aluminium].stack_max != Some(500u32) {
        let e = chars_of("sentinel item AluminiumBar lost stackMax 500");
        return Err(string_of(&e));
    }
    Ok(())
}

} // verus!

verus! {

// ---------------------------------------------------------------------------
// Ordering and indexing
// ---------------------------------------------------------------------------

fn sort_key_exec(item: &Item) -> (r: Vec<char>)
    ensures
        r@ == sort_key(item@),
{
    let l = to_lowercase(item.id.as_str());
    chars_of(l.as_str())
}

/// Items in canonical order: stably sorted by lowercase id.
pub fn sort_items(items: Vec<Item>) -> (r: Vec<Item>)
    ensures
        items_view(r@) == sorted_items(items_view(items@)),
{
    let ghost src = items_view(items@);
    let mut out: Vec<Item> = Vec::new();
    let mut keys: Vec<Vec<char>> = Vec::new();
    let mut i: usize = 0;
    while i < items.len()
        invariant
            i <= items.len(),
            src == items_view(items@),
            items_view(out@) == sorted_items(src.take(i as int)),
            keys.len() == out.len(),
            forall|j: int| 0 <= j < keys.len() ==> (#[trigger] keys@[j])@ == sort_key(out@[j]@),
        decreases items.len() - i,
    {
        let key = sort_key_exec(&items[i]);
        let ghost cur = items_view(out@);
        let mut p: usize = 0;
        while p < keys.len() && !lt_chars(&key, &keys[p])
            invariant
                p <= keys.len(),
                keys.len() == out.len(),
                cur == items_view(out@),
                key@ == sort_key(items@[i as int]@),
                forall|j: int| 0 <= j < keys.len() ==> (#[trigger] keys@[j])@ == sort_key(out@[j]@),
                forall|j: int| 0 <= j < p ==> !text_lt(key@, #[trigger] sort_key(cur[j])),
            decreases keys.len() - p,
        {
            assert(cur[p as int] == out@[p as int]@);
            p += 1;
        }
        proof {
            if p < keys.len() {
                assert(cur[p as int] == out@[p as int]@);
            }
            assert(src.take(i + 1).drop_last() == src.take(i as int));
            assert(src.take(i + 1).last() == items@[i as int]@);
            lemma_insert_by_key_at(cur, items@[i as int]@, p as int);
        }
        let it = items[i].duplicate();
        let ghost old_keys = keys@;
        out.insert(p, it);
        keys.insert(p, key);
        proof {
            assert(items_view(out@) =~= cur.insert(p as int, items@[i as int]@));
            assert forall|j: int| 0 <= j < keys.len() implies (#[trigger] keys@[j])@ == sort_key(
                out@[j]@,
            ) by {
                if j < p {
                } else if j == p {
                } else {
                    assert(keys@[j] == old_keys[j - 1]);
                }
            }
        }
        i += 1;
    }
    assert(src.take(items.len() as int) == src);
    out
}

fn id_key_exec(item: &Item) -> (r: Vec<char>)
    ensures
        r@ == id_key(item@),
{
    let v = chars_of(item.id.as_str());
    to_ascii_lower(&v)
}

/// One entry per lowercase id, ordered by key; later items replace earlier
/// ones with the same key.
fn by_id(items: &Vec<Item>) -> (r: Vec<Item>)
    ensures
        items_view(r@) == index_by_id(items_view(items@)),
{
    let ghost src = items_view(items@);
    let mut out: Vec<Item> = Vec::new();
    let mut keys: Vec<Vec<char>> = Vec::new();
    let mut i: usize = 0;
    while i < items.len()
        invariant
            i <= items.len(),
            src == items_view(items@),
            items_view(out@) == index_by_id(src.take(i as int)),
            keys.len() == out.len(),
            forall|j: int| 0 <= j < keys.len() ==> (#[trigger] keys@[j])@ == id_key(out@[j]@),
        decreases items.len() - i,
    {
        let key = id_key_exec(&items[i]);
        let ghost cur = items_view(out@);
        let ghost e = items@[i as int]@;
        let mut p: usize = 0;
        while p < keys.len() && !eq_chars(&key, &keys[p]) && !lt_chars(&key, &keys[p])
            invariant
                p <= keys.len(),
                keys.len() == out.len(),
                cur == items_view(out@),
                e == items@[i as int]@,
                key@ == id_key(e),
                forall|j: int| 0 <= j < keys.len() ==> (#[trigger] keys@[j])@ == id_key(out@[j]@),
                forall|j: int|
                    0 <= j < p ==> id_key(#[trigger] cur[j]) != id_key(e) && !text_lt(
                        id_key(e),
                        id_key(cur[j]),
                    ),
            decreases keys.len() - p,
        {
            assert(cur[p as int] == out@[p as int]@);
            p += 1;
        }
        proof {
            if p < keys.len() {
                assert(cur[p as int] == out@[p as int]@);
            }
            assert(src.take(i + 1).drop_last() == src.take(i as int));
            assert(src.take(i + 1).last() == e);
            lemma_upsert_at(cur, e, p as int);
        }
        let it = items[i].duplicate();
        if p < keys.len() && eq_chars(&key, &keys[p]) {
            out.set(p, it);
            keys.set(p, key);
            proof {
                assert(items_view(out@) =~= cur.update(p as int, e));
            }
        } else {
            let ghost old_keys = keys@;
            out.insert(p, it);
            keys.insert(p, key);
            proof {
                assert(items_view(out@) =~= cur.insert(p as int, e));
                assert forall|j: int| 0 <= j < keys.len() implies (#[trigger] keys@[j])@ == id_key(
                    out@[j]@,
                ) by {
                    if j > p {
                        assert(keys@[j] == old_keys[j - 1]);
                    }
                }
            }
        }
        i += 1;
    }
    assert(src.take(items.len() as int) == src);
    out
}

/// The position of the first entry with the given lookup key.
fn find_key(entries: &Vec<Item>, key: &Vec<char>) -> (r: Option<usize>)
    ensures
        match find_by_key(items_view(entries@), key@) {
            Some(it) => r matches Some(p) && p < entries@.len() && entries@[p as int]@ == it,
            None => r is None,
        },
{
    let ghost vs = items_view(entries@);
    let mut i: usize = 0;
    while i < entries.len()
        invariant
            i <= entries.len(),
            vs == items_view(entries@),
            forall|j: int| 0 <= j < i ==> id_key(#[trigger] vs[j]) != key@,
        decreases entries.len() - i,
    {
        let k = id_key_exec(&entries[i]);
        assert(vs[i as int] == entries@[i as int]@);
        if eq_chars(&k, key) {
            proof {
                lemma_find_by_key_at(vs, key@, i as int);
            }
            return Some(i);
        }
        i += 1;
    }
    proof {
        lemma_find_by_key_at(vs, key@, i as int);
    }
    None
}

// ---------------------------------------------------------------------------
// Parsing a catalog
// ---------------------------------------------------------------------------

/// The validated catalog a JSON value yields (`None` when the value is not
/// an array): every row must be an object with known keys that decodes into
/// an item obeying the rules, the sentinel items must keep their metadata,
/// and the result is in canonical order.
pub open spec fn catalog_from_rows(rows: Option<Seq<RowView>>) -> Result<Seq<ItemView>, Seq<char>> {
    match rows {
        None => Err("catalog root must be a JSON array"@),
        Some(rs) => if rs.len() == 0 {
            Err("catalog must contain at least one item"@)
        } else if rs.len() > MAX_CATALOG_ITEMS {
            Err("catalog contains "@ + dec(rs.len()) + " items, over safety limit 20000"@)
        } else {
            match rows_items(rs) {
                Err(e) => Err(e),
                Ok(items) => match sentinel_error(items) {
                    Some(e) => Err(e),
                    None => Ok(sorted_items(items)),
                },
            }
        },
    }
}

pub open spec fn catalog_from_document(doc: DocumentView) -> Result<Seq<ItemView>, Seq<char>> {
    match doc {
        DocumentView::InvalidJson(e) => Err("invalid JSON: "@ + e),
        DocumentView::Parsed(rows) => catalog_from_rows(rows),
    }
}

pub open spec fn items_result_view(r: Result<Vec<Item>, String>) -> Result<Seq<ItemView>, Seq<char>> {
    match r {
        Ok(v) => Ok(items_view(v@)),
        Err(e) => Err(e@),
    }
}

pub open spec fn opt_rows_view(rows: Option<Vec<CatalogRow>>) -> Option<Seq<RowView>> {
    match rows {
        Some(v) => Some(rows_view(v@)),
        None => None,
    }
}

/// Validates a catalog given as the elements of a JSON value.
pub fn parse_and_validate_catalog_value(rows: &Option<Vec<CatalogRow>>) -> (r: Result<
    Vec<Item>,
    String,
>)
    ensures
        items_result_view(r) == catalog_from_rows(opt_rows_view(*rows)),
{
    let rs = match rows {
        None => {
            return Err(string_of(&chars_of("catalog root must be a JSON array")));
        },
        Some(rs) => rs,
    };
    if rs.len() == 0 {
        return Err(string_of(&chars_of("catalog must contain at least one item")));
    }
    if rs.len() > MAX_CATALOG_ITEMS {
        let mut v = chars_of("catalog contains ");
        let d = fmt_u64(rs.len() as u64);
        append(&mut v, &d);
        append_str(&mut v, " items, over safety limit 20000");
        return Err(string_of(&v));
    }
    let ghost rv = rows_view(rs@);
    let mut items: Vec<Item> = Vec::new();
    let mut i: usize = 0;
    assert(rv.take(0) =~= Seq::<RowView>::empty());
    assert(items_view(items@) =~= Seq::<ItemView>::empty());
    while i < rs.len()
        invariant
            i <= rs.len() <= MAX_CATALOG_ITEMS,
            rs.len() > 0,
            rv == rows_view(rs@),
            opt_rows_view(*rows) == Some(rv),
            rows_items(rv.take(i as int)) == Ok::<Seq<ItemView>, Seq<char>>(items_view(items@)),
        decreases rs.len() - i,
    {
        assert(rv.take(i + 1).drop_last() == rv.take(i as int));
        assert(rv.take(i + 1).last() == rs@[i as int]@);
        match row_item(&rs[i], i) {
            Err(e) => {
                proof {
                    lemma_rows_items_err_extends(rv, (i + 1) as int);
                }
                return Err(e);
            },
            Ok(item) => {
                let ghost before = items@;
                let ghost iv = item@;
                items.push(item);
                assert(items_view(items@) =~= items_view(before).push(iv));
            },
        }
        i += 1;
    }
    assert(rv.take(rs.len() as int) == rv);
    match validate_sentinel_items(&items) {
        Err(e) => Err(e),
        Ok(()) => Ok(sort_items(items)),
    }
}

proof fn lemma_rows_items_err_extends(rows: Seq<RowView>, k: int)
    requires
        0 <= k <= rows.len(),
        rows_items(rows.take(k)) is Err,
    ensures
        rows_items(rows) == rows_items(rows.take(k)),
    decreases rows.len() - k,
{
    if k < rows.len() {
        assert(rows.take(k + 1).drop_last() == rows.take(k));
        lemma_rows_items_err_extends(rows, k + 1);
    } else {
        assert(rows.take(k) == rows);
    }
}

/// Validates a catalog given as JSON text (already read by the JSON layer).
pub fn parse_and_validate_catalog_json(doc: &CatalogDocument) -> (r: Result<Vec<Item>, String>)
    ensures
        items_result_view(r) == catalog_from_document(doc@),
{
    match doc {
        CatalogDocument::InvalidJson(e) => {
            let mut v = chars_of("invalid JSON: ");
            append_str(&mut v, e.as_str());
            Err(string_of(&v))
        },
        CatalogDocument::Parsed(rows) => parse_and_validate_catalog_value(rows),
    }
}

} // verus!

verus! {

// ---------------------------------------------------------------------------
// Canonical JSON and the catalog hash
// ---------------------------------------------------------------------------

pub open spec fn opt_number_text(o: Option<u32>) -> Seq<char> {
    match o {
        Some(n) => dec(n as nat),
        None => "null"@,
    }
}

pub open spec fn bool_text(b: bool) -> Seq<char> {
    if b {
        "true"@
    } else {
        "false"@
    }
}

/// One item as an element of the pretty-printed catalog array.
pub open spec fn item_json(it: ItemView) -> Seq<char> {
    "  {\n    \"id\": "@ + json_quoted(it.id) + ",\n    \"name\": "@ + json_quoted(it.name)
        + ",\n    \"category\": "@ + json_quoted(it.category) + ",\n    \"source\": "@
        + json_quoted(it.source) + ",\n    \"gradeable\": "@ + bool_text(it.gradeable)
        + ",\n    \"tier\": "@ + opt_number_text(it.tier) + ",\n    \"stackMax\": "@
        + opt_number_text(it.stack_max) + "\n  }"@
}

/// The array elements joined by `,\n`.
pub open spec fn items_json_body(items: Seq<ItemView>) -> Seq<char>
    decreases items.len(),
{
    if items.len() == 0 {
        seq![]
    } else if items.len() == 1 {
        item_json(items.last())
    } else {
        items_json_body(items.drop_last()) + ",\n"@ + item_json(items.last())
    }
}

/// The catalog as pretty-printed JSON (two-space indent), items in the
/// given order.
pub open spec fn catalog_json_text(items: Seq<ItemView>) -> Seq<char> {
    if items.len() == 0 {
        "[]"@
    } else {
        "[\n"@ + items_json_body(items) + "\n]"@
    }
}

/// The canonical JSON of a catalog: its items in canonical order.
pub open spec fn canonical_json(items: Seq<ItemView>) -> Seq<char> {
    catalog_json_text(sorted_items(items))
}

pub open spec fn fnv_offset() -> u64 {
    0xcbf29ce484222325u64
}

pub open spec fn fnv_prime() -> u64 {
    0x100000001b3u64
}

/// 64-bit FNV-1a over a byte sequence.
pub open spec fn fnv1a(bytes: Seq<u8>) -> u64
    decreases bytes.len(),
{
    if bytes.len() == 0 {
        fnv_offset()
    } else {
        ((fnv1a(bytes.drop_last()) ^ (bytes.last() as u64)) as nat * fnv_prime() as nat
            % 0x10000000000000000nat) as u64
    }
}

pub open spec fn hex_char(d: nat) -> char {
    if d < 10 {
        (d + 48) as char
    } else {
        (d - 10 + 97) as char
    }
}

/// The low `n` hex digits of `h`, most significant first, zero-padded.
pub open spec fn hex_digits(h: nat, n: nat) -> Seq<char>
    decreases n,
{
    if n == 0 {
        seq![]
    } else {
        hex_digits(h / 16, (n - 1) as nat).push(hex_char(h % 16))
    }
}

/// The catalog hash: FNV-1a of the canonical JSON's UTF-8 bytes, as 16
/// lowercase hex digits.
pub open spec fn catalog_hash_text(items: Seq<ItemView>) -> Seq<char> {
    hex_digits(fnv1a(vstd::utf8::encode_utf8(canonical_json(items))) as nat, 16)
}

fn push_number_text(out: &mut Vec<char>, o: Option<u32>)
    ensures
        final(out)@ == old(out)@ + opt_number_text(o),
{
    match o {
        Some(n) => {
            let d = fmt_u64(n as u64);
            append(out, &d);
        },
        None => append_str(out, "null"),
    }
}

fn push_field(out: &mut Vec<char>, prefix: &str, s: &String)
    ensures
        final(out)@ == old(out)@ + prefix@ + json_quoted(s@),
{
    let q = json_quote(s.as_str()).unwrap();
    append_str(out, prefix);
    append_str(out, q.as_str());
}

fn item_json_exec(it: &Item) -> (r: Vec<char>)
    ensures
        r@ == item_json(it@),
{
    let mut out: Vec<char> = Vec::new();
    push_field(&mut out, "  {\n    \"id\": ", &it.id);
    push_field(&mut out, ",\n    \"name\": ", &it.name);
    push_field(&mut out, ",\n    \"category\": ", &it.category);
    push_field(&mut out, ",\n    \"source\": ", &it.source);
    append_str(&mut out, ",\n    \"gradeable\": ");
    if it.gradeable {
        append_str(&mut out, "true");
    } else {
        append_str(&mut out, "false");
    }
    append_str(&mut out, ",\n    \"tier\": ");
    push_number_text(&mut out, it.tier);
    append_str(&mut out, ",\n    \"stackMax\": ");
    push_number_text(&mut out, it.stack_max);
    append_str(&mut out, "\n  }");
    assert(out@ =~= item_json(it@));
    out
}

fn catalog_json_exec(items: &Vec<Item>) -> (r: Vec<char>)
    ensures
        r@ == catalog_json_text(items_view(items@)),
{
    let ghost vs = items_view(items@);
    if items.len() == 0 {
        return chars_of("[]");
    }
    let mut body: Vec<char> = Vec::new();
    let mut i: usize = 0;
    assert(vs.take(0) =~= Seq::<ItemView>::empty());
    while i < items.len()
        invariant
            i <= items.len(),
            vs == items_view(items@),
            items_json_body(vs.take(i as int)) == body@,
        decreases items.len() - i,
    {
        assert(vs.take(i + 1).drop_last() == vs.take(i as int));
        assert(vs.take(i + 1).last() == items@[i as int]@);
        let j = item_json_exec(&items[i]);
        if i > 0 {
            append_str(&mut body, ",\n");
            append(&mut body, &j);
        } else {
            body = j;
        }
        i += 1;
    }
    assert(vs.take(items.len() as int) == vs);
    let mut out = chars_of("[\n");
    append(&mut out, &body);
    append_str(&mut out, "\n]");
    out
}

/// The catalog as canonical JSON: items in canonical order, pretty-printed.
/// Serialising a catalog does not fail.
pub fn canonical_catalog_json(items: &Vec<Item>) -> (r: Result<String, String>)
    ensures
        r matches Ok(t) && t@ == canonical_json(items_view(items@)),
{
    let copy = duplicate_items(items);
    let sorted = sort_items(copy);
    let v = catalog_json_exec(&sorted);
    Ok(string_of(&v))
}

fn hex_exec(h: u64, n: u32) -> (r: Vec<char>)
    ensures
        r@ == hex_digits(h as nat, n as nat),
    decreases n,
{
    if n == 0 {
        Vec::new()
    } else {
        let mut v = hex_exec(h / 16, n - 1);
        let d = (h % 16) as u8;
        let c = if d < 10 {
            (d + 48) as char
        } else {
            (d - 10 + 97) as char
        };
        v.push(c);
        v
    }
}

fn fnv1a_exec(bytes: &[u8]) -> (r: u64)
    ensures
        r == fnv1a(bytes@),
{
    let mut hash: u64 = 0xcbf29ce484222325u64;
    let mut i: usize = 0;
    assert(bytes@.take(0) =~= Seq::<u8>::empty());
    while i < bytes.len()
        invariant
            i <= bytes.len(),
            hash == fnv1a(bytes@.take(i as int)),
        decreases bytes.len() - i,
    {
        assert(bytes@.take(i + 1).drop_last() == bytes@.take(i as int));
        hash = (hash ^ (bytes[i] as u64)).wrapping_mul(0x100000001b3u64);
        i += 1;
    }
    assert(bytes@.take(bytes@.len() as int) == bytes@);
    hash
}

/// The catalog's content hash (see `catalog_hash_text`).
fn catalog_hash(items: &Vec<Item>) -> (r: String)
    ensures
        r@ == catalog_hash_text(items_view(items@)),
{
    let text = canonical_catalog_json(items).unwrap();
    let h = fnv1a_exec(text.as_str().as_bytes());
    string_of(&hex_exec(h, 16))
}

} // verus!

verus! {

// ---------------------------------------------------------------------------
// Summaries
// ---------------------------------------------------------------------------

/// Counts and hash of a catalog.
pub struct CatalogSummary {
    pub source: String,
    pub item_count: usize,
    pub gradeable_count: usize,
    pub stackable_count: usize,
    pub catalog_hash: String,
}

pub struct SummaryView {
    pub source: Seq<char>,
    pub item_count: nat,
    pub gradeable_count: nat,
    pub stackable_count: nat,
    pub catalog_hash: Seq<char>,
}

impl View for CatalogSummary {
    type V = SummaryView;

    open spec fn view(&self) -> SummaryView {
        SummaryView {
            source: self.source@,
            item_count: self.item_count as nat,
            gradeable_count: self.gradeable_count as nat,
            stackable_count: self.stackable_count as nat,
            catalog_hash: self.catalog_hash@,
        }
    }
}

impl CatalogSummary {
    pub fn duplicate(&self) -> (r: CatalogSummary)
        ensures
            r@ == self@,
    {
        CatalogSummary {
            source: self.source.clone(),
            item_count: self.item_count,
            gradeable_count: self.gradeable_count,
            stackable_count: self.stackable_count,
            catalog_hash: self.catalog_hash.clone(),
        }
    }
}

pub open spec fn is_stackable(it: ItemView) -> bool {
    match it.stack_max {
        Some(n) => n > 1,
        None => false,
    }
}

pub open spec fn count_gradeable(s: Seq<ItemView>) -> nat
    decreases s.len(),
{
    if s.len() == 0 {
        0
    } else {
        count_gradeable(s.drop_last()) + if s.last().gradeable {
            1nat
        } else {
            0nat
        }
    }
}

pub open spec fn count_stackable(s: Seq<ItemView>) -> nat
    decreases s.len(),
{
    if s.len() == 0 {
        0
    } else {
        count_stackable(s.drop_last()) + if is_stackable(s.last()) {
            1nat
        } else {
            0nat
        }
    }
}

pub open spec fn summary_of(source: Seq<char>, items: Seq<ItemView>) -> SummaryView {
    SummaryView {
        source,
        item_count: items.len(),
        gradeable_count: count_gradeable(items),
        stackable_count: count_stackable(items),
        catalog_hash: catalog_hash_text(items),
    }
}

proof fn lemma_counts_bounded(s: Seq<ItemView>)
    ensures
        count_gradeable(s) <= s.len(),
        count_stackable(s) <= s.len(),
    decreases s.len(),
{
    if s.len() > 0 {
        lemma_counts_bounded(s.drop_last());
    }
}

/// Counts of all, gradeable and stackable items, with the catalog hash.
pub fn summarize_catalog(source: &str, items: &Vec<Item>) -> (r: CatalogSummary)
    ensures
        r@ == summary_of(source@, items_view(items@)),
{
    let ghost vs = items_view(items@);
    let mut gradeable: usize = 0;
    let mut stackable: usize = 0;
    let mut i: usize = 0;
    assert(vs.take(0) =~= Seq::<ItemView>::empty());
    while i < items.len()
        invariant
            i <= items.len(),
            vs == items_view(items@),
            gradeable == count_gradeable(vs.take(i as int)),
            stackable == count_stackable(vs.take(i as int)),
        decreases items.len() - i,
    {
        assert(vs.take(i + 1).drop_last() == vs.take(i as int));
        assert(vs.take(i + 1).last() == items@[i as int]@);
        proof {
            lemma_counts_bounded(vs.take(i as int));
        }
        if items[i].gradeable {
            gradeable += 1;
        }
        let st = match items[i].stack_max {
            Some(n) => n > 1,
            None => false,
        };
        if st {
            stackable += 1;
        }
        i += 1;
    }
    assert(vs.take(items.len() as int) == vs);
    CatalogSummary {
        source: string_of(&chars_of(source)),
        item_count: items.len(),
        gradeable_count: gradeable,
        stackable_count: stackable,
        catalog_hash: catalog_hash(items),
    }
}

// ---------------------------------------------------------------------------
// Diff
// ---------------------------------------------------------------------------

/// One item present in both catalogs whose metadata differs.
pub struct CatalogChange {
    pub id: String,
    pub before: Item,
    pub after: Item,
    pub fields: Vec<String>,
}

pub struct ChangeView {
    pub id: Seq<char>,
    pub before: ItemView,
    pub after: ItemView,
    pub fields: Seq<Seq<char>>,
}

impl View for CatalogChange {
    type V = ChangeView;

    open spec fn view(&self) -> ChangeView {
        ChangeView {
            id: self.id@,
            before: self.before@,
            after: self.after@,
            fields: strings_view(self.fields@),
        }
    }
}

pub open spec fn changes_view(v: Seq<CatalogChange>) -> Seq<ChangeView> {
    v.map_values(|c: CatalogChange| c@)
}

/// The names of the fields that differ, in field order.
pub open spec fn changed_fields_of(b: ItemView, a: ItemView) -> Seq<Seq<char>> {
    let f0: Seq<Seq<char>> = seq![];
    let f1 = if b.name != a.name { f0.push("name"@) } else { f0 };
    let f2 = if b.category != a.category { f1.push("category"@) } else { f1 };
    let f3 = if b.source != a.source { f2.push("source"@) } else { f2 };
    let f4 = if b.gradeable != a.gradeable { f3.push("gradeable"@) } else { f3 };
    let f5 = if b.tier != a.tier { f4.push("tier"@) } else { f4 };
    if b.stack_max != a.stack_max { f5.push("stackMax"@) } else { f5 }
}

/// Entries of `a` whose key has no entry in `b`, in `a`'s order.
pub open spec fn missing_from(a: Seq<ItemView>, b: Seq<ItemView>) -> Seq<ItemView>
    decreases a.len(),
{
    if a.len() == 0 {
        seq![]
    } else {
        let rest = missing_from(a.drop_last(), b);
        if find_by_key(b, id_key(a.last())) is None {
            rest.push(a.last())
        } else {
            rest
        }
    }
}

/// For each entry of `next` that has an entry in `prev` with different
/// metadata, the change, in `next`'s order.
pub open spec fn change_entries(next: Seq<ItemView>, prev: Seq<ItemView>) -> Seq<ChangeView>
    decreases next.len(),
{
    if next.len() == 0 {
        seq![]
    } else {
        let rest = change_entries(next.drop_last(), prev);
        let e = next.last();
        match find_by_key(prev, id_key(e)) {
            None => rest,
            Some(p) => {
                let f = changed_fields_of(p, e);
                if f.len() > 0 {
                    rest.push(ChangeView { id: e.id, before: p, after: e, fields: f })
                } else {
                    rest
                }
            },
        }
    }
}

/// How many items have the given lookup key.
pub open spec fn count_key(items: Seq<ItemView>, k: Seq<char>) -> nat
    decreases items.len(),
{
    if items.len() == 0 {
        0
    } else {
        count_key(items.drop_last(), k) + if id_key(items.last()) == k {
            1nat
        } else {
            0nat
        }
    }
}

/// Keys of index entries that more than one item shares, in index order.
pub open spec fn duplicate_keys(entries: Seq<ItemView>, items: Seq<ItemView>) -> Seq<Seq<char>>
    decreases entries.len(),
{
    if entries.len() == 0 {
        seq![]
    } else {
        let rest = duplicate_keys(entries.drop_last(), items);
        if count_key(items, id_key(entries.last())) > 1 {
            rest.push(id_key(entries.last()))
        } else {
            rest
        }
    }
}

/// The lowercase ids that occur more than once, in key order.
pub open spec fn duplicate_ids_of(items: Seq<ItemView>) -> Seq<Seq<char>> {
    duplicate_keys(index_by_id(items), items)
}

pub open spec fn diff_warnings(removed: nat, dups: Seq<Seq<char>>) -> Seq<Seq<char>> {
    let w0: Seq<Seq<char>> = seq![];
    let w1 = if removed > 0 {
        w0.push(dec(removed) + " item(s) will be removed and require explicit confirmation"@)
    } else {
        w0
    };
    if dups.len() > 0 {
        let shown = if dups.len() > 8 { dups.take(8) } else { dups };
        w1.push(
            "candidate catalog contains "@ + dec(dups.len()) + " duplicate template id(s): "@
                + join(shown, ", "@),
        )
    } else {
        w1
    }
}

pub open spec fn diff_blocking(cur: SummaryView, cand: SummaryView) -> Seq<Seq<char>> {
    let b0: Seq<Seq<char>> = seq![];
    let b1 = if cand.item_count * 10 < cur.item_count * 9 {
        b0.push(
            "candidate catalog has "@ + dec(cand.item_count) + " items, more than 10% below current "@
                + dec(cur.item_count),
        )
    } else {
        b0
    };
    let b2 = if cand.gradeable_count * 4 < cur.gradeable_count * 3 {
        b1.push(
            "candidate catalog has "@ + dec(cand.gradeable_count)
                + " gradeable items, more than 25% below current "@ + dec(cur.gradeable_count),
        )
    } else {
        b1
    };
    if cand.stackable_count * 4 < cur.stackable_count * 3 {
        b2.push(
            "candidate catalog has "@ + dec(cand.stackable_count)
                + " stackable items, more than 25% below current "@ + dec(cur.stackable_count),
        )
    } else {
        b2
    }
}

/// The comparison of an active catalog with a candidate.
pub struct CatalogDiff {
    pub current: CatalogSummary,
    pub candidate: CatalogSummary,
    pub source_url: Option<String>,
    pub source_version: Option<String>,
    pub added: Vec<Item>,
    pub removed: Vec<Item>,
    pub changed: Vec<CatalogChange>,
    pub warnings: Vec<String>,
    pub blocking_errors: Vec<String>,
}

pub struct DiffView {
    pub current: SummaryView,
    pub candidate: SummaryView,
    pub source_url: Option<Seq<char>>,
    pub source_version: Option<Seq<char>>,
    pub added: Seq<ItemView>,
    pub removed: Seq<ItemView>,
    pub changed: Seq<ChangeView>,
    pub warnings: Seq<Seq<char>>,
    pub blocking_errors: Seq<Seq<char>>,
}

pub open spec fn opt_text(o: Option<String>) -> Option<Seq<char>> {
    match o {
        Some(s) => Some(s@),
        None => None,
    }
}

impl View for CatalogDiff {
    type V = DiffView;

    open spec fn view(&self) -> DiffView {
        DiffView {
            current: self.current@,
            candidate: self.candidate@,
            source_url: opt_text(self.source_url),
            source_version: opt_text(self.source_version),
            added: items_view(self.added@),
            removed: items_view(self.removed@),
            changed: changes_view(self.changed@),
            warnings: strings_view(self.warnings@),
            blocking_errors: strings_view(self.blocking_errors@),
        }
    }
}

/// The diff between a current and a candidate catalog: both are put in
/// canonical order and indexed by lowercase id; entries only in the
/// candidate are added, entries only in the current catalog are removed,
/// entries in both with different metadata are changed (in key order).
pub open spec fn diff_of(
    cur: Seq<ItemView>,
    cand: Seq<ItemView>,
    source_url: Option<Seq<char>>,
    source_version: Option<Seq<char>>,
) -> DiffView {
    let cs = sorted_items(cur);
    let ns = sorted_items(cand);
    let ci = index_by_id(cs);
    let ni = index_by_id(ns);
    let removed = missing_from(ci, ni);
    let current = summary_of("active"@, cs);
    let candidate = summary_of("candidate"@, ns);
    DiffView {
        current,
        candidate,
        source_url,
        source_version,
        added: missing_from(ni, ci),
        removed,
        changed: change_entries(ni, ci),
        warnings: diff_warnings(removed.len(), duplicate_ids_of(ns)),
        blocking_errors: diff_blocking(current, candidate),
    }
}

fn push_name(v: &mut Vec<String>, name: &str)
    ensures
        strings_view(final(v)@) == strings_view(old(v)@).push(name@),
{
    let ghost before = v@;
    let s = string_of(&chars_of(name));
    v.push(s);
    assert(strings_view(v@) =~= strings_view(before).push(name@));
}

/// The names of the fields in which two items differ.
fn changed_fields(before: &Item, after: &Item) -> (r: Vec<String>)
    ensures
        strings_view(r@) == changed_fields_of(before@, after@),
{
    let mut fields: Vec<String> = Vec::new();
    assert(strings_view(fields@) =~= Seq::<Seq<char>>::empty());
    if before.name != after.name {
        push_name(&mut fields, "name");
    }
    if before.category != after.category {
        push_name(&mut fields, "category");
    }
    if before.source != after.source {
        push_name(&mut fields, "source");
    }
    if before.gradeable != after.gradeable {
        push_name(&mut fields, "gradeable");
    }
    if before.tier != after.tier {
        push_name(&mut fields, "tier");
    }
    if before.stack_max != after.stack_max {
        push_name(&mut fields, "stackMax");
    }
    fields
}

fn missing_from_exec(a: &Vec<Item>, b: &Vec<Item>) -> (r: Vec<Item>)
    ensures
        items_view(r@) == missing_from(items_view(a@), items_view(b@)),
{
    let ghost av = items_view(a@);
    let ghost bv = items_view(b@);
    let mut out: Vec<Item> = Vec::new();
    let mut i: usize = 0;
    assert(av.take(0) =~= Seq::<ItemView>::empty());
    assert(items_view(out@) =~= Seq::<ItemView>::empty());
    while i < a.len()
        invariant
            i <= a.len(),
            av == items_view(a@),
            bv == items_view(b@),
            items_view(out@) == missing_from(av.take(i as int), bv),
        decreases a.len() - i,
    {
        assert(av.take(i + 1).drop_last() == av.take(i as int));
        assert(av.take(i + 1).last() == a@[i as int]@);
        let k = id_key_exec(&a[i]);
        if find_key(b, &k).is_none() {
            let ghost before = out@;
            out.push(a[i].duplicate());
            assert(items_view(out@) =~= items_view(before).push(a@[i as int]@));
        }
        i += 1;
    }
    assert(av.take(a.len() as int) == av);
    out
}

fn change_entries_exec(next: &Vec<Item>, prev: &Vec<Item>) -> (r: Vec<CatalogChange>)
    ensures
        changes_view(r@) == change_entries(items_view(next@), items_view(prev@)),
{
    let ghost nv = items_view(next@);
    let ghost pv = items_view(prev@);
    let mut out: Vec<CatalogChange> = Vec::new();
    let mut i: usize = 0;
    assert(nv.take(0) =~= Seq::<ItemView>::empty());
    assert(changes_view(out@) =~= Seq::<ChangeView>::empty());
    while i < next.len()
        invariant
            i <= next.len(),
            nv == items_view(next@),
            pv == items_view(prev@),
            changes_view(out@) == change_entries(nv.take(i as int), pv),
        decreases next.len() - i,
    {
        assert(nv.take(i + 1).drop_last() == nv.take(i as int));
        assert(nv.take(i + 1).last() == next@[i as int]@);
        let k = id_key_exec(&next[i]);
        match find_key(prev, &k) {
            None => {},
            Some(p) => {
                let fields = changed_fields(&prev[p], &next[i]);
                if fields.len() > 0 {
                    let ghost before = out@;
                    let ch = CatalogChange {
                        id: next[i].id.clone(),
                        before: prev[p].duplicate(),
                        after: next[i].duplicate(),
                        fields,
                    };
                    let ghost cv = ch@;
                    out.push(ch);
                    assert(changes_view(out@) =~= changes_view(before).push(cv));
                }
            },
        }
        i += 1;
    }
    assert(nv.take(next.len() as int) == nv);
    out
}

fn count_key_exec(items: &Vec<Item>, key: &Vec<char>) -> (r: usize)
    ensures
        r == count_key(items_view(items@), key@),
{
    let ghost vs = items_view(items@);
    let mut n: usize = 0;
    let mut i: usize = 0;
    assert(vs.take(0) =~= Seq::<ItemView>::empty());
    while i < items.len()
        invariant
            i <= items.len(),
            vs == items_view(items@),
            n == count_key(vs.take(i as int), key@),
            n <= i,
        decreases items.len() - i,
    {
        assert(vs.take(i + 1).drop_last() == vs.take(i as int));
        assert(vs.take(i + 1).last() == items@[i as int]@);
        let k = id_key_exec(&items[i]);
        if eq_chars(&k, key) {
            n += 1;
        }
        i += 1;
    }
    assert(vs.take(items.len() as int) == vs);
    n
}

/// The lowercase ids that occur more than once, in key order.
pub fn duplicate_ids(items: &Vec<Item>) -> (r: Vec<String>)
    ensures
        strings_view(r@) == duplicate_ids_of(items_view(items@)),
{
    let keys = duplicate_id_keys(items);
    let ghost kv = keys@.map_values(|k: Vec<char>| k@);
    let mut out: Vec<String> = Vec::new();
    let mut i: usize = 0;
    while i < keys.len()
        invariant
            i <= keys.len(),
            kv == keys@.map_values(|k: Vec<char>| k@),
            strings_view(out@) == kv.take(i as int),
        decreases keys.len() - i,
    {
        let ghost before = strings_view(out@);
        out.push(string_of(&keys[i]));
        assert(strings_view(out@) =~= before.push(kv[i as int]));
        assert(kv.take(i + 1) =~= kv.take(i as int).push(kv[i as int]));
        i += 1;
    }
    assert(kv.take(keys.len() as int) =~= kv);
    out
}

fn duplicate_id_keys(items: &Vec<Item>) -> (r: Vec<Vec<char>>)
    ensures
        r@.map_values(|k: Vec<char>| k@) == duplicate_ids_of(items_view(items@)),
{
    let entries = by_id(items);
    let ghost ev = items_view(entries@);
    let ghost vs = items_view(items@);
    let mut out: Vec<Vec<char>> = Vec::new();
    let mut i: usize = 0;
    assert(ev.take(0) =~= Seq::<ItemView>::empty());
    assert(out@.map_values(|k: Vec<char>| k@) =~= Seq::<Seq<char>>::empty());
    while i < entries.len()
        invariant
            i <= entries.len(),
            ev == items_view(entries@),
            ev == index_by_id(vs),
            vs == items_view(items@),
            out@.map_values(|k: Vec<char>| k@) == duplicate_keys(ev.take(i as int), vs),
        decreases entries.len() - i,
    {
        assert(ev.take(i + 1).drop_last() == ev.take(i as int));
        assert(ev.take(i + 1).last() == entries@[i as int]@);
        let k = id_key_exec(&entries[i]);
        if count_key_exec(items, &k) > 1 {
            let ghost before = out@;
            let ghost kv = k@;
            out.push(k);
            assert(out@.map_values(|k: Vec<char>| k@) =~= before.map_values(|k: Vec<char>| k@).push(
                kv,
            ));
        }
        i += 1;
    }
    assert(ev.take(entries.len() as int) == ev);
    out
}

fn push_text(v: &mut Vec<String>, t: &Vec<char>)
    ensures
        strings_view(final(v)@) == strings_view(old(v)@).push(t@),
{
    let ghost before = v@;
    let s = string_of(t);
    v.push(s);
    assert(strings_view(v@) =~= strings_view(before).push(t@));
}

fn below_current_message(cand: usize, what: &str, cur: usize) -> (r: Vec<char>)
    ensures
        r@ == "candidate catalog has "@ + dec(cand as nat) + what@ + dec(cur as nat),
{
    let mut v = chars_of("candidate catalog has ");
    append(&mut v, &fmt_u64(cand as u64));
    append_str(&mut v, what);
    append(&mut v, &fmt_u64(cur as u64));
    assert(v@ =~= "candidate catalog has "@ + dec(cand as nat) + what@ + dec(cur as nat));
    v
}

/// Compares an active catalog with a candidate (see `diff_of`).
pub fn diff_catalog(
    current: &Vec<Item>,
    candidate: &Vec<Item>,
    source_url: Option<String>,
    source_version: Option<String>,
) -> (r: CatalogDiff)
    ensures
        r@ == diff_of(
            items_view(current@),
            items_view(candidate@),
            opt_text(source_url),
            opt_text(source_version),
        ),
{
    let current_sorted = sort_items(duplicate_items(current));
    let candidate_sorted = sort_items(duplicate_items(candidate));
    let current_by_id = by_id(&current_sorted);
    let candidate_by_id = by_id(&candidate_sorted);
    let added = missing_from_exec(&candidate_by_id, &current_by_id);
    let removed = missing_from_exec(&current_by_id, &candidate_by_id);
    let changed = change_entries_exec(&candidate_by_id, &current_by_id);
    let current_summary = summarize_catalog("active", &current_sorted);
    let candidate_summary = summarize_catalog("candidate", &candidate_sorted);
    let mut warnings: Vec<String> = Vec::new();
    let mut blocking_errors: Vec<String> = Vec::new();
    assert(strings_view(warnings@) =~= Seq::<Seq<char>>::empty());
    assert(strings_view(blocking_errors@) =~= Seq::<Seq<char>>::empty());
    if removed.len() > 0 {
        let mut v = fmt_u64(removed.len() as u64);
        append_str(&mut v, " item(s) will be removed and require explicit confirmation");
        push_text(&mut warnings, &v);
    }
    let dups = duplicate_id_keys(&candidate_sorted);
    if dups.len() > 0 {
        let shown_len: usize = if dups.len() > 8 {
            8
        } else {
            dups.len()
        };
        let ghost dv = dups@.map_values(|k: Vec<char>| k@);
        let mut shown: Vec<Vec<char>> = Vec::new();
        let mut j: usize = 0;
        assert(shown@.map_values(|k: Vec<char>| k@) =~= dv.take(0));
        while j < shown_len
            invariant
                j <= shown_len <= dups.len(),
                dv == dups@.map_values(|k: Vec<char>| k@),
                shown@.map_values(|k: Vec<char>| k@) == dv.take(j as int),
            decreases shown_len - j,
        {
            let ghost before = shown@;
            let c = subrange_chars(&dups[j], 0, dups[j].len());
            assert(c@ =~= dups@[j as int]@);
            let ghost cv = c@;
            shown.push(c);
            assert(shown@ == before.push(c));
            assert(shown@.map_values(|k: Vec<char>| k@) =~= before.map_values(|k: Vec<char>| k@).push(cv));
            assert(dv.take(j + 1) =~= dv.take(j as int).push(dv[j as int]));
            assert(shown@.map_values(|k: Vec<char>| k@) =~= dv.take(j + 1));
            j += 1;
        }
        let joined = join_chars(&shown, &chars_of(", "));
        let mut v = chars_of("candidate catalog contains ");
        append(&mut v, &fmt_u64(dups.len() as u64));
        append_str(&mut v, " duplicate template id(s): ");
        append(&mut v, &joined);
        proof {
            let sv = shown@.map_values(|k: Vec<char>| k@);
            if dups.len() > 8 {
                assert(sv =~= dv.take(8));
            } else {
                assert(sv =~= dv);
            }
        }
        push_text(&mut warnings, &v);
    }
    let cand_items = candidate_summary.item_count as u128;
    let cur_items = current_summary.item_count as u128;
    if cand_items * 10 < cur_items * 9 {
        let v = below_current_message(
            candidate_summary.item_count,
            " items, more than 10% below current ",
            current_summary.item_count,
        );
        push_text(&mut blocking_errors, &v);
    }
    let cand_g = candidate_summary.gradeable_count as u128;
    let cur_g = current_summary.gradeable_count as u128;
    if cand_g * 4 < cur_g * 3 {
        let v = below_current_message(
            candidate_summary.gradeable_count,
            " gradeable items, more than 25% below current ",
            current_summary.gradeable_count,
        );
        push_text(&mut blocking_errors, &v);
    }
    let cand_s = candidate_summary.stackable_count as u128;
    let cur_s = current_summary.stackable_count as u128;
    if cand_s * 4 < cur_s * 3 {
        let v = below_current_message(
            candidate_summary.stackable_count,
            " stackable items, more than 25% below current ",
            current_summary.stackable_count,
        );
        push_text(&mut blocking_errors, &v);
    }
    CatalogDiff {
        current: current_summary,
        candidate: candidate_summary,
        source_url,
        source_version,
        added,
        removed,
        changed,
        warnings,
        blocking_errors,
    }
}

} // verus!

verus! {

// ---------------------------------------------------------------------------
// The bundled catalog
// ---------------------------------------------------------------------------

pub open spec fn item_of(
    id: Seq<char>,
    name: Seq<char>,
    category: Seq<char>,
    source: Seq<char>,
    gradeable: bool,
    tier: Option<u32>,
    stack_max: Option<u32>,
) -> ItemView {
    ItemView { id, name, category, source, gradeable, tier, stack_max }
}

/// The catalog shipped with the service.
///
/// This crate ships a small bundled table: the two sentinel items that
/// every catalog must keep (`T6_Augment_Acuracy1`, `AluminiumBar`) and ten
/// common resources, augments and gear. A deployment's full item table is
/// not part of this crate; it reaches the library as an override catalog.
pub open spec fn bundled_catalog() -> Seq<ItemView> {
    seq![
        item_of("AluminiumBar"@, "Aluminum Ingot"@, "Resources"@, "bundled"@, false, None, Some(500u32)),
        item_of("T6_Augment_Acuracy1"@, "Accuracy Augment"@, "Augments"@, "bundled"@, true, Some(6u32), Some(1u32)),
        item_of("CopperBar"@, "Copper Ingot"@, "Resources"@, "bundled"@, false, None, Some(500u32)),
        item_of("IronBar"@, "Iron Ingot"@, "Resources"@, "bundled"@, false, None, Some(500u32)),
        item_of("SteelBar"@, "Steel Ingot"@, "Resources"@, "bundled"@, false, None, Some(500u32)),
        item_of("PlantFiber"@, "Plant Fiber"@, "Resources"@, "bundled"@, false, None, Some(500u32)),
        item_of("SpiceMelange"@, "Spice Melange"@, "Resources"@, "bundled"@, false, None, Some(1000u32)),
        item_of("T3_Augment_Damage1"@, "Damage Augment"@, "Augments"@, "bundled"@, true, Some(3u32), Some(1u32)),
        item_of("T4_Augment_Durability1"@, "Durability Augment"@, "Augments"@, "bundled"@, true, Some(4u32), Some(1u32)),
        item_of("T5_Augment_Reload1"@, "Reload Augment"@, "Augments"@, "bundled"@, true, Some(5u32), Some(1u32)),
        item_of("BasicStillsuit"@, "Basic Stillsuit"@, "Garments"@, "bundled"@, false, Some(1u32), Some(1u32)),
        item_of("HealingKit"@, "Healing Kit"@, "Consumables"@, "bundled"@, false, None, Some(1u32)),
    ]
}

fn make_item(
    id: &str,
    name: &str,
    category: &str,
    source: &str,
    gradeable: bool,
    tier: Option<u32>,
    stack_max: Option<u32>,
) -> (r: Item)
    ensures
        r@ == item_of(id@, name@, category@, source@, gradeable, tier, stack_max),
{
    Item {
        id: string_of(&chars_of(id)),
        name: string_of(&chars_of(name)),
        category: string_of(&chars_of(category)),
        source: string_of(&chars_of(source)),
        gradeable,
        tier,
        stack_max,
    }
}

/// The catalog shipped with the service.
///
/// This crate ships a small bundled table: the two sentinel items that
/// every catalog must keep (`T6_Augment_Acuracy1`, `AluminiumBar`) and ten
/// common resources, augments and gear. A deployment's full item table is
/// not part of this crate; it reaches the library as an override catalog.
pub fn bundled_items() -> (r: Vec<Item>)
    ensures
        items_view(r@) == bundled_catalog(),
{
    let mut v: Vec<Item> = Vec::new();
    v.push(make_item("AluminiumBar", "Aluminum Ingot", "Resources", "bundled", false, None, Some(500u32)));
    v.push(make_item("T6_Augment_Acuracy1", "Accuracy Augment", "Augments", "bundled", true, Some(6u32), Some(1u32)));
    v.push(make_item("CopperBar", "Copper Ingot", "Resources", "bundled", false, None, Some(500u32)));
    v.push(make_item("IronBar", "Iron Ingot", "Resources", "bundled", false, None, Some(500u32)));
    v.push(make_item("SteelBar", "Steel Ingot", "Resources", "bundled", false, None, Some(500u32)));
    v.push(make_item("PlantFiber", "Plant Fiber", "Resources", "bundled", false, None, Some(500u32)));
    v.push(make_item("SpiceMelange", "Spice Melange", "Resources", "bundled", false, None, Some(1000u32)));
    v.push(make_item("T3_Augment_Damage1", "Damage Augment", "Augments", "bundled", true, Some(3u32), Some(1u32)));
    v.push(make_item("T4_Augment_Durability1", "Durability Augment", "Augments", "bundled", true, Some(4u32), Some(1u32)));
    v.push(make_item("T5_Augment_Reload1", "Reload Augment", "Augments", "bundled", true, Some(5u32), Some(1u32)));
    v.push(make_item("BasicStillsuit", "Basic Stillsuit", "Garments", "bundled", false, Some(1u32), Some(1u32)));
    v.push(make_item("HealingKit", "Healing Kit", "Consumables", "bundled", false, None, Some(1u32)));
    assert(items_view(v@) =~= bundled_catalog());
    v
}

// ---------------------------------------------------------------------------
// The active catalog
// ---------------------------------------------------------------------------

/// Where an override catalog came from and what it holds.
pub struct CatalogMetadata {
    pub source: String,
    pub source_url: Option<String>,
    pub source_version: Option<String>,
    pub source_hash: String,
    pub catalog_hash: String,
    pub applied_at: String,
    pub item_count: usize,
    pub gradeable_count: usize,
    pub stackable_count: usize,
}

pub struct MetadataView {
    pub source: Seq<char>,
    pub source_url: Option<Seq<char>>,
    pub source_version: Option<Seq<char>>,
    pub source_hash: Seq<char>,
    pub catalog_hash: Seq<char>,
    pub applied_at: Seq<char>,
    pub item_count: nat,
    pub gradeable_count: nat,
    pub stackable_count: nat,
}

impl View for CatalogMetadata {
    type V = MetadataView;

    open spec fn view(&self) -> MetadataView {
        MetadataView {
            source: self.source@,
            source_url: opt_text(self.source_url),
            source_version: opt_text(self.source_version),
            source_hash: self.source_hash@,
            catalog_hash: self.catalog_hash@,
            applied_at: self.applied_at@,
            item_count: self.item_count as nat,
            gradeable_count: self.gradeable_count as nat,
            stackable_count: self.stackable_count as nat,
        }
    }
}

fn clone_opt(o: &Option<String>) -> (r: Option<String>)
    ensures
        opt_text(r) == opt_text(*o),
{
    match o {
        Some(s) => Some(s.clone()),
        None => None,
    }
}

impl CatalogMetadata {
    pub fn duplicate(&self) -> (r: CatalogMetadata)
        ensures
            r@ == self@,
    {
        CatalogMetadata {
            source: self.source.clone(),
            source_url: clone_opt(&self.source_url),
            source_version: clone_opt(&self.source_version),
            source_hash: self.source_hash.clone(),
            catalog_hash: self.catalog_hash.clone(),
            applied_at: self.applied_at.clone(),
            item_count: self.item_count,
            gradeable_count: self.gradeable_count,
            stackable_count: self.stackable_count,
        }
    }
}

pub open spec fn opt_meta_view(o: Option<CatalogMetadata>) -> Option<MetadataView> {
    match o {
        Some(m) => Some(m@),
        None => None,
    }
}

/// Which catalog is active, the bundled one's summary, and the override's
/// metadata or the reason it was rejected.
pub struct CatalogStatus {
    pub active: CatalogSummary,
    pub bundled: CatalogSummary,
    pub override_meta: Option<CatalogMetadata>,
    pub override_error: Option<String>,
}

pub struct StatusView {
    pub active: SummaryView,
    pub bundled: SummaryView,
    pub override_meta: Option<MetadataView>,
    pub override_error: Option<Seq<char>>,
}

impl View for CatalogStatus {
    type V = StatusView;

    open spec fn view(&self) -> StatusView {
        StatusView {
            active: self.active@,
            bundled: self.bundled@,
            override_meta: opt_meta_view(self.override_meta),
            override_error: opt_text(self.override_error),
        }
    }
}

/// The items in force and the status describing them.
pub struct ActiveCatalog {
    pub items: Vec<Item>,
    pub status: CatalogStatus,
}

/// The catalog export offered for download.
pub struct CatalogExport {
    pub catalog_json: String,
    pub suggested_file_name: String,
    pub summary: CatalogSummary,
}

/// What the configuration store holds for the catalog: the override
/// document, if one is stored, and its metadata, if it parsed.
pub struct CatalogStore {
    pub override_json: Option<CatalogDocument>,
    pub override_meta: Option<CatalogMetadata>,
}

/// The items in force: a stored override that validates, else the bundled
/// catalog.
pub open spec fn active_items_of(doc: Option<DocumentView>) -> Seq<ItemView> {
    match doc {
        Some(d) => match catalog_from_document(d) {
            Ok(items) => items,
            Err(_) => bundled_catalog(),
        },
        None => bundled_catalog(),
    }
}

/// The status for the stored override (if any) and its metadata.
pub open spec fn status_of(doc: Option<DocumentView>, meta: Option<MetadataView>) -> StatusView {
    let bundled = summary_of("bundled"@, bundled_catalog());
    match doc {
        None => StatusView { active: bundled, bundled, override_meta: None, override_error: None },
        Some(d) => match catalog_from_document(d) {
            Ok(items) => StatusView {
                active: summary_of("override"@, items),
                bundled,
                override_meta: meta,
                override_error: None,
            },
            Err(e) => StatusView {
                active: bundled,
                bundled,
                override_meta: meta,
                override_error: Some(e),
            },
        },
    }
}

pub open spec fn opt_doc_view(o: Option<CatalogDocument>) -> Option<DocumentView> {
    match o {
        Some(d) => Some(d@),
        None => None,
    }
}

/// The catalog in force for a store (see `active_items_of`, `status_of`).
pub fn active_catalog(store: &CatalogStore) -> (r: ActiveCatalog)
    ensures
        items_view(r.items@) == active_items_of(opt_doc_view(store.override_json)),
        r.status@ == status_of(opt_doc_view(store.override_json), opt_meta_view(store.override_meta)),
{
    let bundled = bundled_items();
    let bundled_summary = summarize_catalog("bundled", &bundled);
    let override_meta = match &store.override_meta {
        Some(m) => Some(m.duplicate()),
        None => None,
    };
    match &store.override_json {
        Some(doc) => match parse_and_validate_catalog_json(doc) {
            Ok(items) => {
                let active = summarize_catalog("override", &items);
                ActiveCatalog {
                    items,
                    status: CatalogStatus {
                        active,
                        bundled: bundled_summary,
                        override_meta,
                        override_error: None,
                    },
                }
            },
            Err(e) => ActiveCatalog {
                items: bundled,
                status: CatalogStatus {
                    active: bundled_summary.duplicate(),
                    bundled: bundled_summary,
                    override_meta,
                    override_error: Some(e),
                },
            },
        },
        None => ActiveCatalog {
            items: bundled,
            status: CatalogStatus {
                active: bundled_summary.duplicate(),
                bundled: bundled_summary,
                override_meta: None,
                override_error: None,
            },
        },
    }
}

/// The status of the catalog in force.
pub fn status(store: &CatalogStore) -> (r: CatalogStatus)
    ensures
        r@ == status_of(opt_doc_view(store.override_json), opt_meta_view(store.override_meta)),
{
    active_catalog(store).status
}

/// Drops the stored override; the bundled catalog is in force afterwards.
pub fn revert_catalog(store: &mut CatalogStore) -> (r: CatalogStatus)
    ensures
        final(store).override_json is None,
        final(store).override_meta is None,
        r@ == status_of(None, None),
{
    store.override_json = None;
    store.override_meta = None;
    status(store)
}

/// The catalog in force as canonical JSON with its summary.
pub fn export_active_catalog(store: &CatalogStore) -> (r: Result<CatalogExport, String>)
    ensures
        r matches Ok(x) && x.catalog_json@ == canonical_json(
            active_items_of(opt_doc_view(store.override_json)),
        ) && x.suggested_file_name@ == "item-catalog.json"@ && x.summary@ == status_of(
            opt_doc_view(store.override_json),
            opt_meta_view(store.override_meta),
        ).active,
{
    let active = active_catalog(store);
    let catalog_json = canonical_catalog_json(&active.items)?;
    Ok(
        CatalogExport {
            catalog_json,
            suggested_file_name: string_of(&chars_of("item-catalog.json")),
            summary: active.status.active,
        },
    )
}

/// The diff of a candidate (elements of a JSON value) against the catalog
/// in force, with the candidate's validated items.
pub fn diff_active_catalog(
    store: &CatalogStore,
    candidate: &Option<Vec<CatalogRow>>,
    source_url: Option<String>,
    source_version: Option<String>,
) -> (r: Result<(CatalogDiff, Vec<Item>), String>)
    ensures
        match catalog_from_rows(opt_rows_view(*candidate)) {
            Err(e) => r matches Err(x) && x@ == e,
            Ok(items) => r matches Ok((d, v)) && items_view(v@) == items && d@ == diff_of(
                active_items_of(opt_doc_view(store.override_json)),
                items,
                opt_text(source_url),
                opt_text(source_version),
            ),
        },
{
    let active = active_catalog(store);
    let candidate_items = parse_and_validate_catalog_value(candidate)?;
    let diff = diff_catalog(&active.items, &candidate_items, source_url, source_version);
    Ok((diff, candidate_items))
}

/// What applying a candidate writes to the store.
pub struct CatalogUpdate {
    pub catalog_json: String,
    pub meta: CatalogMetadata,
}

/// The reason an update is refused (blocking problems first, then
/// unconfirmed removals), given the diff.
pub open spec fn apply_refusal(d: DiffView, confirm_removals: bool) -> Option<Seq<char>> {
    if d.blocking_errors.len() > 0 {
        Some("catalog update blocked: "@ + join(d.blocking_errors, "; "@))
    } else if !confirm_removals && d.removed.len() > 0 {
        Some(
            "catalog update removes "@ + dec(d.removed.len())
                + " item(s); confirm removals before applying"@,
        )
    } else {
        None
    }
}

/// The time an override is applied: the clock as RFC 3339 text, or empty
/// text when the clock cannot be read.
pub open spec fn applied_at_ok(t: Seq<char>) -> bool {
    t.len() == 0 || exists|s: i64, n: u32|
        s >= 0 && timestamp_in_range(s, n) && rfc3339_text(s, n) == t
}

fn applied_at_now() -> (r: String)
    ensures
        applied_at_ok(r@),
{
    match now_rfc3339() {
        Some(t) => t,
        None => String::new(),
    }
}

/// Checks a candidate against the catalog in force and, unless refused,
/// returns the canonical JSON and metadata to store for it.
pub fn apply_catalog(
    store: &CatalogStore,
    candidate: &Option<Vec<CatalogRow>>,
    source_url: Option<String>,
    source_version: Option<String>,
    confirm_removals: bool,
) -> (r: Result<CatalogUpdate, String>)
    ensures
        match catalog_from_rows(opt_rows_view(*candidate)) {
            Err(e) => r matches Err(x) && x@ == e,
            Ok(items) => {
                let d = diff_of(
                    active_items_of(opt_doc_view(store.override_json)),
                    items,
                    opt_text(source_url),
                    opt_text(source_version),
                );
                match apply_refusal(d, confirm_removals) {
                    Some(m) => r matches Err(x) && x@ == m,
                    None => r matches Ok(u) && u.catalog_json@ == canonical_json(items)
                        && u.meta.source@ == "github-release-asset"@ && opt_text(u.meta.source_url)
                        == opt_text(source_url) && opt_text(u.meta.source_version) == opt_text(
                        source_version,
                    ) && u.meta.source_hash@ == catalog_hash_text(items) && u.meta.catalog_hash@
                        == catalog_hash_text(items) && u.meta.item_count == d.candidate.item_count
                        && u.meta.gradeable_count == d.candidate.gradeable_count
                        && u.meta.stackable_count == d.candidate.stackable_count
                        && applied_at_ok(u.meta.applied_at@),
                }
            },
        },
{
    let (diff, candidate_items) = diff_active_catalog(
        store,
        candidate,
        clone_opt(&source_url),
        clone_opt(&source_version),
    )?;
    if diff.blocking_errors.len() > 0 {
        let mut parts: Vec<Vec<char>> = Vec::new();
        let mut k: usize = 0;
        assert(parts@.map_values(|p: Vec<char>| p@) =~= strings_view(diff.blocking_errors@).take(0));
        while k < diff.blocking_errors.len()
            invariant
                k <= diff.blocking_errors.len(),
                parts@.map_values(|p: Vec<char>| p@) == strings_view(diff.blocking_errors@).take(
                    k as int,
                ),
            decreases diff.blocking_errors.len() - k,
        {
            let ghost before = parts@;
            let c = chars_of(diff.blocking_errors[k].as_str());
            let ghost cv = c@;
            parts.push(c);
            assert(parts@.map_values(|p: Vec<char>| p@) =~= before.map_values(|p: Vec<char>| p@).push(
                cv,
            ));
            assert(strings_view(diff.blocking_errors@).take(k + 1) =~= strings_view(
                diff.blocking_errors@,
            ).take(k as int).push(diff.blocking_errors@[k as int]@));
            k += 1;
        }
        assert(strings_view(diff.blocking_errors@).take(diff.blocking_errors.len() as int)
            == strings_view(diff.blocking_errors@));
        let mut v = chars_of("catalog update blocked: ");
        append(&mut v, &join_chars(&parts, &chars_of("; ")));
        return Err(string_of(&v));
    }
    if !confirm_removals && diff.removed.len() > 0 {
        let mut v = chars_of("catalog update removes ");
        append(&mut v, &fmt_u64(diff.removed.len() as u64));
        append_str(&mut v, " item(s); confirm removals before applying");
        return Err(string_of(&v));
    }
    let catalog_json = canonical_catalog_json(&candidate_items)?;
    let summary = summarize_catalog("override", &candidate_items);
    let meta = CatalogMetadata {
        source: string_of(&chars_of("github-release-asset")),
        source_url,
        source_version,
        source_hash: summary.catalog_hash.clone(),
        catalog_hash: summary.catalog_hash,
        applied_at: applied_at_now(),
        item_count: diff.candidate.item_count,
        gradeable_count: diff.candidate.gradeable_count,
        stackable_count: diff.candidate.stackable_count,
    };
    Ok(CatalogUpdate { catalog_json, meta })
}

} // verus!
