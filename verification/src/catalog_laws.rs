//! What holds of the catalog as a whole: canonical ordering is a sorted
//! permutation and idempotent, the id index holds each id once, a diff
//! adds exactly the candidate's new ids and removes exactly the ids the
//! candidate lacks, lists changes id by id with their fields, mirrors
//! itself when the catalogs are swapped, warns and blocks by the stated
//! rules, and shows nothing for a catalog compared with itself; summaries
//! do not depend on item order; the hash is FNV-1a of the canonical JSON;
//! a validated catalog, read back as the rows it is stored as, validates
//! to itself and is then the catalog in force.
use vstd::prelude::*;
use crate::text::{lemma_text_lt_irreflexive, lemma_text_lt_transitive, lemma_text_lt_trichotomy, text_lt};
use crate::text::{dec, is_ws, starts_with, trim, ws_prefix_len, ws_suffix_len};
use crate::catalog::{
    allowed_key, catalog_from_rows, change_entries, changed_fields_of, diff_of, ChangeView, find_by_key, find_item_in,
    first_unknown_key, id_key, index_by_id, insert_by_key, item_error, lemma_find_by_key_at,
    missing_from, row_outcome, rows_items, sentinel_error, sort_key, sorted_items, upsert,
    active_items_of, bundled_catalog, status_of, summary_of, DocumentView, ItemView, RowView,
    canonical_json, catalog_hash_text, count_gradeable, count_stackable, fnv1a, hex_char, hex_digits,
    is_stackable, catalog_json_text, row_prefix, MetadataView, augment_id, aluminium_id, apply_refusal, DiffView, count_key, duplicate_keys, duplicate_ids_of,
};

verus! {

/// No item's key is below an earlier item's key.
pub open spec fn in_canonical_order(s: Seq<ItemView>) -> bool {
    forall|i: int, j: int|
        0 <= i < j < s.len() ==> !text_lt(#[trigger] sort_key(s[j]), #[trigger] sort_key(s[i]))
}

/// Where `insert_by_key` puts an item: after the leading items whose key is
/// not greater, before the first greater one.
proof fn lemma_insert_position(s: Seq<ItemView>, e: ItemView) -> (p: int)
    ensures
        0 <= p <= s.len(),
        insert_by_key(s, e) == s.insert(p, e),
        forall|j: int| 0 <= j < p ==> !text_lt(sort_key(e), #[trigger] sort_key(s[j])),
        p < s.len() ==> text_lt(sort_key(e), sort_key(s[p])),
    decreases s.len(),
{
    if s.len() == 0 {
        assert(s.insert(0, e) =~= seq![e]);
        0
    } else if text_lt(sort_key(e), sort_key(s[0])) {
        assert(s.insert(0, e) =~= seq![e] + s);
        0
    } else {
        let t = s.drop_first();
        let q = lemma_insert_position(t, e);
        assert(s.insert(q + 1, e) =~= seq![s[0]] + t.insert(q, e));
        assert forall|j: int| 0 <= j < q + 1 implies !text_lt(sort_key(e), #[trigger] sort_key(s[j])) by {
            if j > 0 {
                assert(s[j] == t[j - 1]);
            }
        }
        if q + 1 < s.len() {
            assert(s[q + 1] == t[q]);
        }
        q + 1
    }
}

proof fn lemma_insert_keeps_order(s: Seq<ItemView>, e: ItemView)
    requires
        in_canonical_order(s),
    ensures
        in_canonical_order(insert_by_key(s, e)),
        insert_by_key(s, e).to_multiset() == s.to_multiset().insert(e),
{
    broadcast use vstd::seq_lib::group_to_multiset_ensures;

    let p = lemma_insert_position(s, e);
    let r = s.insert(p, e);
    assert forall|i: int, j: int| 0 <= i < j < r.len() implies !text_lt(
        #[trigger] sort_key(r[j]),
        #[trigger] sort_key(r[i]),
    ) by {
        if j < p {
            assert(r[i] == s[i] && r[j] == s[j]);
        } else if j == p {
            assert(r[i] == s[i] && r[j] == e);
        } else if i < p {
            assert(r[i] == s[i] && r[j] == s[j - 1]);
        } else if i == p {
            assert(r[i] == e && r[j] == s[j - 1]);
            if text_lt(sort_key(s[j - 1]), sort_key(e)) {
                lemma_text_lt_transitive(sort_key(s[j - 1]), sort_key(e), sort_key(s[p]));
                if j - 1 == p {
                    lemma_text_lt_irreflexive(sort_key(s[p]));
                }
            }
        } else {
            assert(r[i] == s[i - 1] && r[j] == s[j - 1]);
        }
    }
}

/// Canonical ordering keeps every item and puts them in key order: the
/// result is a permutation of the input, ordered by lowercase id.
pub proof fn lemma_sorted_items_canonical(s: Seq<ItemView>)
    ensures
        in_canonical_order(sorted_items(s)),
        sorted_items(s).to_multiset() == s.to_multiset(),
        sorted_items(s).len() == s.len(),
    decreases s.len(),
{
    broadcast use vstd::seq_lib::group_to_multiset_ensures;

    if s.len() > 0 {
        lemma_sorted_items_canonical(s.drop_last());
        lemma_insert_keeps_order(sorted_items(s.drop_last()), s.last());
        assert(s =~= s.drop_last().push(s.last()));
    }
    assert(sorted_items(s).to_multiset().len() == s.to_multiset().len());
}

/// Ordering items that are already in canonical order changes nothing.
pub proof fn lemma_sorted_items_fixes_ordered(s: Seq<ItemView>)
    requires
        in_canonical_order(s),
    ensures
        sorted_items(s) == s,
    decreases s.len(),
{
    if s.len() > 0 {
        let t = s.drop_last();
        assert(in_canonical_order(t)) by {
            assert forall|i: int, j: int| 0 <= i < j < t.len() implies !text_lt(
                #[trigger] sort_key(t[j]),
                #[trigger] sort_key(t[i]),
            ) by {
                assert(t[i] == s[i] && t[j] == s[j]);
            }
        }
        lemma_sorted_items_fixes_ordered(t);
        let p = lemma_insert_position(t, s.last());
        if p < t.len() {
            assert(s[p] == t[p]);
            assert(!text_lt(sort_key(s[s.len() - 1]), sort_key(s[p])));
        }
        assert(t.insert(t.len() as int, s.last()) =~= s);
    }
}

/// Canonical ordering is idempotent.
pub proof fn lemma_sorted_items_idempotent(s: Seq<ItemView>)
    ensures
        sorted_items(sorted_items(s)) == sorted_items(s),
{
    lemma_sorted_items_canonical(s);
    lemma_sorted_items_fixes_ordered(sorted_items(s));
}

// ---------------------------------------------------------------------------
// The id index and the diff
// ---------------------------------------------------------------------------

/// Index entries' keys strictly increase, so no key occurs twice.
pub open spec fn keys_strictly_increasing(es: Seq<ItemView>) -> bool {
    forall|i: int, j: int|
        0 <= i < j < es.len() ==> text_lt(#[trigger] id_key(es[i]), #[trigger] id_key(es[j]))
}

proof fn lemma_upsert_above(es: Seq<ItemView>, e: ItemView, b: Seq<char>)
    requires
        forall|j: int| 0 <= j < es.len() ==> text_lt(b, #[trigger] id_key(es[j])),
        text_lt(b, id_key(e)),
    ensures
        forall|k: int|
            0 <= k < upsert(es, e).len() ==> text_lt(b, #[trigger] id_key(upsert(es, e)[k])),
    decreases es.len(),
{
    if es.len() == 0 {
    } else if id_key(es[0]) == id_key(e) {
        let r = upsert(es, e);
        assert forall|k: int| 0 <= k < r.len() implies text_lt(b, #[trigger] id_key(r[k])) by {
            if k > 0 {
                assert(r[k] == es[k]);
            }
        }
    } else if text_lt(id_key(e), id_key(es[0])) {
        let r = upsert(es, e);
        assert forall|k: int| 0 <= k < r.len() implies text_lt(b, #[trigger] id_key(r[k])) by {
            if k > 0 {
                assert(r[k] == es[k - 1]);
            }
        }
    } else {
        let t = es.drop_first();
        assert forall|j: int| 0 <= j < t.len() implies text_lt(b, #[trigger] id_key(t[j])) by {
            assert(t[j] == es[j + 1]);
        }
        lemma_upsert_above(t, e, b);
        let r = upsert(es, e);
        assert forall|k: int| 0 <= k < r.len() implies text_lt(b, #[trigger] id_key(r[k])) by {
            if k > 0 {
                assert(r[k] == upsert(t, e)[k - 1]);
            }
        }
    }
}

proof fn lemma_upsert_strict(es: Seq<ItemView>, e: ItemView)
    requires
        keys_strictly_increasing(es),
    ensures
        keys_strictly_increasing(upsert(es, e)),
    decreases es.len(),
{
    let r = upsert(es, e);
    if es.len() == 0 {
    } else if id_key(es[0]) == id_key(e) {
        assert forall|i: int, j: int| 0 <= i < j < r.len() implies text_lt(
            #[trigger] id_key(r[i]),
            #[trigger] id_key(r[j]),
        ) by {
            assert(r[j] == es[j]);
            if i > 0 {
                assert(r[i] == es[i]);
            }
        }
    } else if text_lt(id_key(e), id_key(es[0])) {
        assert forall|i: int, j: int| 0 <= i < j < r.len() implies text_lt(
            #[trigger] id_key(r[i]),
            #[trigger] id_key(r[j]),
        ) by {
            assert(r[j] == es[j - 1]);
            if i > 0 {
                assert(r[i] == es[i - 1]);
            } else if j - 1 > 0 {
                lemma_text_lt_transitive(id_key(e), id_key(es[0]), id_key(es[j - 1]));
            }
        }
    } else {
        let t = es.drop_first();
        assert(keys_strictly_increasing(t)) by {
            assert forall|i: int, j: int| 0 <= i < j < t.len() implies text_lt(
                #[trigger] id_key(t[i]),
                #[trigger] id_key(t[j]),
            ) by {
                assert(t[i] == es[i + 1] && t[j] == es[j + 1]);
            }
        }
        lemma_upsert_strict(t, e);
        lemma_text_lt_trichotomy(id_key(es[0]), id_key(e));
        assert forall|j: int| 0 <= j < t.len() implies text_lt(id_key(es[0]), #[trigger] id_key(t[j])) by {
            assert(t[j] == es[j + 1]);
        }
        lemma_upsert_above(t, e, id_key(es[0]));
        let u = upsert(t, e);
        assert forall|i: int, j: int| 0 <= i < j < r.len() implies text_lt(
            #[trigger] id_key(r[i]),
            #[trigger] id_key(r[j]),
        ) by {
            assert(r[j] == u[j - 1]);
            if i > 0 {
                assert(r[i] == u[i - 1]);
            }
        }
    }
}

/// The id index holds each lowercase id once, in increasing key order.
pub proof fn lemma_index_keys_unique(s: Seq<ItemView>)
    ensures
        keys_strictly_increasing(index_by_id(s)),
    decreases s.len(),
{
    if s.len() > 0 {
        lemma_index_keys_unique(s.drop_last());
        lemma_upsert_strict(index_by_id(s.drop_last()), s.last());
    }
}

proof fn lemma_find_own_entry(es: Seq<ItemView>, k: int)
    requires
        keys_strictly_increasing(es),
        0 <= k < es.len(),
    ensures
        find_by_key(es, id_key(es[k])) == Some(es[k]),
{
    assert forall|j: int| 0 <= j < k implies id_key(#[trigger] es[j]) != id_key(es[k]) by {
        assert(text_lt(id_key(es[j]), id_key(es[k])));
        lemma_text_lt_irreflexive(id_key(es[k]));
    }
    lemma_find_by_key_at(es, id_key(es[k]), k);
}

proof fn lemma_nothing_missing(a: Seq<ItemView>, b: Seq<ItemView>)
    requires
        forall|i: int| 0 <= i < a.len() ==> find_by_key(b, id_key(#[trigger] a[i])) is Some,
    ensures
        missing_from(a, b) == Seq::<ItemView>::empty(),
    decreases a.len(),
{
    if a.len() > 0 {
        let t = a.drop_last();
        assert forall|i: int| 0 <= i < t.len() implies find_by_key(b, id_key(#[trigger] t[i])) is Some by {
            assert(t[i] == a[i]);
        }
        lemma_nothing_missing(t, b);
        assert(find_by_key(b, id_key(a[a.len() - 1])) is Some);
    }
}

proof fn lemma_nothing_changed(a: Seq<ItemView>, b: Seq<ItemView>)
    requires
        forall|i: int| 0 <= i < a.len() ==> find_by_key(b, id_key(#[trigger] a[i])) == Some(a[i]),
    ensures
        change_entries(a, b).len() == 0,
    decreases a.len(),
{
    if a.len() > 0 {
        let t = a.drop_last();
        assert forall|i: int| 0 <= i < t.len() implies find_by_key(b, id_key(#[trigger] t[i])) == Some(
            t[i],
        ) by {
            assert(t[i] == a[i]);
        }
        lemma_nothing_changed(t, b);
        assert(find_by_key(b, id_key(a[a.len() - 1])) == Some(a[a.len() - 1]));
    }
}

/// A catalog compared with itself shows nothing added, removed or changed,
/// and nothing blocks it.
pub proof fn lemma_diff_with_itself(
    items: Seq<ItemView>,
    source_url: Option<Seq<char>>,
    source_version: Option<Seq<char>>,
)
    ensures
        diff_of(items, items, source_url, source_version).added.len() == 0,
        diff_of(items, items, source_url, source_version).removed.len() == 0,
        diff_of(items, items, source_url, source_version).changed.len() == 0,
        diff_of(items, items, source_url, source_version).blocking_errors.len() == 0,
{
    let ix = index_by_id(sorted_items(items));
    lemma_index_keys_unique(sorted_items(items));
    assert forall|i: int| 0 <= i < ix.len() implies find_by_key(ix, id_key(#[trigger] ix[i])) == Some(
        ix[i],
    ) by {
        lemma_find_own_entry(ix, i);
    }
    lemma_nothing_missing(ix, ix);
    lemma_nothing_changed(ix, ix);
}

// ---------------------------------------------------------------------------
// Reading a stored catalog back
// ---------------------------------------------------------------------------

/// The keys a stored catalog item is written with, in order.
pub open spec fn stored_keys() -> Seq<Seq<char>> {
    seq!["id"@, "name"@, "category"@, "source"@, "gradeable"@, "tier"@, "stackMax"@]
}

/// The row a stored item reads back as: an object with the stored keys
/// that decodes to the item.
pub open spec fn item_row(it: ItemView) -> RowView {
    RowView::Object { keys: stored_keys(), decoded: Ok(it) }
}

pub open spec fn item_rows(items: Seq<ItemView>) -> Seq<RowView> {
    items.map_values(|it: ItemView| item_row(it))
}

/// An item that obeys the catalog's rules (whatever row it stands in).
pub open spec fn valid_item(it: ItemView) -> bool {
    item_error(it, 0) is None
}

proof fn lemma_item_error_any_row(it: ItemView, i: nat, j: nat)
    ensures
        item_error(it, i) is None <==> item_error(it, j) is None,
{
}

proof fn lemma_keys_allowed(keys: Seq<Seq<char>>)
    requires
        forall|i: int| 0 <= i < keys.len() ==> allowed_key(#[trigger] keys[i]),
    ensures
        first_unknown_key(keys) is None,
    decreases keys.len(),
{
    if keys.len() > 0 {
        let t = keys.drop_first();
        assert forall|i: int| 0 <= i < t.len() implies allowed_key(#[trigger] t[i]) by {
            assert(t[i] == keys[i + 1]);
        }
        assert(allowed_key(keys[0]));
        lemma_keys_allowed(t);
    }
}

proof fn lemma_rows_items_ok(rows: Seq<RowView>)
    requires
        rows_items(rows) is Ok,
    ensures
        rows_items(rows)->Ok_0.len() == rows.len(),
        forall|k: int|
            0 <= k < rows.len() ==> valid_item(#[trigger] rows_items(rows)->Ok_0[k]),
    decreases rows.len(),
{
    if rows.len() > 0 {
        let t = rows.drop_last();
        lemma_rows_items_ok(t);
        let items = rows_items(rows)->Ok_0;
        let prev = rows_items(t)->Ok_0;
        assert(items == prev.push(row_outcome(rows.last(), (rows.len() - 1) as nat)->Ok_0));
        assert forall|k: int| 0 <= k < rows.len() implies valid_item(#[trigger] items[k]) by {
            if k < rows.len() - 1 {
                assert(items[k] == prev[k]);
            } else {
                lemma_item_error_any_row(items[k], (rows.len() - 1) as nat, 0);
            }
        }
    }
}

proof fn lemma_item_rows_read_back(items: Seq<ItemView>)
    requires
        forall|k: int| 0 <= k < items.len() ==> valid_item(#[trigger] items[k]),
    ensures
        rows_items(item_rows(items)) == Ok::<Seq<ItemView>, Seq<char>>(items),
    decreases items.len(),
{
    if items.len() > 0 {
        let t = items.drop_last();
        assert forall|k: int| 0 <= k < t.len() implies valid_item(#[trigger] t[k]) by {
            assert(t[k] == items[k]);
        }
        lemma_item_rows_read_back(t);
        let rs = item_rows(items);
        assert(rs.drop_last() =~= item_rows(t));
        assert(rs.last() == item_row(items.last()));
        reveal_strlit("id");
        reveal_strlit("name");
        reveal_strlit("category");
        reveal_strlit("source");
        reveal_strlit("gradeable");
        reveal_strlit("tier");
        reveal_strlit("stackMax");
        lemma_keys_allowed(stored_keys());
        assert(first_unknown_key(stored_keys()) is None);
        assert(valid_item(items[items.len() - 1]));
        lemma_item_error_any_row(items.last(), 0, (items.len() - 1) as nat);
        assert(row_outcome(rs.last(), (rs.len() - 1) as nat) == Ok::<ItemView, Seq<char>>(items.last()));
        assert(rows_items(rs.drop_last()) == Ok::<Seq<ItemView>, Seq<char>>(t));
        assert(t.push(items.last()) =~= items);
    } else {
        assert(items =~= Seq::<ItemView>::empty());
    }
}

proof fn lemma_find_concat(a: Seq<ItemView>, b: Seq<ItemView>, id: Seq<char>)
    ensures
        find_item_in(a + b, id) == match find_item_in(a, id) {
            Some(x) => Some(x),
            None => find_item_in(b, id),
        },
    decreases a.len(),
{
    if a.len() > 0 {
        assert((a + b).drop_first() =~= a.drop_first() + b);
        lemma_find_concat(a.drop_first(), b, id);
    } else {
        assert(a + b =~= b);
    }
}

proof fn lemma_find_absent(a: Seq<ItemView>, id: Seq<char>)
    requires
        forall|j: int| 0 <= j < a.len() ==> (#[trigger] a[j]).id != id,
    ensures
        find_item_in(a, id) is None,
    decreases a.len(),
{
    if a.len() > 0 {
        let t = a.drop_first();
        assert forall|j: int| 0 <= j < t.len() implies (#[trigger] t[j]).id != id by {
            assert(t[j] == a[j + 1]);
        }
        lemma_find_absent(t, id);
    }
}

/// The first item with an id in a canonically ordered catalog stays first
/// when another item is inserted by key.
proof fn lemma_find_after_insert(t: Seq<ItemView>, e: ItemView, id: Seq<char>)
    requires
        in_canonical_order(t),
    ensures
        find_item_in(insert_by_key(t, e), id) == match find_item_in(t, id) {
            Some(x) => Some(x),
            None => if e.id == id {
                Some(e)
            } else {
                None
            },
        },
{
    let p = lemma_insert_position(t, e);
    let a = t.take(p);
    let b = t.skip(p);
    assert(t =~= a + b);
    assert(t.insert(p, e) =~= a + (seq![e] + b));
    lemma_find_concat(a, seq![e] + b, id);
    lemma_find_concat(a, b, id);
    lemma_find_concat(seq![e], b, id);
    assert(seq![e].drop_first() =~= Seq::<ItemView>::empty());
    assert(find_item_in(seq![e], id) == if e.id == id {
        Some(e)
    } else {
        None::<ItemView>
    }) by {
        reveal_with_fuel(find_item_in, 2);
    }
    if e.id == id && find_item_in(a, id) is None {
        assert forall|j: int| 0 <= j < b.len() implies (#[trigger] b[j]).id != id by {
            assert(b[j] == t[p + j]);
            if t[p + j].id == id {
                assert(sort_key(t[p + j]) == sort_key(e));
                assert(text_lt(sort_key(e), sort_key(t[p])));
                if j == 0 {
                    lemma_text_lt_irreflexive(sort_key(e));
                } else {
                    assert(!text_lt(sort_key(t[p + j]), sort_key(t[p])));
                }
            }
        }
        lemma_find_absent(b, id);
    }
}

/// Canonical ordering keeps, for every id, the same first item with it.
pub proof fn lemma_sorted_items_find(s: Seq<ItemView>, id: Seq<char>)
    ensures
        find_item_in(sorted_items(s), id) == find_item_in(s, id),
    decreases s.len(),
{
    if s.len() > 0 {
        let t = s.drop_last();
        lemma_sorted_items_find(t, id);
        lemma_sorted_items_canonical(t);
        lemma_find_after_insert(sorted_items(t), s.last(), id);
        assert(s =~= t + seq![s.last()]);
        lemma_find_concat(t, seq![s.last()], id);
        assert(seq![s.last()].drop_first() =~= Seq::<ItemView>::empty());
        assert(find_item_in(seq![s.last()], id) == if s.last().id == id {
            Some(s.last())
        } else {
            None::<ItemView>
        }) by {
            reveal_with_fuel(find_item_in, 2);
        }
    }
}

/// A catalog that validated, read back as the rows it is stored as (every
/// item an object with the stored keys), validates to the same catalog.
pub proof fn lemma_stored_catalog_reads_back(rows: Seq<RowView>)
    requires
        catalog_from_rows(Some(rows)) is Ok,
    ensures
        catalog_from_rows(Some(item_rows(catalog_from_rows(Some(rows))->Ok_0)))
            == catalog_from_rows(Some(rows)),
{
    let raw = rows_items(rows)->Ok_0;
    let items = sorted_items(raw);
    lemma_rows_items_ok(rows);
    lemma_sorted_items_canonical(raw);
    assert forall|k: int| 0 <= k < items.len() implies valid_item(#[trigger] items[k]) by {
        broadcast use vstd::seq_lib::group_to_multiset_ensures;

        assert(items.to_multiset().count(items[k]) > 0);
        assert(raw.to_multiset().count(items[k]) > 0);
        assert(raw.contains(items[k]));
        let m = choose|m: int| 0 <= m < raw.len() && raw[m] == items[k];
        assert(valid_item(raw[m]));
    }
    lemma_item_rows_read_back(items);
    lemma_sorted_items_find(raw, "T6_Augment_Acuracy1"@);
    lemma_sorted_items_find(raw, "AluminiumBar"@);
    assert(sentinel_error(items) == sentinel_error(raw));
    lemma_sorted_items_fixes_ordered(items);
    assert(item_rows(items).len() == rows.len());
}

// ---------------------------------------------------------------------------
// The catalog in force
// ---------------------------------------------------------------------------

/// With no stored override (as after a revert) the bundled catalog is in
/// force and the status reports no override and no error.
pub proof fn lemma_no_override_means_bundled()
    ensures
        active_items_of(None) == bundled_catalog(),
        status_of(None, None).active == summary_of("bundled"@, bundled_catalog()),
        status_of(None, None).override_meta is None,
        status_of(None, None).override_error is None,
{
}

/// A stored override that does not validate leaves the bundled catalog in
/// force, and the status carries the validation message.
pub proof fn lemma_invalid_override_falls_back(doc: DocumentView)
    requires
        crate::catalog::catalog_from_document(doc) is Err,
    ensures
        active_items_of(Some(doc)) == bundled_catalog(),
        status_of(Some(doc), None).active == summary_of("bundled"@, bundled_catalog()),
        status_of(Some(doc), None).override_error == Some(
            crate::catalog::catalog_from_document(doc)->Err_0,
        ),
{
}

/// A stored override that validates is the catalog in force.
pub proof fn lemma_valid_override_in_force(doc: DocumentView)
    requires
        crate::catalog::catalog_from_document(doc) is Ok,
    ensures
        active_items_of(Some(doc)) == crate::catalog::catalog_from_document(doc)->Ok_0,
        status_of(Some(doc), None).override_error is None,
{
}

/// What an apply stores is what is in force afterwards: a candidate that
/// validated, stored as the rows of its canonical items, is the catalog in
/// force, reported as the override with no error, with the metadata stored
/// beside it and the catalog hash that the apply recorded in it.
pub proof fn lemma_applied_catalog_in_force(rows: Seq<RowView>)
    requires
        catalog_from_rows(Some(rows)) is Ok,
    ensures
        active_items_of(
            Some(DocumentView::Parsed(Some(item_rows(catalog_from_rows(Some(rows))->Ok_0)))),
        ) == catalog_from_rows(Some(rows))->Ok_0,
        status_of(
            Some(DocumentView::Parsed(Some(item_rows(catalog_from_rows(Some(rows))->Ok_0)))),
            None,
        ).active == summary_of("override"@, catalog_from_rows(Some(rows))->Ok_0),
        status_of(
            Some(DocumentView::Parsed(Some(item_rows(catalog_from_rows(Some(rows))->Ok_0)))),
            None,
        ).override_error is None,
        forall|meta: MetadataView|
            #![trigger status_of(
                Some(DocumentView::Parsed(Some(item_rows(catalog_from_rows(Some(rows))->Ok_0)))),
                Some(meta),
            )]
            status_of(
                Some(DocumentView::Parsed(Some(item_rows(catalog_from_rows(Some(rows))->Ok_0)))),
                Some(meta),
            ).override_meta == Some(meta) && status_of(
                Some(DocumentView::Parsed(Some(item_rows(catalog_from_rows(Some(rows))->Ok_0)))),
                Some(meta),
            ).active.catalog_hash == catalog_hash_text(catalog_from_rows(Some(rows))->Ok_0),
{
    lemma_stored_catalog_reads_back(rows);
}

proof fn lemma_found_if_present(es: Seq<ItemView>, idx: int)
    requires
        0 <= idx < es.len(),
    ensures
        find_by_key(es, id_key(es[idx])) is Some,
    decreases es.len(),
{
    if id_key(es[0]) != id_key(es[idx]) {
        let t = es.drop_first();
        assert(t[idx - 1] == es[idx]);
        lemma_found_if_present(t, idx - 1);
    }
}

proof fn lemma_missing_members(a: Seq<ItemView>, b: Seq<ItemView>)
    ensures
        forall|k: int|
            0 <= k < missing_from(a, b).len() ==> a.contains(#[trigger] missing_from(a, b)[k])
                && find_by_key(b, id_key(missing_from(a, b)[k])) is None,
    decreases a.len(),
{
    if a.len() > 0 {
        let t = a.drop_last();
        lemma_missing_members(t, b);
        let m = missing_from(a, b);
        let r = missing_from(t, b);
        assert forall|k: int| 0 <= k < m.len() implies a.contains(#[trigger] m[k]) && find_by_key(
            b,
            id_key(m[k]),
        ) is None by {
            if k < r.len() {
                assert(m[k] == r[k]);
                assert(t.contains(r[k]));
                let w = choose|w: int| 0 <= w < t.len() && t[w] == r[k];
                assert(a[w] == r[k]);
            } else {
                assert(m[k] == a.last());
                assert(a[a.len() - 1] == a.last());
            }
        }
    }
}

/// No lowercase id is both added and removed by a diff: added items are
/// absent from the current catalog, removed ones from the candidate.
pub proof fn lemma_diff_added_removed_disjoint(
    cur: Seq<ItemView>,
    cand: Seq<ItemView>,
    source_url: Option<Seq<char>>,
    source_version: Option<Seq<char>>,
)
    ensures
        forall|i: int, j: int|
            0 <= i < diff_of(cur, cand, source_url, source_version).added.len() && 0 <= j < diff_of(
                cur,
                cand,
                source_url,
                source_version,
            ).removed.len() ==> id_key(
                #[trigger] diff_of(cur, cand, source_url, source_version).added[i],
            ) != id_key(#[trigger] diff_of(cur, cand, source_url, source_version).removed[j]),
{
    let d = diff_of(cur, cand, source_url, source_version);
    let ci = index_by_id(sorted_items(cur));
    let ni = index_by_id(sorted_items(cand));
    lemma_missing_members(ni, ci);
    lemma_missing_members(ci, ni);
    assert forall|i: int, j: int| 0 <= i < d.added.len() && 0 <= j < d.removed.len() implies id_key(
        #[trigger] d.added[i],
    ) != id_key(#[trigger] d.removed[j]) by {
        let y = d.removed[j];
        assert(ci.contains(y));
        let w = choose|w: int| 0 <= w < ci.len() && ci[w] == y;
        lemma_found_if_present(ci, w);
        assert(find_by_key(ci, id_key(d.added[i])) is None);
    }
}


// ---------------------------------------------------------------------------
// What a diff holds, by lowercase id
// ---------------------------------------------------------------------------

/// The lowercase ids that occur in a list of items.
pub open spec fn id_keys(s: Seq<ItemView>) -> Set<Seq<char>> {
    Set::new(|k: Seq<char>| exists|i: int| 0 <= i < s.len() && #[trigger] id_key(s[i]) == k)
}

/// The entries a catalog is compared by: canonical order, one per id.
pub open spec fn catalog_index(items: Seq<ItemView>) -> Seq<ItemView> {
    index_by_id(sorted_items(items))
}

proof fn lemma_id_keys_concat(a: Seq<ItemView>, b: Seq<ItemView>)
    ensures
        id_keys(a + b) == id_keys(a).union(id_keys(b)),
{
    let t = a + b;
    assert forall|k: Seq<char>| #[trigger] id_keys(t).contains(k) <==> id_keys(a).union(
        id_keys(b),
    ).contains(k) by {
        if id_keys(t).contains(k) {
            let i = choose|i: int| 0 <= i < t.len() && #[trigger] id_key(t[i]) == k;
            if i < a.len() {
                assert(t[i] == a[i]);
                assert(id_key(a[i]) == k);
            } else {
                assert(t[i] == b[i - a.len()]);
                assert(id_key(b[i - a.len()]) == k);
            }
        }
        if id_keys(a).contains(k) {
            let i = choose|i: int| 0 <= i < a.len() && #[trigger] id_key(a[i]) == k;
            assert(t[i] == a[i]);
            assert(id_key(t[i]) == k);
        }
        if id_keys(b).contains(k) {
            let i = choose|i: int| 0 <= i < b.len() && #[trigger] id_key(b[i]) == k;
            assert(t[i + a.len()] == b[i]);
            assert(id_key(t[i + a.len()]) == k);
        }
    }
    assert(id_keys(t) =~= id_keys(a).union(id_keys(b)));
}

proof fn lemma_id_keys_single(x: ItemView)
    ensures
        id_keys(seq![x]) == set![id_key(x)],
{
    let t = seq![x];
    assert(id_key(t[0]) == id_key(x));
    assert(id_keys(t) =~= set![id_key(x)]);
}

proof fn lemma_id_keys_push(s: Seq<ItemView>, e: ItemView)
    ensures
        id_keys(s.push(e)) == id_keys(s).insert(id_key(e)),
{
    lemma_id_keys_concat(s, seq![e]);
    lemma_id_keys_single(e);
    assert(s.push(e) == s + seq![e]);
    assert(id_keys(s).union(set![id_key(e)]) =~= id_keys(s).insert(id_key(e)));
}

proof fn lemma_id_keys_split_first(es: Seq<ItemView>)
    requires
        es.len() > 0,
    ensures
        id_keys(es) == id_keys(es.drop_first()).insert(id_key(es[0])),
{
    assert(es == seq![es[0]] + es.drop_first());
    lemma_id_keys_concat(seq![es[0]], es.drop_first());
    lemma_id_keys_single(es[0]);
    assert(set![id_key(es[0])].union(id_keys(es.drop_first())) =~= id_keys(es.drop_first()).insert(
        id_key(es[0]),
    ));
}

proof fn lemma_upsert_keys(es: Seq<ItemView>, e: ItemView)
    ensures
        id_keys(upsert(es, e)) == id_keys(es).insert(id_key(e)),
    decreases es.len(),
{
    if es.len() == 0 {
        lemma_id_keys_single(e);
        assert(id_keys(es) =~= Set::<Seq<char>>::empty());
        assert(set![id_key(e)] =~= Set::<Seq<char>>::empty().insert(id_key(e)));
    } else {
        lemma_id_keys_split_first(es);
        let r = upsert(es, e);
        if id_key(es[0]) == id_key(e) {
            assert(r.len() > 0 && r[0] == e && r.drop_first() == es.drop_first());
            lemma_id_keys_split_first(r);
        } else if text_lt(id_key(e), id_key(es[0])) {
            assert(r.len() > 0 && r[0] == e && r.drop_first() == es);
            lemma_id_keys_split_first(r);
            assert(id_keys(es).insert(id_key(e)) =~= id_keys(r));
        } else {
            lemma_upsert_keys(es.drop_first(), e);
            assert(r.len() > 0 && r[0] == es[0] && r.drop_first() == upsert(es.drop_first(), e));
            lemma_id_keys_split_first(r);
            assert(id_keys(es).insert(id_key(e)) =~= id_keys(r));
        }
    }
}

/// The id index holds exactly the ids of the items it was built from.
proof fn lemma_index_keys(s: Seq<ItemView>)
    ensures
        id_keys(index_by_id(s)) == id_keys(s),
    decreases s.len(),
{
    if s.len() == 0 {
    } else {
        lemma_index_keys(s.drop_last());
        lemma_upsert_keys(index_by_id(s.drop_last()), s.last());
        lemma_id_keys_push(s.drop_last(), s.last());
        assert(s.drop_last().push(s.last()) == s);
    }
}

proof fn lemma_sorted_keys(s: Seq<ItemView>)
    ensures
        id_keys(sorted_items(s)) == id_keys(s),
{
    broadcast use vstd::seq_lib::group_to_multiset_ensures;

    lemma_sorted_items_canonical(s);
    let t = sorted_items(s);
    assert forall|k: Seq<char>| #[trigger] id_keys(t).contains(k) <==> id_keys(s).contains(k) by {
        if id_keys(t).contains(k) {
            let i = choose|i: int| 0 <= i < t.len() && #[trigger] id_key(t[i]) == k;
            assert(t.contains(t[i]));
            assert(t.to_multiset().count(t[i]) > 0);
            assert(s.contains(t[i]));
            let j = choose|j: int| 0 <= j < s.len() && s[j] == t[i];
            assert(id_key(s[j]) == k);
        }
        if id_keys(s).contains(k) {
            let i = choose|i: int| 0 <= i < s.len() && #[trigger] id_key(s[i]) == k;
            assert(s.contains(s[i]));
            assert(s.to_multiset().count(s[i]) > 0);
            assert(t.contains(s[i]));
            let j = choose|j: int| 0 <= j < t.len() && t[j] == s[i];
            assert(id_key(t[j]) == k);
        }
    }
    assert(id_keys(t) =~= id_keys(s));
}

/// The entries a catalog is compared by hold exactly its ids, each once,
/// in increasing order.
pub proof fn lemma_catalog_index_keys(items: Seq<ItemView>)
    ensures
        id_keys(catalog_index(items)) == id_keys(items),
        keys_strictly_increasing(catalog_index(items)),
{
    lemma_index_keys(sorted_items(items));
    lemma_sorted_keys(items);
    lemma_index_keys_unique(sorted_items(items));
}

proof fn lemma_find_by_key_facts(es: Seq<ItemView>, k: Seq<char>)
    ensures
        (find_by_key(es, k) is Some) <==> id_keys(es).contains(k),
        find_by_key(es, k) is Some ==> es.contains(find_by_key(es, k)->0) && id_key(
            find_by_key(es, k)->0,
        ) == k,
    decreases es.len(),
{
    if es.len() > 0 {
        lemma_find_by_key_facts(es.drop_first(), k);
        lemma_id_keys_split_first(es);
        if find_by_key(es, k) is Some && id_key(es[0]) != k {
            let x = find_by_key(es, k)->0;
            let j = choose|j: int| 0 <= j < es.drop_first().len() && es.drop_first()[j] == x;
            assert(es[j + 1] == x);
        }
        if id_key(es[0]) == k {
            assert(es.contains(es[0]));
        }
    } else {
        assert(!id_keys(es).contains(k));
    }
}

proof fn lemma_missing_complete(a: Seq<ItemView>, b: Seq<ItemView>, i: int)
    requires
        0 <= i < a.len(),
        find_by_key(b, id_key(a[i])) is None,
    ensures
        missing_from(a, b).contains(a[i]),
    decreases a.len(),
{
    let r = missing_from(a.drop_last(), b);
    if i == a.len() - 1 {
        assert(missing_from(a, b) == r.push(a.last()));
        assert(missing_from(a, b)[r.len() as int] == a[i]);
    } else {
        assert(a.drop_last()[i] == a[i]);
        lemma_missing_complete(a.drop_last(), b, i);
        let j = choose|j: int| 0 <= j < r.len() && r[j] == a[i];
        if find_by_key(b, id_key(a.last())) is None {
            assert(missing_from(a, b)[j] == a[i]);
        }
    }
}

proof fn lemma_missing_strict(a: Seq<ItemView>, b: Seq<ItemView>)
    requires
        keys_strictly_increasing(a),
    ensures
        keys_strictly_increasing(missing_from(a, b)),
    decreases a.len(),
{
    if a.len() > 0 {
        let t = a.drop_last();
        assert(keys_strictly_increasing(t)) by {
            assert forall|i: int, j: int| 0 <= i < j < t.len() implies text_lt(
                #[trigger] id_key(t[i]),
                #[trigger] id_key(t[j]),
            ) by {
                assert(t[i] == a[i] && t[j] == a[j]);
            }
        }
        lemma_missing_strict(t, b);
        lemma_missing_members(t, b);
        let r = missing_from(t, b);
        let m = missing_from(a, b);
        if find_by_key(b, id_key(a.last())) is None {
            assert forall|i: int, j: int| 0 <= i < j < m.len() implies text_lt(
                #[trigger] id_key(m[i]),
                #[trigger] id_key(m[j]),
            ) by {
                assert(m[i] == r[i]);
                if j < r.len() {
                    assert(m[j] == r[j]);
                } else {
                    assert(t.contains(r[i]));
                    let w = choose|w: int| 0 <= w < t.len() && t[w] == r[i];
                    assert(a[w] == r[i]);
                    assert(m[j] == a[a.len() - 1]);
                }
            }
        }
    }
}

/// What each change entry holds: its item is in `next`, the entry for the
/// same id in `prev` is its `before`, its id is the new item's id, and it
/// lists the differing fields, at least one.
pub open spec fn change_entry_ok(c: ChangeView, next: Seq<ItemView>, prev: Seq<ItemView>) -> bool {
    &&& next.contains(c.after)
    &&& find_by_key(prev, id_key(c.after)) == Some(c.before)
    &&& c.id == c.after.id
    &&& c.fields == changed_fields_of(c.before, c.after)
    &&& c.fields.len() > 0
}

proof fn lemma_change_members(next: Seq<ItemView>, prev: Seq<ItemView>)
    ensures
        forall|k: int|
            0 <= k < change_entries(next, prev).len() ==> change_entry_ok(
                #[trigger] change_entries(next, prev)[k],
                next,
                prev,
            ),
    decreases next.len(),
{
    if next.len() > 0 {
        let t = next.drop_last();
        lemma_change_members(t, prev);
        let m = change_entries(next, prev);
        let r = change_entries(t, prev);
        assert forall|k: int| 0 <= k < m.len() implies change_entry_ok(#[trigger] m[k], next, prev) by {
            if k < r.len() {
                assert(m[k] == r[k]);
                assert(change_entry_ok(r[k], t, prev));
                let w = choose|w: int| 0 <= w < t.len() && t[w] == r[k].after;
                assert(next[w] == r[k].after);
            } else {
                assert(next[next.len() - 1] == next.last());
            }
        }
    }
}

proof fn lemma_change_complete(next: Seq<ItemView>, prev: Seq<ItemView>, i: int, p: ItemView)
    requires
        0 <= i < next.len(),
        find_by_key(prev, id_key(next[i])) == Some(p),
        changed_fields_of(p, next[i]).len() > 0,
    ensures
        exists|j: int|
            0 <= j < change_entries(next, prev).len() && (#[trigger] change_entries(next, prev)[j]).after
                == next[i] && change_entries(next, prev)[j].before == p,
    decreases next.len(),
{
    let r = change_entries(next.drop_last(), prev);
    let m = change_entries(next, prev);
    if i == next.len() - 1 {
        assert(m[r.len() as int].after == next[i]);
    } else {
        assert(next.drop_last()[i] == next[i]);
        lemma_change_complete(next.drop_last(), prev, i, p);
        let j = choose|j: int| 0 <= j < r.len() && (#[trigger] r[j]).after == next[i] && r[j].before == p;
        assert(m[j] == r[j]);
    }
}

proof fn lemma_change_strict(next: Seq<ItemView>, prev: Seq<ItemView>)
    requires
        keys_strictly_increasing(next),
    ensures
        forall|i: int, j: int|
            0 <= i < j < change_entries(next, prev).len() ==> text_lt(
                id_key(#[trigger] change_entries(next, prev)[i].after),
                id_key(#[trigger] change_entries(next, prev)[j].after),
            ),
    decreases next.len(),
{
    if next.len() > 0 {
        let t = next.drop_last();
        assert(keys_strictly_increasing(t)) by {
            assert forall|i: int, j: int| 0 <= i < j < t.len() implies text_lt(
                #[trigger] id_key(t[i]),
                #[trigger] id_key(t[j]),
            ) by {
                assert(t[i] == next[i] && t[j] == next[j]);
            }
        }
        lemma_change_strict(t, prev);
        lemma_change_members(t, prev);
        let r = change_entries(t, prev);
        let m = change_entries(next, prev);
        assert forall|i: int, j: int| 0 <= i < j < m.len() implies text_lt(
            id_key(#[trigger] m[i].after),
            id_key(#[trigger] m[j].after),
        ) by {
            assert(m[i] == r[i]);
            if j < r.len() {
                assert(m[j] == r[j]);
            } else {
                assert(change_entry_ok(r[i], t, prev));
                let w = choose|w: int| 0 <= w < t.len() && t[w] == r[i].after;
                assert(next[w] == r[i].after);
                assert(m[j].after == next[next.len() - 1]);
            }
        }
    }
}

/// What a diff holds, id by id. The added items' ids are the candidate's
/// ids that the current catalog lacks, the removed items' ids the current
/// ids that the candidate lacks; each list, and the changes, are strictly
/// ascending by lowercase id, so no id occurs twice in one of them. Each
/// change pairs the current and candidate entries of one id that both
/// catalogs have, lists the fields that differ (at least one) and carries
/// the candidate's id.
pub proof fn lemma_diff_by_id(
    cur: Seq<ItemView>,
    cand: Seq<ItemView>,
    source_url: Option<Seq<char>>,
    source_version: Option<Seq<char>>,
)
    ensures
        ({
            let d = diff_of(cur, cand, source_url, source_version);
            &&& id_keys(d.added) == id_keys(cand).difference(id_keys(cur))
            &&& id_keys(d.removed) == id_keys(cur).difference(id_keys(cand))
            &&& keys_strictly_increasing(d.added)
            &&& keys_strictly_increasing(d.removed)
            &&& forall|i: int, j: int|
                0 <= i < j < d.changed.len() ==> text_lt(
                    id_key(#[trigger] d.changed[i].after),
                    id_key(#[trigger] d.changed[j].after),
                )
            &&& forall|i: int|
                0 <= i < d.changed.len() ==> change_entry_ok(
                    #[trigger] d.changed[i],
                    catalog_index(cand),
                    catalog_index(cur),
                ) && find_by_key(catalog_index(cand), id_key(d.changed[i].after)) == Some(
                    d.changed[i].after,
                ) && id_keys(cur).contains(id_key(d.changed[i].after)) && id_keys(cand).contains(
                    id_key(d.changed[i].after),
                )
        }),
{
    let d = diff_of(cur, cand, source_url, source_version);
    let ci = catalog_index(cur);
    let ni = catalog_index(cand);
    lemma_catalog_index_keys(cur);
    lemma_catalog_index_keys(cand);
    lemma_missing_members(ni, ci);
    lemma_missing_members(ci, ni);
    lemma_missing_strict(ni, ci);
    lemma_missing_strict(ci, ni);
    lemma_change_members(ni, ci);
    lemma_change_strict(ni, ci);
    // added
    assert forall|k: Seq<char>| #[trigger] id_keys(d.added).contains(k) <==> id_keys(cand).difference(
        id_keys(cur),
    ).contains(k) by {
        lemma_find_by_key_facts(ci, k);
        if id_keys(d.added).contains(k) {
            let i = choose|i: int| 0 <= i < d.added.len() && #[trigger] id_key(d.added[i]) == k;
            assert(ni.contains(d.added[i]));
            let w = choose|w: int| 0 <= w < ni.len() && ni[w] == d.added[i];
            assert(id_key(ni[w]) == k);
        }
        if id_keys(cand).difference(id_keys(cur)).contains(k) {
            let w = choose|w: int| 0 <= w < ni.len() && #[trigger] id_key(ni[w]) == k;
            lemma_missing_complete(ni, ci, w);
            let j = choose|j: int| 0 <= j < d.added.len() && d.added[j] == ni[w];
            assert(id_key(d.added[j]) == k);
        }
    }
    assert(id_keys(d.added) =~= id_keys(cand).difference(id_keys(cur)));
    // removed
    assert forall|k: Seq<char>| #[trigger] id_keys(d.removed).contains(k) <==> id_keys(cur).difference(
        id_keys(cand),
    ).contains(k) by {
        lemma_find_by_key_facts(ni, k);
        if id_keys(d.removed).contains(k) {
            let i = choose|i: int| 0 <= i < d.removed.len() && #[trigger] id_key(d.removed[i]) == k;
            assert(ci.contains(d.removed[i]));
            let w = choose|w: int| 0 <= w < ci.len() && ci[w] == d.removed[i];
            assert(id_key(ci[w]) == k);
        }
        if id_keys(cur).difference(id_keys(cand)).contains(k) {
            let w = choose|w: int| 0 <= w < ci.len() && #[trigger] id_key(ci[w]) == k;
            lemma_missing_complete(ci, ni, w);
            let j = choose|j: int| 0 <= j < d.removed.len() && d.removed[j] == ci[w];
            assert(id_key(d.removed[j]) == k);
        }
    }
    assert(id_keys(d.removed) =~= id_keys(cur).difference(id_keys(cand)));
    // changes
    assert forall|i: int| 0 <= i < d.changed.len() implies change_entry_ok(
        #[trigger] d.changed[i],
        ni,
        ci,
    ) && find_by_key(ni, id_key(d.changed[i].after)) == Some(d.changed[i].after) && id_keys(
        cur,
    ).contains(id_key(d.changed[i].after)) && id_keys(cand).contains(id_key(d.changed[i].after)) by {
        let c = d.changed[i];
        assert(change_entry_ok(c, ni, ci));
        let w = choose|w: int| 0 <= w < ni.len() && ni[w] == c.after;
        lemma_find_own_entry(ni, w);
        lemma_find_by_key_facts(ci, id_key(c.after));
        lemma_find_by_key_facts(ni, id_key(c.after));
    }
}

/// Every id that both catalogs have, and whose entries differ in a field
/// other than the id itself, appears among the changes.
pub proof fn lemma_diff_changes_complete(
    cur: Seq<ItemView>,
    cand: Seq<ItemView>,
    source_url: Option<Seq<char>>,
    source_version: Option<Seq<char>>,
    k: Seq<char>,
)
    requires
        find_by_key(catalog_index(cur), k) is Some,
        find_by_key(catalog_index(cand), k) is Some,
        changed_fields_of(
            find_by_key(catalog_index(cur), k)->0,
            find_by_key(catalog_index(cand), k)->0,
        ).len() > 0,
    ensures
        exists|j: int|
            0 <= j < diff_of(cur, cand, source_url, source_version).changed.len() && (
            #[trigger] diff_of(cur, cand, source_url, source_version).changed[j]).after
                == find_by_key(catalog_index(cand), k)->0 && diff_of(
                cur,
                cand,
                source_url,
                source_version,
            ).changed[j].before == find_by_key(catalog_index(cur), k)->0,
{
    let ci = catalog_index(cur);
    let ni = catalog_index(cand);
    let e = find_by_key(ni, k)->0;
    let p = find_by_key(ci, k)->0;
    lemma_find_by_key_facts(ni, k);
    let w = choose|w: int| 0 <= w < ni.len() && ni[w] == e;
    assert(id_key(ni[w]) == k);
    lemma_change_complete(ni, ci, w, p);
    let d = diff_of(cur, cand, source_url, source_version);
    assert(d.changed == change_entries(ni, ci));
    let j = choose|j: int|
        0 <= j < change_entries(ni, ci).len() && (#[trigger] change_entries(ni, ci)[j]).after == ni[w]
            && change_entries(ni, ci)[j].before == p;
    assert(d.changed[j].after == e && d.changed[j].before == p);
}

/// Two items differ in no field but the id exactly when no field is listed
/// as changed: an id that only changes case is no change.
pub proof fn lemma_changed_fields_empty(b: ItemView, a: ItemView)
    ensures
        (changed_fields_of(b, a).len() == 0) <==> (b.name == a.name && b.category == a.category
            && b.source == a.source && b.gradeable == a.gradeable && b.tier == a.tier && b.stack_max
            == a.stack_max),
{
}


// ---------------------------------------------------------------------------
// Summaries, warnings and blocking problems of a diff
// ---------------------------------------------------------------------------

/// How many items of a list satisfy a predicate.
pub open spec fn count_where(s: Seq<ItemView>, f: spec_fn(ItemView) -> bool) -> nat
    decreases s.len(),
{
    if s.len() == 0 {
        0
    } else {
        count_where(s.drop_last(), f) + if f(s.last()) {
            1nat
        } else {
            0nat
        }
    }
}

proof fn lemma_count_where_concat(a: Seq<ItemView>, b: Seq<ItemView>, f: spec_fn(ItemView) -> bool)
    ensures
        count_where(a + b, f) == count_where(a, f) + count_where(b, f),
    decreases b.len(),
{
    if b.len() > 0 {
        lemma_count_where_concat(a, b.drop_last(), f);
        assert((a + b).drop_last() == a + b.drop_last());
        assert((a + b).last() == b.last());
    } else {
        assert(a + b == a);
    }
}

/// Counting does not depend on the order of the items.
proof fn lemma_count_where_permutation(s: Seq<ItemView>, t: Seq<ItemView>, f: spec_fn(ItemView) -> bool)
    requires
        s.to_multiset() == t.to_multiset(),
    ensures
        count_where(s, f) == count_where(t, f),
    decreases s.len(),
{
    broadcast use vstd::seq_lib::group_to_multiset_ensures;
    broadcast use vstd::multiset::group_multiset_axioms;

    assert(s.to_multiset().len() == s.len());
    assert(t.to_multiset().len() == t.len());
    if s.len() == 0 {
        assert(t.len() == 0);
        assert(t == Seq::<ItemView>::empty());
    } else {
        let x = s.last();
        let s0 = s.drop_last();
        assert(s == s0.push(x));
        assert(s.to_multiset().count(x) > 0);
        assert(t.contains(x));
        let k = choose|k: int| 0 <= k < t.len() && t[k] == x;
        let t0 = t.remove(k);
        assert(t0.to_multiset() =~= s0.to_multiset());
        lemma_count_where_permutation(s0, t0, f);
        let a = t.take(k);
        let c = t.skip(k + 1);
        assert(t == (a + seq![x]) + c);
        assert(t0 == a + c);
        lemma_count_where_concat(a + seq![x], c, f);
        lemma_count_where_concat(a, seq![x], f);
        lemma_count_where_concat(a, c, f);
        assert(seq![x].drop_last() == Seq::<ItemView>::empty());
        assert(count_where(Seq::<ItemView>::empty(), f) == 0);
        assert(count_where(seq![x], f) == if f(x) { 1nat } else { 0nat });
        assert(count_where(t, f) == count_where(a, f) + count_where(seq![x], f) + count_where(c, f));
        assert(count_where(s, f) == count_where(s0, f) + if f(x) { 1nat } else { 0nat });
    }
}

proof fn lemma_counts_as_count_where(s: Seq<ItemView>)
    ensures
        count_gradeable(s) == count_where(s, |x: ItemView| x.gradeable),
        count_stackable(s) == count_where(s, |x: ItemView| is_stackable(x)),
    decreases s.len(),
{
    if s.len() > 0 {
        lemma_counts_as_count_where(s.drop_last());
    }
}

/// A summary's counts depend only on which items a catalog holds, not on
/// their order or on the summary's label.
pub proof fn lemma_summary_counts_permutation(
    source_a: Seq<char>,
    source_b: Seq<char>,
    xs: Seq<ItemView>,
    ys: Seq<ItemView>,
)
    requires
        xs.to_multiset() == ys.to_multiset(),
    ensures
        summary_of(source_a, xs).item_count == summary_of(source_b, ys).item_count,
        summary_of(source_a, xs).gradeable_count == summary_of(source_b, ys).gradeable_count,
        summary_of(source_a, xs).stackable_count == summary_of(source_b, ys).stackable_count,
        summary_of(source_a, xs).catalog_hash == summary_of(source_b, xs).catalog_hash,
{
    broadcast use vstd::seq_lib::group_to_multiset_ensures;

    assert(xs.to_multiset().len() == xs.len());
    assert(ys.to_multiset().len() == ys.len());
    lemma_counts_as_count_where(xs);
    lemma_counts_as_count_where(ys);
    lemma_count_where_permutation(xs, ys, |x: ItemView| x.gradeable);
    lemma_count_where_permutation(xs, ys, |x: ItemView| is_stackable(x));
}

/// Summarising a catalog after putting it in canonical order gives the
/// same summary.
pub proof fn lemma_summary_of_canonical_order(source: Seq<char>, xs: Seq<ItemView>)
    ensures
        summary_of(source, sorted_items(xs)) == summary_of(source, xs),
{
    lemma_sorted_items_canonical(xs);
    lemma_summary_counts_permutation(source, source, sorted_items(xs), xs);
    lemma_sorted_items_idempotent(xs);
}

/// The catalog hash is FNV-1a (64-bit) of the UTF-8 bytes of the canonical
/// JSON, written as 16 lowercase hex digits.
pub proof fn lemma_catalog_hash_of_canonical_json(items: Seq<ItemView>)
    ensures
        catalog_hash_text(items) == hex_digits(
            fnv1a(vstd::utf8::encode_utf8(canonical_json(items))) as nat,
            16,
        ),
        catalog_hash_text(items).len() == 16,
        forall|i: int|
            0 <= i < 16 ==> ('0' <= #[trigger] catalog_hash_text(items)[i] <= '9') || ('a'
                <= catalog_hash_text(items)[i] <= 'f'),
{
    lemma_hex_digits_shape(fnv1a(vstd::utf8::encode_utf8(canonical_json(items))) as nat, 16);
}

proof fn lemma_hex_digits_shape(h: nat, n: nat)
    ensures
        hex_digits(h, n).len() == n,
        forall|i: int|
            0 <= i < n ==> ('0' <= #[trigger] hex_digits(h, n)[i] <= '9') || ('a' <= hex_digits(h, n)[i]
                <= 'f'),
    decreases n,
{
    if n > 0 {
        lemma_hex_digits_shape(h / 16, (n - 1) as nat);
        let d = h % 16;
        assert(d < 16);
        assert(hex_char(d) == (if d < 10 { (d + 48) as char } else { (d - 10 + 97) as char }));
        let r = hex_digits(h, n);
        assert forall|i: int| 0 <= i < n implies ('0' <= #[trigger] r[i] <= '9') || ('a' <= r[i] <= 'f') by {
            if i < n - 1 {
                assert(r[i] == hex_digits(h / 16, (n - 1) as nat)[i]);
            }
        }
    }
}

/// The warning a diff gives when it removes `n` items.
pub open spec fn removal_warning(n: nat) -> Seq<char> {
    dec(n) + " item(s) will be removed and require explicit confirmation"@
}

/// A diff's summaries are those of the two catalogs (labelled `active` and
/// `candidate`), it carries the source URL and version it was given, it
/// warns of removals exactly when it removes something, and it has one
/// blocking problem for each count that shrinks too far: all items by more
/// than 10%, gradeable or stackable items by more than 25%.
pub proof fn lemma_diff_summaries(
    cur: Seq<ItemView>,
    cand: Seq<ItemView>,
    source_url: Option<Seq<char>>,
    source_version: Option<Seq<char>>,
)
    ensures
        ({
            let d = diff_of(cur, cand, source_url, source_version);
            let c = summary_of("active"@, cur);
            let k = summary_of("candidate"@, cand);
            &&& d.current == c
            &&& d.candidate == k
            &&& d.source_url == source_url
            &&& d.source_version == source_version
            &&& (d.removed.len() > 0) <==> d.warnings.contains(removal_warning(d.removed.len()))
            &&& d.blocking_errors.len() == (if k.item_count * 10 < c.item_count * 9 {
                1int
            } else {
                0int
            }) + (if k.gradeable_count * 4 < c.gradeable_count * 3 {
                1int
            } else {
                0int
            }) + (if k.stackable_count * 4 < c.stackable_count * 3 {
                1int
            } else {
                0int
            })
        }),
{
    let d = diff_of(cur, cand, source_url, source_version);
    lemma_summary_of_canonical_order("active"@, cur);
    lemma_summary_of_canonical_order("candidate"@, cand);
    let n = d.removed.len();
    if n > 0 {
        assert(d.warnings[0] == removal_warning(n));
    } else {
        reveal_strlit("candidate catalog contains ");
        assert(dec(0) == seq!['0']);
        if d.warnings.contains(removal_warning(n)) {
            let i = choose|i: int| 0 <= i < d.warnings.len() && d.warnings[i] == removal_warning(n);
            assert(removal_warning(n)[0] == '0');
            assert(d.warnings[i][0] == 'c');
        }
    }
}

/// Comparing in the other direction swaps what is added and removed and
/// the roles of the two summaries.
pub proof fn lemma_diff_reversed(
    a: Seq<ItemView>,
    b: Seq<ItemView>,
    source_url: Option<Seq<char>>,
    source_version: Option<Seq<char>>,
)
    ensures
        diff_of(b, a, source_url, source_version).added == diff_of(
            a,
            b,
            source_url,
            source_version,
        ).removed,
        diff_of(b, a, source_url, source_version).removed == diff_of(
            a,
            b,
            source_url,
            source_version,
        ).added,
        diff_of(b, a, source_url, source_version).current.item_count == diff_of(
            a,
            b,
            source_url,
            source_version,
        ).candidate.item_count,
        diff_of(b, a, source_url, source_version).candidate.catalog_hash == diff_of(
            a,
            b,
            source_url,
            source_version,
        ).current.catalog_hash,
{
}

/// A catalog compared with itself has equal summaries on both sides,
/// counting all its items.
pub proof fn lemma_diff_with_itself_summaries(
    items: Seq<ItemView>,
    source_url: Option<Seq<char>>,
    source_version: Option<Seq<char>>,
)
    ensures
        ({
            let d = diff_of(items, items, source_url, source_version);
            &&& d.current.item_count == items.len()
            &&& d.candidate.item_count == items.len()
            &&& d.current.gradeable_count == d.candidate.gradeable_count
            &&& d.current.stackable_count == d.candidate.stackable_count
            &&& d.current.catalog_hash == d.candidate.catalog_hash
            &&& d.removed.len() == 0
            &&& !d.warnings.contains(removal_warning(0))
        }),
{
    lemma_diff_summaries(items, items, source_url, source_version);
    lemma_diff_with_itself(items, source_url, source_version);
}


/// No two items share a lowercase id.
pub open spec fn ids_distinct(items: Seq<ItemView>) -> bool {
    forall|i: int, j: int|
        0 <= i < j < items.len() ==> id_key(#[trigger] items[i]) != id_key(#[trigger] items[j])
}

proof fn lemma_count_key_as_count_where(items: Seq<ItemView>, k: Seq<char>)
    ensures
        count_key(items, k) == count_where(items, |x: ItemView| id_key(x) == k),
    decreases items.len(),
{
    if items.len() > 0 {
        lemma_count_key_as_count_where(items.drop_last(), k);
    }
}

proof fn lemma_count_where_positive(s: Seq<ItemView>, f: spec_fn(ItemView) -> bool, i: int)
    requires
        0 <= i < s.len(),
        f(s[i]),
    ensures
        count_where(s, f) >= 1,
    decreases s.len(),
{
    if i < s.len() - 1 {
        assert(s.drop_last()[i] == s[i]);
        lemma_count_where_positive(s.drop_last(), f, i);
    }
}

proof fn lemma_count_where_witness(s: Seq<ItemView>, f: spec_fn(ItemView) -> bool)
    requires
        count_where(s, f) >= 1,
    ensures
        exists|i: int| 0 <= i < s.len() && f(#[trigger] s[i]),
    decreases s.len(),
{
    if !f(s.last()) {
        lemma_count_where_witness(s.drop_last(), f);
        let i = choose|i: int| 0 <= i < s.drop_last().len() && f(#[trigger] s.drop_last()[i]);
        assert(s[i] == s.drop_last()[i]);
    } else {
        assert(f(s[s.len() - 1]));
    }
}

proof fn lemma_count_where_two(s: Seq<ItemView>, f: spec_fn(ItemView) -> bool)
    ensures
        count_where(s, f) >= 2 <==> exists|i: int, j: int|
            0 <= i < j < s.len() && f(#[trigger] s[i]) && f(#[trigger] s[j]),
    decreases s.len(),
{
    if s.len() > 0 {
        let s0 = s.drop_last();
        lemma_count_where_two(s0, f);
        if count_where(s, f) >= 2 {
            if f(s.last()) {
                lemma_count_where_witness(s0, f);
                let i = choose|i: int| 0 <= i < s0.len() && f(#[trigger] s0[i]);
                assert(s[i] == s0[i] && f(s[s.len() - 1]));
            } else {
                let (i, j) = choose|i: int, j: int|
                    0 <= i < j < s0.len() && f(#[trigger] s0[i]) && f(#[trigger] s0[j]);
                assert(s[i] == s0[i] && s[j] == s0[j]);
            }
        }
        if exists|i: int, j: int| 0 <= i < j < s.len() && f(#[trigger] s[i]) && f(#[trigger] s[j]) {
            let (i, j) = choose|i: int, j: int|
                0 <= i < j < s.len() && f(#[trigger] s[i]) && f(#[trigger] s[j]);
            assert(s0[i] == s[i]);
            if j < s.len() - 1 {
                assert(s0[j] == s[j]);
            } else {
                lemma_count_where_positive(s0, f, i);
            }
        }
    } else {
        assert(!(exists|i: int, j: int| 0 <= i < j < s.len() && f(#[trigger] s[i]) && f(#[trigger] s[j])));
    }
}

proof fn lemma_duplicate_keys_empty(entries: Seq<ItemView>, items: Seq<ItemView>)
    ensures
        (duplicate_keys(entries, items).len() == 0) <==> forall|j: int|
            0 <= j < entries.len() ==> count_key(items, id_key(#[trigger] entries[j])) <= 1,
    decreases entries.len(),
{
    if entries.len() > 0 {
        let e0 = entries.drop_last();
        lemma_duplicate_keys_empty(e0, items);
        if forall|j: int| 0 <= j < entries.len() ==> count_key(items, id_key(#[trigger] entries[j])) <= 1 {
            assert forall|j: int| 0 <= j < e0.len() implies count_key(items, id_key(#[trigger] e0[j])) <= 1 by {
                assert(e0[j] == entries[j]);
            }
            assert(count_key(items, id_key(entries[entries.len() - 1])) <= 1);
        }
        if duplicate_keys(entries, items).len() == 0 {
            assert forall|j: int| 0 <= j < entries.len() implies count_key(items, id_key(#[trigger] entries[j])) <= 1 by {
                if j < e0.len() {
                    assert(e0[j] == entries[j]);
                } else {
                    assert(entries[j] == entries.last());
                }
            }
        }
    }
}

/// Duplicate ids are reported exactly when two items share a lowercase id.
pub proof fn lemma_duplicate_ids_iff(items: Seq<ItemView>)
    ensures
        (duplicate_ids_of(sorted_items(items)).len() == 0) <==> ids_distinct(items),
{
    broadcast use vstd::seq_lib::group_to_multiset_ensures;

    let ss = sorted_items(items);
    let es = index_by_id(ss);
    lemma_sorted_items_canonical(items);
    lemma_catalog_index_keys(items);
    lemma_duplicate_keys_empty(es, ss);
    // every entry's id is an item's id and back
    assert forall|k: Seq<char>| #[trigger] id_keys(items).contains(k) implies count_key(ss, k)
        == count_key(items, k) by {
        lemma_count_key_as_count_where(ss, k);
        lemma_count_key_as_count_where(items, k);
        lemma_count_where_permutation(ss, items, |x: ItemView| id_key(x) == k);
    }
    if ids_distinct(items) {
        assert forall|j: int| 0 <= j < es.len() implies count_key(ss, id_key(#[trigger] es[j])) <= 1 by {
            let k = id_key(es[j]);
            assert(id_keys(es).contains(k));
            assert(id_keys(items).contains(k));
            lemma_count_key_as_count_where(items, k);
            lemma_count_where_two(items, |x: ItemView| id_key(x) == k);
            if count_key(items, k) >= 2 {
                let (a, b) = choose|a: int, b: int|
                    0 <= a < b < items.len() && (|x: ItemView| id_key(x) == k)(#[trigger] items[a]) && (|
                        x: ItemView,
                    | id_key(x) == k)(#[trigger] items[b]);
                assert(id_key(items[a]) == id_key(items[b]));
            }
        }
    }
    if duplicate_ids_of(ss).len() == 0 {
        assert forall|a: int, b: int| 0 <= a < b < items.len() implies id_key(#[trigger] items[a])
            != id_key(#[trigger] items[b]) by {
            let k = id_key(items[a]);
            if k == id_key(items[b]) {
                assert(id_keys(items).contains(k));
                assert(id_keys(es).contains(k));
                let j = choose|j: int| 0 <= j < es.len() && #[trigger] id_key(es[j]) == k;
                assert(count_key(ss, id_key(es[j])) <= 1);
                lemma_count_key_as_count_where(items, k);
                lemma_count_where_two(items, |x: ItemView| id_key(x) == k);
                assert((|x: ItemView| id_key(x) == k)(items[a]));
                assert((|x: ItemView| id_key(x) == k)(items[b]));
            }
        }
    }
}

/// A catalog compared with itself warns of nothing exactly when no two of
/// its items share a lowercase id.
pub proof fn lemma_diff_with_itself_warnings(
    items: Seq<ItemView>,
    source_url: Option<Seq<char>>,
    source_version: Option<Seq<char>>,
)
    ensures
        (diff_of(items, items, source_url, source_version).warnings.len() == 0) <==> ids_distinct(items),
{
    lemma_diff_with_itself(items, source_url, source_version);
    lemma_duplicate_ids_iff(items);
}


// ---------------------------------------------------------------------------
// Checking rows, applying and exporting
// ---------------------------------------------------------------------------

/// Every row yields an item.
pub open spec fn all_rows_ok(rows: Seq<RowView>) -> bool {
    forall|i: int| 0 <= i < rows.len() ==> (#[trigger] row_outcome(rows[i], i as nat)) is Ok
}

/// The rows check out exactly when every row yields an item; the items are
/// then those of the rows in order, and otherwise the problem reported is
/// that of the first row that fails.
pub proof fn lemma_rows_items_iff(rows: Seq<RowView>)
    ensures
        (rows_items(rows) is Ok) <==> all_rows_ok(rows),
        rows_items(rows) is Ok ==> rows_items(rows)->Ok_0.len() == rows.len() && forall|i: int|
            0 <= i < rows.len() ==> rows_items(rows)->Ok_0[i] == (#[trigger] row_outcome(
                rows[i],
                i as nat,
            ))->Ok_0,
        rows_items(rows) is Err ==> exists|j: int|
            0 <= j < rows.len() && (#[trigger] row_outcome(rows[j], j as nat)) is Err && rows_items(
                rows,
            ) == Err::<Seq<ItemView>, Seq<char>>(row_outcome(rows[j], j as nat)->Err_0) && forall|
                i: int,
            |
                0 <= i < j ==> (#[trigger] row_outcome(rows[i], i as nat)) is Ok,
    decreases rows.len(),
{
    if rows.len() > 0 {
        let r0 = rows.drop_last();
        let n = rows.len() - 1;
        lemma_rows_items_iff(r0);
        assert forall|i: int| 0 <= i < n implies r0[i] == rows[i] by {}
        if all_rows_ok(rows) {
            assert forall|i: int| 0 <= i < r0.len() implies (#[trigger] row_outcome(r0[i], i as nat)) is Ok by {
                assert(row_outcome(rows[i], i as nat) is Ok);
            }
            assert(row_outcome(rows[n], n as nat) is Ok);
        }
        if rows_items(rows) is Ok {
            assert forall|i: int| 0 <= i < rows.len() implies (#[trigger] row_outcome(rows[i], i as nat)) is Ok by {
                if i < n {
                    assert(row_outcome(r0[i], i as nat) is Ok);
                }
            }
            let items = rows_items(rows)->Ok_0;
            assert forall|i: int| 0 <= i < rows.len() implies items[i] == (#[trigger] row_outcome(
                rows[i],
                i as nat,
            ))->Ok_0 by {
                if i < n {
                    assert(items[i] == rows_items(r0)->Ok_0[i]);
                    assert(row_outcome(r0[i], i as nat) == row_outcome(rows[i], i as nat));
                }
            }
        }
        if rows_items(rows) is Err {
            if rows_items(r0) is Err {
                let j = choose|j: int|
                    0 <= j < r0.len() && (#[trigger] row_outcome(r0[j], j as nat)) is Err && rows_items(r0)
                        == Err::<Seq<ItemView>, Seq<char>>(row_outcome(r0[j], j as nat)->Err_0) && forall|
                        i: int,
                    | 0 <= i < j ==> (#[trigger] row_outcome(r0[i], i as nat)) is Ok;
                assert(row_outcome(rows[j], j as nat) == row_outcome(r0[j], j as nat));
                assert forall|i: int| 0 <= i < j implies (#[trigger] row_outcome(rows[i], i as nat)) is Ok by {
                    assert(row_outcome(r0[i], i as nat) is Ok);
                }
            } else {
                assert(row_outcome(rows[n], n as nat) is Err);
                assert forall|i: int| 0 <= i < n implies (#[trigger] row_outcome(rows[i], i as nat)) is Ok by {
                    assert(row_outcome(r0[i], i as nat) is Ok);
                }
            }
        }
    }
}

/// A JSON array validates as a catalog exactly when it has between 1 and
/// 20000 elements, every element yields an item, and the sentinel items
/// among them keep their metadata; the catalog is then those items in
/// canonical order: the same items, ordered by lowercase id.
pub proof fn lemma_catalog_validates_iff(rows: Seq<RowView>)
    ensures
        (catalog_from_rows(Some(rows)) is Ok) <==> (0 < rows.len() <= 20000 && all_rows_ok(rows)
            && sentinel_error(rows_items(rows)->Ok_0) is None),
        catalog_from_rows(Some(rows)) is Ok ==> catalog_from_rows(Some(rows))->Ok_0 == sorted_items(
            rows_items(rows)->Ok_0,
        ),
        catalog_from_rows(Some(rows)) is Ok ==> catalog_from_rows(Some(rows))->Ok_0.to_multiset()
            == rows_items(rows)->Ok_0.to_multiset() && in_canonical_order(
            catalog_from_rows(Some(rows))->Ok_0,
        ),
{
    lemma_rows_items_iff(rows);
    lemma_sorted_items_canonical(rows_items(rows)->Ok_0);
}

/// An item breaks a rule exactly when its id, name, category or source is
/// blank once trimmed, its tier or stack size is 0, or it is gradeable
/// without a stack size of 1; the message then starts with its row number
/// (counted from 1).
pub proof fn lemma_item_error_iff(it: ItemView, idx: nat)
    ensures
        (item_error(it, idx) is Some) <==> (trim(it.id).len() == 0 || trim(it.name).len() == 0
            || trim(it.category).len() == 0 || trim(it.source).len() == 0 || it.tier == Some(0u32)
            || it.stack_max == Some(0u32) || (it.gradeable && it.stack_max != Some(1u32))),
        item_error(it, idx) is Some ==> starts_with(item_error(it, idx)->0, row_prefix(idx + 1)),
{
    if item_error(it, idx) is Some {
        let m = item_error(it, idx)->0;
        let p = row_prefix(idx + 1);
        assert(m.take(p.len() as int) =~= p);
    }
}

/// An apply is refused exactly when the diff has a blocking problem, or
/// when it removes items and removals were not confirmed.
pub proof fn lemma_apply_refused_iff(d: DiffView, confirm_removals: bool)
    ensures
        (apply_refusal(d, confirm_removals) is Some) <==> (d.blocking_errors.len() > 0 || (
        !confirm_removals && d.removed.len() > 0)),
{
}

/// Exporting and applying again changes nothing: when a valid override is
/// in force, its export holds its items in the same order, those items read
/// back as the stored rows validate to themselves, and applying them shows
/// nothing added, removed or changed and is not refused, even without
/// confirming removals.
pub proof fn lemma_export_reapplies_unchanged(
    doc: DocumentView,
    source_url: Option<Seq<char>>,
    source_version: Option<Seq<char>>,
)
    requires
        crate::catalog::catalog_from_document(doc) is Ok,
    ensures
        ({
            let items = active_items_of(Some(doc));
            let d = diff_of(items, items, source_url, source_version);
            &&& canonical_json(items) == catalog_json_text(items)
            &&& catalog_from_rows(Some(item_rows(items))) == Ok::<Seq<ItemView>, Seq<char>>(items)
            &&& d.added.len() == 0
            &&& d.removed.len() == 0
            &&& d.changed.len() == 0
            &&& apply_refusal(d, false) is None
        }),
{
    let rows = match doc {
        DocumentView::Parsed(Some(rs)) => rs,
        _ => seq![],
    };
    assert(catalog_from_rows(Some(rows)) is Ok);
    let items = catalog_from_rows(Some(rows))->Ok_0;
    lemma_stored_catalog_reads_back(rows);
    let raw = rows_items(rows)->Ok_0;
    lemma_sorted_items_idempotent(raw);
    lemma_diff_with_itself(items, source_url, source_version);
}


/// The lowercase ids of a diff's changes, in order.
pub open spec fn change_keys(cs: Seq<ChangeView>) -> Seq<Seq<char>> {
    cs.map_values(|c: ChangeView| id_key(c.after))
}

proof fn lemma_strict_same_members(xs: Seq<Seq<char>>, ys: Seq<Seq<char>>)
    requires
        forall|i: int, j: int| 0 <= i < j < xs.len() ==> text_lt(#[trigger] xs[i], #[trigger] xs[j]),
        forall|i: int, j: int| 0 <= i < j < ys.len() ==> text_lt(#[trigger] ys[i], #[trigger] ys[j]),
        forall|k: Seq<char>| #![trigger xs.contains(k)] #![trigger ys.contains(k)] xs.contains(k) <==> ys.contains(k),
    ensures
        xs == ys,
    decreases xs.len(),
{
    if xs.len() == 0 {
        if ys.len() > 0 {
            assert(ys.contains(ys[0]));
            assert(false);
        }
        assert(ys =~= xs);
    } else if ys.len() == 0 {
        assert(xs.contains(xs[0]));
        assert(false);
    } else {
        let x0 = xs[0];
        let y0 = ys[0];
        assert(xs.contains(x0));
        assert(ys.contains(y0));
        let j = choose|j: int| 0 <= j < ys.len() && ys[j] == x0;
        let i = choose|i: int| 0 <= i < xs.len() && xs[i] == y0;
        if j > 0 {
            assert(text_lt(ys[0], ys[j]));
            if i > 0 {
                assert(text_lt(xs[0], xs[i]));
                lemma_text_lt_transitive(y0, x0, y0);
            }
            lemma_text_lt_irreflexive(y0);
            assert(false);
        }
        assert(x0 == y0);
        let xt = xs.drop_first();
        let yt = ys.drop_first();
        assert forall|k: Seq<char>| #![trigger xt.contains(k)] #![trigger yt.contains(k)] xt.contains(k) <==> yt.contains(k) by {
            if xt.contains(k) {
                let a = choose|a: int| 0 <= a < xt.len() && xt[a] == k;
                assert(xs[a + 1] == k);
                assert(text_lt(x0, k));
                lemma_text_lt_irreflexive(x0);
                assert(xs.contains(k));
                assert(ys.contains(k));
                let b = choose|b: int| 0 <= b < ys.len() && ys[b] == k;
                assert(b != 0);
                assert(yt[b - 1] == k);
            }
            if yt.contains(k) {
                let a = choose|a: int| 0 <= a < yt.len() && yt[a] == k;
                assert(ys[a + 1] == k);
                assert(text_lt(y0, k));
                lemma_text_lt_irreflexive(y0);
                assert(ys.contains(k));
                assert(xs.contains(k));
                let b = choose|b: int| 0 <= b < xs.len() && xs[b] == k;
                assert(b != 0);
                assert(xt[b - 1] == k);
            }
        }
        assert forall|a: int, b: int| 0 <= a < b < xt.len() implies text_lt(#[trigger] xt[a], #[trigger] xt[b]) by {
            assert(xt[a] == xs[a + 1] && xt[b] == xs[b + 1]);
        }
        assert forall|a: int, b: int| 0 <= a < b < yt.len() implies text_lt(#[trigger] yt[a], #[trigger] yt[b]) by {
            assert(yt[a] == ys[a + 1] && yt[b] == ys[b + 1]);
        }
        lemma_strict_same_members(xt, yt);
        assert(xs == seq![x0] + xt);
        assert(ys == seq![y0] + yt);
    }
}

proof fn lemma_change_keys_of_diff(
    a: Seq<ItemView>,
    b: Seq<ItemView>,
    source_url: Option<Seq<char>>,
    source_version: Option<Seq<char>>,
    k: Seq<char>,
)
    ensures
        change_keys(diff_of(a, b, source_url, source_version).changed).contains(k) <==> (find_by_key(
            catalog_index(a),
            k,
        ) is Some && find_by_key(catalog_index(b), k) is Some && changed_fields_of(
            find_by_key(catalog_index(a), k)->0,
            find_by_key(catalog_index(b), k)->0,
        ).len() > 0),
{
    let d = diff_of(a, b, source_url, source_version);
    let ks = change_keys(d.changed);
    lemma_diff_by_id(a, b, source_url, source_version);
    if ks.contains(k) {
        let i = choose|i: int| 0 <= i < ks.len() && ks[i] == k;
        assert(ks[i] == id_key(d.changed[i].after));
        assert(change_entry_ok(d.changed[i], catalog_index(b), catalog_index(a)));
    }
    if find_by_key(catalog_index(a), k) is Some && find_by_key(catalog_index(b), k) is Some
        && changed_fields_of(find_by_key(catalog_index(a), k)->0, find_by_key(catalog_index(b), k)->0).len()
        > 0 {
        lemma_diff_changes_complete(a, b, source_url, source_version, k);
        let j = choose|j: int|
            0 <= j < d.changed.len() && (#[trigger] d.changed[j]).after == find_by_key(catalog_index(b), k)->0
                && d.changed[j].before == find_by_key(catalog_index(a), k)->0;
        lemma_find_by_key_facts(catalog_index(b), k);
        assert(ks[j] == id_key(d.changed[j].after));
    }
}

/// Comparing in the other direction lists the same changes, id by id and
/// in the same order, with `before` and `after` swapped, the same fields,
/// and the id taken from the other side.
pub proof fn lemma_diff_reversed_changes(
    a: Seq<ItemView>,
    b: Seq<ItemView>,
    source_url: Option<Seq<char>>,
    source_version: Option<Seq<char>>,
)
    ensures
        ({
            let d1 = diff_of(a, b, source_url, source_version);
            let d2 = diff_of(b, a, source_url, source_version);
            &&& d2.changed.len() == d1.changed.len()
            &&& forall|k: int|
                0 <= k < d1.changed.len() ==> (#[trigger] d2.changed[k]).before == d1.changed[k].after
                    && d2.changed[k].after == d1.changed[k].before && d2.changed[k].fields
                    == d1.changed[k].fields && d2.changed[k].id == d1.changed[k].before.id
        }),
{
    let d1 = diff_of(a, b, source_url, source_version);
    let d2 = diff_of(b, a, source_url, source_version);
    let ia = catalog_index(a);
    let ib = catalog_index(b);
    lemma_diff_by_id(a, b, source_url, source_version);
    lemma_diff_by_id(b, a, source_url, source_version);
    let k1 = change_keys(d1.changed);
    let k2 = change_keys(d2.changed);
    assert forall|k: Seq<char>| #![trigger k1.contains(k)] #![trigger k2.contains(k)] k1.contains(k) <==> k2.contains(k) by {
        lemma_change_keys_of_diff(a, b, source_url, source_version, k);
        lemma_change_keys_of_diff(b, a, source_url, source_version, k);
        if find_by_key(ia, k) is Some && find_by_key(ib, k) is Some {
            assert(changed_fields_of(find_by_key(ia, k)->0, find_by_key(ib, k)->0) =~= changed_fields_of(
                find_by_key(ib, k)->0,
                find_by_key(ia, k)->0,
            ));
        }
    }
    assert forall|i: int, j: int| 0 <= i < j < k1.len() implies text_lt(#[trigger] k1[i], #[trigger] k1[j]) by {
        assert(k1[i] == id_key(d1.changed[i].after) && k1[j] == id_key(d1.changed[j].after));
    }
    assert forall|i: int, j: int| 0 <= i < j < k2.len() implies text_lt(#[trigger] k2[i], #[trigger] k2[j]) by {
        assert(k2[i] == id_key(d2.changed[i].after) && k2[j] == id_key(d2.changed[j].after));
    }
    lemma_strict_same_members(k1, k2);
    assert forall|k: int| 0 <= k < d1.changed.len() implies (#[trigger] d2.changed[k]).before
        == d1.changed[k].after && d2.changed[k].after == d1.changed[k].before && d2.changed[k].fields
        == d1.changed[k].fields && d2.changed[k].id == d1.changed[k].before.id by {
        let c1 = d1.changed[k];
        let c2 = d2.changed[k];
        assert(k1[k] == id_key(c1.after) && k2[k] == id_key(c2.after));
        let key = id_key(c1.after);
        assert(change_entry_ok(c1, ib, ia));
        assert(change_entry_ok(c2, ia, ib));
        assert(find_by_key(ib, key) == Some(c1.after));
        assert(find_by_key(ia, key) == Some(c2.after));
        assert(c2.fields =~= c1.fields);
    }
}


/// No two items share the key the catalog is ordered by.
pub open spec fn sort_keys_distinct(s: Seq<ItemView>) -> bool {
    forall|i: int, j: int|
        0 <= i < j < s.len() ==> sort_key(#[trigger] s[i]) != sort_key(#[trigger] s[j])
}

proof fn lemma_sort_keys_distinct_permutation(xs: Seq<ItemView>, ys: Seq<ItemView>)
    requires
        xs.to_multiset() == ys.to_multiset(),
        sort_keys_distinct(xs),
    ensures
        sort_keys_distinct(ys),
{
    broadcast use vstd::seq_lib::group_to_multiset_ensures;
    broadcast use vstd::multiset::group_multiset_axioms;

    assert forall|i: int, j: int| 0 <= i < j < ys.len() implies sort_key(#[trigger] ys[i]) != sort_key(
        #[trigger] ys[j],
    ) by {
        if sort_key(ys[i]) == sort_key(ys[j]) {
            let u = ys[i];
            let w = ys[j];
            let yr = ys.remove(i);
            assert(yr[j - 1] == w);
            assert(yr.contains(w));
            assert(yr.to_multiset().count(w) > 0);
            assert(ys.to_multiset().count(u) > 0);
            assert(xs.contains(u));
            let p = choose|p: int| 0 <= p < xs.len() && xs[p] == u;
            let xr = xs.remove(p);
            assert(xr.to_multiset() == xs.to_multiset().remove(u));
            assert(yr.to_multiset() == ys.to_multiset().remove(u));
            assert(xr.to_multiset().count(w) > 0);
            assert(xr.contains(w));
            let q = choose|q: int| 0 <= q < xr.len() && xr[q] == w;
            if q < p {
                assert(xs[q] == w);
                assert(sort_key(xs[q]) != sort_key(xs[p]));
            } else {
                assert(xs[q + 1] == w);
                assert(sort_key(xs[p]) != sort_key(xs[q + 1]));
            }
        }
    }
}

proof fn lemma_canonical_unique(a: Seq<ItemView>, b: Seq<ItemView>)
    requires
        a.to_multiset() == b.to_multiset(),
        in_canonical_order(a),
        in_canonical_order(b),
        sort_keys_distinct(a),
    ensures
        a == b,
    decreases a.len(),
{
    broadcast use vstd::seq_lib::group_to_multiset_ensures;
    broadcast use vstd::multiset::group_multiset_axioms;

    assert(a.to_multiset().len() == a.len());
    assert(b.to_multiset().len() == b.len());
    if a.len() == 0 {
        assert(b.len() == 0);
        assert(a =~= b);
    } else {
        let a0 = a[0];
        let b0 = b[0];
        assert(a.to_multiset().count(a0) > 0);
        assert(b.contains(a0));
        let j = choose|j: int| 0 <= j < b.len() && b[j] == a0;
        assert(b.to_multiset().count(b0) > 0);
        assert(a.contains(b0));
        let i = choose|i: int| 0 <= i < a.len() && a[i] == b0;
        if i > 0 && j > 0 {
            assert(!text_lt(sort_key(b[j]), sort_key(b[0])));
            assert(!text_lt(sort_key(a[i]), sort_key(a[0])));
            lemma_text_lt_trichotomy(sort_key(a0), sort_key(b0));
            assert(sort_key(a[0]) != sort_key(a[i]));
        }
        assert(a0 == b0);
        let at = a.drop_first();
        let bt = b.drop_first();
        assert(at == a.remove(0));
        assert(bt == b.remove(0));
        assert(at.to_multiset() =~= bt.to_multiset());
        assert(in_canonical_order(at)) by {
            assert forall|x: int, y: int| 0 <= x < y < at.len() implies !text_lt(
                #[trigger] sort_key(at[y]),
                #[trigger] sort_key(at[x]),
            ) by {
                assert(at[x] == a[x + 1] && at[y] == a[y + 1]);
            }
        }
        assert(in_canonical_order(bt)) by {
            assert forall|x: int, y: int| 0 <= x < y < bt.len() implies !text_lt(
                #[trigger] sort_key(bt[y]),
                #[trigger] sort_key(bt[x]),
            ) by {
                assert(bt[x] == b[x + 1] && bt[y] == b[y + 1]);
            }
        }
        assert(sort_keys_distinct(at)) by {
            assert forall|x: int, y: int| 0 <= x < y < at.len() implies sort_key(#[trigger] at[x])
                != sort_key(#[trigger] at[y]) by {
                assert(at[x] == a[x + 1] && at[y] == a[y + 1]);
            }
        }
        lemma_canonical_unique(at, bt);
        assert(a =~= seq![a0] + at);
        assert(b =~= seq![b0] + bt);
    }
}

/// When no two items share the key the catalog is ordered by, the whole
/// summary, hash included, depends only on which items the catalog holds,
/// not on their order. (Two items whose ids differ only in case keep their
/// relative order in the canonical JSON, so there the hash can follow the
/// input order.)
pub proof fn lemma_summary_permutation(source: Seq<char>, xs: Seq<ItemView>, ys: Seq<ItemView>)
    requires
        xs.to_multiset() == ys.to_multiset(),
        sort_keys_distinct(xs),
    ensures
        summary_of(source, xs) == summary_of(source, ys),
        sorted_items(xs) == sorted_items(ys),
{
    lemma_summary_counts_permutation(source, source, xs, ys);
    lemma_sorted_items_canonical(xs);
    lemma_sorted_items_canonical(ys);
    lemma_sort_keys_distinct_permutation(xs, sorted_items(xs));
    lemma_canonical_unique(sorted_items(xs), sorted_items(ys));
}


proof fn lemma_ws_suffix_short(s: Seq<char>)
    requires
        s.len() > 0,
        !is_ws(s[0]),
    ensures
        ws_suffix_len(s) < s.len(),
    decreases s.len(),
{
    if s.len() > 1 && is_ws(s.last()) {
        assert(s.drop_last()[0] == s[0]);
        lemma_ws_suffix_short(s.drop_last());
    }
}

/// Text that starts with a character other than whitespace keeps some
/// characters when trimmed.
proof fn lemma_trim_nonempty(s: Seq<char>)
    requires
        s.len() > 0,
        !is_ws(s[0]),
    ensures
        trim(s).len() > 0,
{
    assert(ws_prefix_len(s) == 0);
    assert(s.skip(0) =~= s);
    lemma_ws_suffix_short(s);
}

proof fn lemma_item_valid(it: ItemView)
    requires
        it.id.len() > 0 && !is_ws(it.id[0]),
        it.name.len() > 0 && !is_ws(it.name[0]),
        it.category.len() > 0 && !is_ws(it.category[0]),
        it.source.len() > 0 && !is_ws(it.source[0]),
        it.tier != Some(0u32),
        it.stack_max != Some(0u32),
        it.gradeable ==> it.stack_max == Some(1u32),
    ensures
        valid_item(it),
{
    lemma_trim_nonempty(it.id);
    lemma_trim_nonempty(it.name);
    lemma_trim_nonempty(it.category);
    lemma_trim_nonempty(it.source);
}

/// The bundled catalog obeys the catalog's rules: stored as rows, it
/// validates, to its items in canonical order.
pub proof fn lemma_bundled_catalog_valid()
    ensures
        forall|k: int|
            0 <= k < bundled_catalog().len() ==> valid_item(#[trigger] bundled_catalog()[k]),
        sentinel_error(bundled_catalog()) is None,
        catalog_from_rows(Some(item_rows(bundled_catalog()))) == Ok::<Seq<ItemView>, Seq<char>>(
            sorted_items(bundled_catalog()),
        ),
{
    reveal_strlit("AluminiumBar");
    reveal_strlit("Aluminum Ingot");
    reveal_strlit("Resources");
    reveal_strlit("T6_Augment_Acuracy1");
    reveal_strlit("Accuracy Augment");
    reveal_strlit("Augments");
    reveal_strlit("CopperBar");
    reveal_strlit("Copper Ingot");
    reveal_strlit("IronBar");
    reveal_strlit("Iron Ingot");
    reveal_strlit("SteelBar");
    reveal_strlit("Steel Ingot");
    reveal_strlit("PlantFiber");
    reveal_strlit("Plant Fiber");
    reveal_strlit("SpiceMelange");
    reveal_strlit("Spice Melange");
    reveal_strlit("T3_Augment_Damage1");
    reveal_strlit("Damage Augment");
    reveal_strlit("T4_Augment_Durability1");
    reveal_strlit("Durability Augment");
    reveal_strlit("T5_Augment_Reload1");
    reveal_strlit("Reload Augment");
    reveal_strlit("BasicStillsuit");
    reveal_strlit("Basic Stillsuit");
    reveal_strlit("Garments");
    reveal_strlit("HealingKit");
    reveal_strlit("Healing Kit");
    reveal_strlit("Consumables");
    reveal_strlit("bundled");
    let b = bundled_catalog();
    assert(b.len() == 12);
    assert forall|k: int| 0 <= k < b.len() implies valid_item(#[trigger] b[k]) by {
        lemma_item_valid(b[k]);
    }
    lemma_item_rows_read_back(b);
    assert(b[0].id != augment_id());
    assert(b.drop_first()[0] == b[1]);
    assert(find_item_in(b.drop_first(), augment_id()) == Some(b[1]));
    assert(find_item_in(b, augment_id()) == Some(b[1]));
    assert(find_item_in(b, aluminium_id()) == Some(b[0]));
    assert(item_rows(b).len() == 12);
}

/// Exporting the catalog in force and applying it again changes nothing,
/// whatever is stored: the export holds the catalog's items in canonical
/// order, which read back as the stored rows validate to themselves, and
/// applying them shows nothing added, removed or changed and is not
/// refused, even without confirming removals.
pub proof fn lemma_export_reapplies_unchanged_in_force(
    doc: Option<DocumentView>,
    source_url: Option<Seq<char>>,
    source_version: Option<Seq<char>>,
)
    ensures
        ({
            let items = active_items_of(doc);
            let exported = sorted_items(items);
            let d = diff_of(items, exported, source_url, source_version);
            &&& canonical_json(items) == catalog_json_text(exported)
            &&& catalog_from_rows(Some(item_rows(exported))) == Ok::<Seq<ItemView>, Seq<char>>(
                exported,
            )
            &&& d.added.len() == 0
            &&& d.removed.len() == 0
            &&& d.changed.len() == 0
            &&& apply_refusal(d, false) is None
        }),
{
    let items = active_items_of(doc);
    let rows = match doc {
        Some(DocumentView::Parsed(Some(rs))) => if catalog_from_rows(Some(rs)) is Ok {
            rs
        } else {
            item_rows(bundled_catalog())
        },
        _ => item_rows(bundled_catalog()),
    };
    lemma_bundled_catalog_valid();
    assert(catalog_from_rows(Some(rows)) is Ok);
    assert(items == catalog_from_rows(Some(rows))->Ok_0 || items == bundled_catalog());
    lemma_stored_catalog_reads_back(rows);
    lemma_stored_catalog_reads_back(item_rows(bundled_catalog()));
    lemma_sorted_items_idempotent(items);
    lemma_sorted_items_idempotent(rows_items(rows)->Ok_0);
    lemma_sorted_items_idempotent(bundled_catalog());
    lemma_diff_with_itself(items, source_url, source_version);
    assert(diff_of(items, sorted_items(items), source_url, source_version) == diff_of(
        items,
        items,
        source_url,
        source_version,
    ));
}


/// The position of an item field among the fields a change can list.
pub open spec fn field_rank(f: Seq<char>) -> int {
    if f == "name"@ {
        0
    } else if f == "category"@ {
        1
    } else if f == "source"@ {
        2
    } else if f == "gradeable"@ {
        3
    } else if f == "tier"@ {
        4
    } else if f == "stackMax"@ {
        5
    } else {
        6
    }
}

/// Field lists whose entries are all among the first `k` fields, in field
/// order.
pub open spec fn ranked_below(s: Seq<Seq<char>>, k: int) -> bool {
    &&& forall|i: int| 0 <= i < s.len() ==> field_rank(#[trigger] s[i]) < k
    &&& forall|i: int, j: int|
        0 <= i < j < s.len() ==> field_rank(#[trigger] s[i]) < field_rank(#[trigger] s[j])
}

proof fn lemma_field_step(s: Seq<Seq<char>>, t: Seq<Seq<char>>, y: Seq<char>, differs: bool, k: int)
    requires
        ranked_below(s, k),
        field_rank(y) == k,
        t == (if differs { s.push(y) } else { s }),
    ensures
        ranked_below(t, k + 1),
        forall|x: Seq<char>| #[trigger] t.contains(x) <==> (s.contains(x) || (differs && x == y)),
{
    assert forall|x: Seq<char>| #[trigger] t.contains(x) <==> (s.contains(x) || (differs && x == y)) by {
        if differs {
            if t.contains(x) {
                let w = choose|w: int| 0 <= w < t.len() && t[w] == x;
                if w < s.len() {
                    assert(s[w] == x);
                }
            }
            if s.contains(x) {
                let w = choose|w: int| 0 <= w < s.len() && s[w] == x;
                assert(t[w] == x);
            }
            if x == y {
                assert(t[s.len() as int] == y);
            }
        }
    }
    if differs {
        assert forall|i: int, j: int| 0 <= i < j < t.len() implies field_rank(#[trigger] t[i])
            < field_rank(#[trigger] t[j]) by {
            assert(t[i] == s[i]);
            if j < s.len() {
                assert(t[j] == s[j]);
            }
        }
        assert forall|i: int| 0 <= i < t.len() implies field_rank(#[trigger] t[i]) < k + 1 by {
            if i < s.len() {
                assert(t[i] == s[i]);
            }
        }
    }
}

/// The fields a change lists are named for the item fields that differ:
/// each of `name`, `category`, `source`, `gradeable`, `tier` and
/// `stackMax` is listed exactly when that field differs between the two
/// items; nothing else is listed, and the list follows that field order
/// (so no field is listed twice).
pub proof fn lemma_changed_fields_named(b: ItemView, a: ItemView)
    ensures
        ({
            let f = changed_fields_of(b, a);
            &&& f.contains("name"@) <==> b.name != a.name
            &&& f.contains("category"@) <==> b.category != a.category
            &&& f.contains("source"@) <==> b.source != a.source
            &&& f.contains("gradeable"@) <==> b.gradeable != a.gradeable
            &&& f.contains("tier"@) <==> b.tier != a.tier
            &&& f.contains("stackMax"@) <==> b.stack_max != a.stack_max
            &&& ranked_below(f, 6)
        }),
{
    reveal_strlit("name");
    reveal_strlit("category");
    reveal_strlit("source");
    reveal_strlit("gradeable");
    reveal_strlit("tier");
    reveal_strlit("stackMax");
    let n0 = "name"@;
    let n1 = "category"@;
    let n2 = "source"@;
    let n3 = "gradeable"@;
    let n4 = "tier"@;
    let n5 = "stackMax"@;
    assert(n0[0] == 'n' && n1[0] == 'c' && n2[0] == 's' && n3[0] == 'g' && n4[0] == 't' && n5[0] == 's');
    assert(n2[1] == 'o' && n5[1] == 't');
    assert(n0 != n1 && n0 != n2 && n0 != n3 && n0 != n4 && n0 != n5);
    assert(n1 != n2 && n1 != n3 && n1 != n4 && n1 != n5);
    assert(n2 != n3 && n2 != n4 && n2 != n5);
    assert(n3 != n4 && n3 != n5 && n4 != n5);
    assert(field_rank(n0) == 0 && field_rank(n1) == 1 && field_rank(n2) == 2);
    assert(field_rank(n3) == 3 && field_rank(n4) == 4 && field_rank(n5) == 5);
    let f0: Seq<Seq<char>> = seq![];
    let d0 = b.name != a.name;
    let d1 = b.category != a.category;
    let d2 = b.source != a.source;
    let d3 = b.gradeable != a.gradeable;
    let d4 = b.tier != a.tier;
    let d5 = b.stack_max != a.stack_max;
    let f1 = if d0 { f0.push(n0) } else { f0 };
    let f2 = if d1 { f1.push(n1) } else { f1 };
    let f3 = if d2 { f2.push(n2) } else { f2 };
    let f4 = if d3 { f3.push(n3) } else { f3 };
    let f5 = if d4 { f4.push(n4) } else { f4 };
    let f6 = if d5 { f5.push(n5) } else { f5 };
    assert(f6 == changed_fields_of(b, a));
    lemma_field_step(f0, f1, n0, d0, 0);
    lemma_field_step(f1, f2, n1, d1, 1);
    lemma_field_step(f2, f3, n2, d2, 2);
    lemma_field_step(f3, f4, n3, d3, 3);
    lemma_field_step(f4, f5, n4, d4, 4);
    lemma_field_step(f5, f6, n5, d5, 5);
    assert(!f0.contains(n0) && !f0.contains(n1) && !f0.contains(n2) && !f0.contains(n3)
        && !f0.contains(n4) && !f0.contains(n5));
    assert(f6.contains(n0) == d0);
    assert(f6.contains(n1) == d1);
    assert(f6.contains(n2) == d2);
    assert(f6.contains(n3) == d3);
    assert(f6.contains(n4) == d4);
    assert(f6.contains(n5) == d5);
}

/// The stackable count is the number of items whose stack size is given
/// and above 1 (an item without a stack size is not stackable), and the
/// gradeable count the number of gradeable items.
pub proof fn lemma_summary_counts_by_field(source: Seq<char>, items: Seq<ItemView>)
    ensures
        summary_of(source, items).stackable_count == count_where(
            items,
            |it: ItemView| it.stack_max is Some && it.stack_max->0 > 1,
        ),
        summary_of(source, items).gradeable_count == count_where(items, |it: ItemView| it.gradeable),
        summary_of(source, items).item_count == items.len(),
    decreases items.len(),
{
    if items.len() > 0 {
        lemma_summary_counts_by_field(source, items.drop_last());
    }
}


/// The hash is 64-bit FNV-1a: it starts from the offset basis
/// `0xcbf29ce484222325`, and each byte is folded in by exclusive-or and
/// then multiplication by the prime `0x100000001b3`, modulo 2^64.
pub proof fn lemma_fnv1a_steps(bytes: Seq<u8>, b: u8)
    ensures
        fnv1a(Seq::<u8>::empty()) == 0xcbf29ce484222325u64,
        fnv1a(bytes.push(b)) as nat == ((fnv1a(bytes) ^ (b as u64)) as nat * 0x100000001b3nat)
            % 0x10000000000000000nat,
{
    assert(bytes.push(b).drop_last() =~= bytes);
}

/// Each of the hash's 16 digits is the matching hex digit of the 64-bit
/// value, most significant first: `0`-`9` for 0 to 9, `a`-`f` for 10 to 15.
pub proof fn lemma_hex_digits_value(h: nat, n: nat, i: int)
    requires
        0 <= i < n,
    ensures
        ({
            let d = (h / pow16((n - 1 - i) as nat)) % 16;
            hex_digits(h, n)[i] == (if d < 10 {
                (d + 48) as char
            } else {
                (d + 87) as char
            })
        }),
    decreases n,
{
    if i < n - 1 {
        lemma_hex_digits_shape(h / 16, (n - 1) as nat);
        assert(hex_digits(h, n)[i] == hex_digits(h / 16, (n - 1) as nat)[i]);
        lemma_hex_digits_value(h / 16, (n - 1) as nat, i);
        lemma_div_pow16(h, ((n - 2 - i) as nat));
    } else {
        lemma_hex_digits_shape(h / 16, (n - 1) as nat);
        assert(pow16(0) == 1);
        assert(h / 1 == h);
    }
}

/// 16 raised to a power.
pub open spec fn pow16(k: nat) -> nat
    decreases k,
{
    if k == 0 {
        1
    } else {
        16 * pow16((k - 1) as nat)
    }
}

proof fn lemma_div_pow16(h: nat, k: nat)
    ensures
        (h / 16) / pow16(k) == h / pow16(k + 1),
    decreases k,
{
    assert(pow16(k + 1) == 16 * pow16(k));
    lemma_pow16_pos(k);
    vstd::arithmetic::div_mod::lemma_div_denominator(h as int, 16, pow16(k) as int);
    assert(16 * pow16(k) == pow16(k) * 16) by (nonlinear_arith);
}

proof fn lemma_pow16_pos(k: nat)
    ensures
        pow16(k) > 0,
    decreases k,
{
    if k > 0 {
        lemma_pow16_pos((k - 1) as nat);
    }
}

} // verus!
