use serde::ser::SerializeStruct;
use dune_admin::catalog::{
    active_catalog, apply_catalog, bundled_items, canonical_catalog_json, diff_active_catalog,
    diff_catalog, duplicate_ids, export_active_catalog, parse_and_validate_catalog_json,
    parse_and_validate_catalog_value, revert_catalog, sort_items, status, summarize_catalog,
    CatalogDocument, CatalogRow, CatalogStore, Item,
};
use serde_json::Value;

fn item(id: &str, name: &str, gradeable: bool, tier: Option<u32>, stack_max: Option<u32>) -> Item {
    Item {
        id: id.to_string(),
        name: name.to_string(),
        category: "test".to_string(),
        source: "test".to_string(),
        gradeable,
        tier,
        stack_max,
    }
}

fn decode_item(v: &Value) -> Result<Item, String> {
    let text = |k: &str| -> Result<String, String> {
        v.get(k)
            .and_then(Value::as_str)
            .map(str::to_string)
            .ok_or_else(|| format!("missing field `{k}`"))
    };
    let number = |k: &str| -> Result<Option<u32>, String> {
        match v.get(k) {
            None | Some(Value::Null) => Ok(None),
            Some(n) => n
                .as_u64()
                .and_then(|n| u32::try_from(n).ok())
                .map(Some)
                .ok_or_else(|| format!("invalid type for `{k}`")),
        }
    };
    Ok(Item {
        id: text("id")?,
        name: text("name")?,
        category: text("category")?,
        source: text("source")?,
        gradeable: v
            .get("gradeable")
            .and_then(Value::as_bool)
            .ok_or_else(|| "missing field `gradeable`".to_string())?,
        tier: number("tier")?,
        stack_max: number("stackMax")?,
    })
}

fn row_of(v: &Value) -> CatalogRow {
    match v.as_object() {
        None => CatalogRow::NotObject,
        Some(map) => CatalogRow::Object {
            keys: map.keys().cloned().collect(),
            decoded: decode_item(v),
        },
    }
}

fn rows_of_value(v: &Value) -> Option<Vec<CatalogRow>> {
    v.as_array().map(|a| a.iter().map(row_of).collect())
}

fn document(text: &str) -> CatalogDocument {
    match serde_json::from_str::<Value>(text) {
        Err(e) => CatalogDocument::InvalidJson(e.to_string()),
        Ok(v) => CatalogDocument::Parsed(rows_of_value(&v)),
    }
}

fn stored_row(it: &Item) -> CatalogRow {
    CatalogRow::Object {
        keys: ["category", "gradeable", "id", "name", "source", "stackMax", "tier"]
            .iter()
            .map(|k| k.to_string())
            .collect(),
        decoded: Ok(it.clone()),
    }
}

fn larger_catalog() -> Vec<Item> {
    let mut items = bundled_items();
    for i in 0..18 {
        items.push(item(&format!("Extra{i:02}"), &format!("Extra {i}"), false, None, Some(100)));
    }
    items
}

fn store_with(items: &[Item]) -> CatalogStore {
    CatalogStore {
        override_json: Some(CatalogDocument::Parsed(Some(items.iter().map(stored_row).collect()))),
        override_meta: None,
    }
}

#[test]
fn bundled_catalog_validates_and_summarizes() {
    let raw = canonical_catalog_json(&bundled_items()).unwrap();
    let items = parse_and_validate_catalog_json(&document(&raw)).unwrap();
    let summary = summarize_catalog("test", &items);
    assert_eq!(summary.item_count, bundled_items().len());
    assert!(summary.gradeable_count > 0);
    assert!(summary.stackable_count > 0);
}

#[test]
fn validation_allows_duplicate_template_ids_with_other_valid_metadata() {
    let mut items = bundled_items();
    items.push(items[0].clone());
    let raw = canonical_catalog_json(&items).unwrap();
    let parsed = parse_and_validate_catalog_json(&document(&raw)).unwrap();
    assert!(duplicate_ids(&parsed).len() >= 1);
}

#[test]
fn validation_rejects_missing_sentinel_metadata() {
    let mut items = bundled_items();
    let target = items
        .iter_mut()
        .find(|item| item.id == "T6_Augment_Acuracy1")
        .unwrap();
    target.gradeable = false;
    let raw = canonical_catalog_json(&items).unwrap();
    let err = parse_and_validate_catalog_json(&document(&raw)).unwrap_err();
    assert!(err.contains("sentinel item"));
}

#[test]
fn diff_reports_added_changed_and_removed_items() {
    let mut current = bundled_items();
    let removed = current.pop().unwrap();
    let mut candidate = current.clone();
    candidate[0].name = format!("{} Updated", candidate[0].name);
    candidate.push(Item {
        id: "TestNewItem".to_string(),
        name: "Test New Item".to_string(),
        category: "test".to_string(),
        source: "test".to_string(),
        gradeable: false,
        tier: None,
        stack_max: Some(1),
    });

    let diff = diff_catalog(&[current, vec![removed]].concat(), &candidate, None, None);
    assert_eq!(diff.added.len(), 1);
    assert_eq!(diff.removed.len(), 1);
    assert_eq!(diff.changed.len(), 1);
    assert!(diff.warnings.iter().any(|w| w.contains("removed")));
}

#[test]
fn apply_requires_removal_confirmation() {
    let store = CatalogStore { override_json: None, override_meta: None };
    let mut candidate = bundled_items();
    candidate.pop();
    let rows = Some(candidate.iter().map(stored_row).collect::<Vec<_>>());
    let err = apply_catalog(&store, &rows, None, None, false).err().unwrap();
    assert!(err.contains("confirm removals"));
    assert_eq!(status(&store).active.source, "bundled");
}

#[test]
fn confirmed_removal_is_applied() {
    let store = CatalogStore { override_json: None, override_meta: None };
    let mut candidate = bundled_items();
    candidate.pop();
    let rows = Some(candidate.iter().map(stored_row).collect::<Vec<_>>());
    let err = apply_catalog(&store, &rows, None, None, false).err().unwrap();
    assert_eq!(err, "catalog update removes 1 item(s); confirm removals before applying");
    let update = apply_catalog(&store, &rows, None, None, true).ok().unwrap();
    assert_eq!(update.meta.item_count, candidate.len());
    assert_eq!(update.catalog_json, canonical_catalog_json(&candidate).unwrap());
    assert!(chrono::DateTime::parse_from_rfc3339(&update.meta.applied_at).is_ok());
}

#[test]
fn invalid_override_falls_back_to_bundled() {
    let store = CatalogStore {
        override_json: Some(document("not-json")),
        override_meta: None,
    };
    let active = active_catalog(&store);
    assert_eq!(active.status.active.source, "bundled");
    assert!(active.status.override_error.is_some());
}

#[test]
fn stored_override_is_the_active_catalog() {
    let items = larger_catalog();
    let store = store_with(&items);
    let active = active_catalog(&store);
    assert_eq!(active.status.active.source, "override");
    assert_eq!(active.items.len(), items.len());
    assert!(active.status.override_error.is_none());
}

#[test]
fn revert_returns_to_bundled_catalog() {
    let mut store = store_with(&larger_catalog());
    let st = revert_catalog(&mut store);
    assert!(store.override_json.is_none());
    assert_eq!(st.active.source, "bundled");
    assert_eq!(st.active.item_count, bundled_items().len());
    assert_eq!(status(&store).active.catalog_hash, st.bundled.catalog_hash);
}

#[test]
fn applied_catalog_reads_back_unchanged() {
    let current = larger_catalog();
    let store = store_with(&current);
    let mut candidate = current.clone();
    candidate.push(item("NewThing", "New Thing", false, None, Some(5)));
    let rows = Some(candidate.iter().map(stored_row).collect::<Vec<_>>());
    let update = apply_catalog(&store, &rows, None, None, false).ok().unwrap();
    let stored = CatalogStore {
        override_json: Some(document(&update.catalog_json)),
        override_meta: None,
    };
    let active = active_catalog(&stored);
    assert_eq!(active.status.active.source, "override");
    assert_eq!(active.status.active.catalog_hash, update.meta.catalog_hash);
    let again = diff_catalog(&active.items, &candidate, None, None);
    assert!(again.added.is_empty() && again.removed.is_empty() && again.changed.is_empty());
}

#[test]
fn catalog_diffed_with_itself_is_empty() {
    let items = larger_catalog();
    let diff = diff_catalog(&items, &items, None, None);
    assert!(diff.added.is_empty());
    assert!(diff.removed.is_empty());
    assert!(diff.changed.is_empty());
    assert!(diff.blocking_errors.is_empty());
}

#[test]
fn large_shrink_is_blocked() {
    let current = larger_catalog();
    let store = store_with(&current);
    let candidate = bundled_items();
    let rows = Some(candidate.iter().map(stored_row).collect::<Vec<_>>());
    let err = apply_catalog(&store, &rows, None, None, true).err().unwrap();
    assert!(err.starts_with("catalog update blocked: candidate catalog has 12 items, more than 10% below current 30"));
}

#[test]
fn validation_messages_name_the_row() {
    assert_eq!(
        parse_and_validate_catalog_value(&None).err().unwrap(),
        "catalog root must be a JSON array"
    );
    assert_eq!(
        parse_and_validate_catalog_value(&Some(vec![])).err().unwrap(),
        "catalog must contain at least one item"
    );
    let rows = Some(vec![CatalogRow::NotObject]);
    assert_eq!(
        parse_and_validate_catalog_value(&rows).err().unwrap(),
        "catalog row 1 must be an object"
    );
    let bad = item("Bad", "Bad", true, None, Some(5));
    let rows = Some(vec![stored_row(&bundled_items()[0]), stored_row(&bad)]);
    assert_eq!(
        parse_and_validate_catalog_value(&rows).err().unwrap(),
        "catalog row 2 (Bad) is gradeable but does not declare stackMax 1"
    );
    let rows = Some(vec![CatalogRow::Object {
        keys: vec!["id".to_string(), "weight".to_string()],
        decoded: Ok(bad.clone()),
    }]);
    assert_eq!(
        parse_and_validate_catalog_value(&rows).err().unwrap(),
        "catalog row 1 has unknown field weight"
    );
    assert!(parse_and_validate_catalog_json(&document("[1,")).err().unwrap().starts_with("invalid JSON: "));
}

#[test]
fn canonical_json_orders_by_lowercase_id_and_pretty_prints() {
    let items = vec![
        item("zeta", "Z", false, None, None),
        item("Alpha", "A", false, Some(2), Some(3)),
    ];
    let json = canonical_catalog_json(&items).unwrap();
    assert!(json.starts_with("[\n  {\n    \"id\": \"Alpha\",\n    \"name\": \"A\","));
    assert!(json.contains("\"tier\": 2,\n    \"stackMax\": 3\n  },\n  {\n    \"id\": \"zeta\""));
    assert!(json.ends_with("\"tier\": null,\n    \"stackMax\": null\n  }\n]"));
    let parsed: Value = serde_json::from_str(&json).unwrap();
    assert_eq!(parsed.as_array().unwrap().len(), 2);
}

#[test]
fn summary_hash_is_sixteen_hex_digits_of_the_canonical_json() {
    let s = summarize_catalog("x", &bundled_items());
    assert_eq!(s.catalog_hash.len(), 16);
    assert!(s.catalog_hash.chars().all(|c| c.is_ascii_hexdigit() && !c.is_ascii_uppercase()));
    let json = canonical_catalog_json(&bundled_items()).unwrap();
    let mut hash: u64 = 0xcbf29ce484222325;
    for b in json.as_bytes() {
        hash ^= *b as u64;
        hash = hash.wrapping_mul(0x100000001b3);
    }
    assert_eq!(s.catalog_hash, format!("{hash:016x}"));
}

#[test]
fn export_offers_canonical_json() {
    let store = CatalogStore { override_json: None, override_meta: None };
    let export = export_active_catalog(&store).ok().unwrap();
    assert_eq!(export.suggested_file_name, "item-catalog.json");
    assert_eq!(export.catalog_json, canonical_catalog_json(&bundled_items()).unwrap());
    assert_eq!(export.summary.source, "bundled");
}

#[test]
fn diff_against_active_catalog_uses_override() {
    let current = larger_catalog();
    let store = store_with(&current);
    let rows = Some(current.iter().map(stored_row).collect::<Vec<_>>());
    let (diff, items) = diff_active_catalog(&store, &rows, Some("u".to_string()), None).ok().unwrap();
    assert_eq!(items.len(), current.len());
    assert_eq!(diff.current.item_count, current.len());
    assert_eq!(diff.source_url.as_deref(), Some("u"));
    assert!(diff.changed.is_empty());
}

#[test]
fn ids_differing_only_in_case_are_changed_not_added_and_removed() {
    let mut current = larger_catalog();
    current.push(item("Knife", "Knife", false, None, Some(1)));
    let mut candidate = larger_catalog();
    candidate.push(item("knife", "Knife", false, None, Some(2)));
    let diff = diff_catalog(&current, &candidate, None, None);
    assert!(diff.added.is_empty());
    assert!(diff.removed.is_empty());
    assert_eq!(diff.changed.len(), 1);
    assert_eq!(diff.changed[0].fields, vec!["stackMax"]);
    assert_eq!(diff.changed[0].id, "knife");
}

#[test]
fn sorting_is_stable_by_lowercase_id_and_idempotent() {
    let items = vec![
        item("b", "first b", false, None, None),
        item("A", "upper a", false, None, None),
        item("a", "lower a", false, None, None),
        item("B", "second b", false, None, None),
    ];
    let sorted = sort_items(items.clone());
    let names: Vec<&str> = sorted.iter().map(|i| i.name.as_str()).collect();
    assert_eq!(names, vec!["upper a", "lower a", "first b", "second b"]);
    let again = sort_items(sorted.clone());
    let again_names: Vec<&str> = again.iter().map(|i| i.name.as_str()).collect();
    assert_eq!(again_names, names);
    assert_eq!(duplicate_ids(&items), vec!["a", "b"]);
}

fn item_value(it: &Item) -> Value {
    let mut m = serde_json::Map::new();
    m.insert("id".to_string(), Value::from(it.id.clone()));
    m.insert("name".to_string(), Value::from(it.name.clone()));
    m.insert("category".to_string(), Value::from(it.category.clone()));
    m.insert("source".to_string(), Value::from(it.source.clone()));
    m.insert("gradeable".to_string(), Value::Bool(it.gradeable));
    m.insert("tier".to_string(), it.tier.map(Value::from).unwrap_or(Value::Null));
    m.insert("stackMax".to_string(), it.stack_max.map(Value::from).unwrap_or(Value::Null));
    Value::Object(m)
}

fn normalized_lines(text: &str) -> Vec<String> {
    let mut lines: Vec<String> = text.lines().map(|l| l.trim_end_matches(',').to_string()).collect();
    lines.sort();
    lines
}

#[test]
fn canonical_json_matches_serde_json_pretty_printing() {
    let mut items = bundled_items();
    items.push(item("Quote\"d", "Tab\there \\ \u{1} é \u{7f}", true, Some(3), Some(1)));
    items.push(item("line", "new\nline", false, None, None));
    let ours = canonical_catalog_json(&items).unwrap();
    let sorted = sort_items(items.clone());
    let expected = Value::Array(sorted.iter().map(item_value).collect());
    let parsed: Value = serde_json::from_str(&ours).unwrap();
    assert_eq!(parsed, expected);
    let theirs = serde_json::to_string_pretty(&expected).unwrap();
    assert_eq!(normalized_lines(&ours), normalized_lines(&theirs));
    assert!(ours.contains("\"name\": \"Tab\\there \\\\ \\u0001 é \u{7f}\""));
}

#[test]
fn summary_does_not_depend_on_item_order() {
    let items = bundled_items();
    let mut reversed = items.clone();
    reversed.reverse();
    let a = summarize_catalog("active", &items);
    let b = summarize_catalog("active", &reversed);
    assert_eq!(a.catalog_hash, b.catalog_hash);
    assert_eq!((a.item_count, a.gradeable_count, a.stackable_count), (12, 4, 6));
    assert_eq!((b.item_count, b.gradeable_count, b.stackable_count), (12, 4, 6));
    let c = summarize_catalog("candidate", &reversed);
    assert_eq!(c.catalog_hash, a.catalog_hash);
    let upper_first = vec![item("A", "one", false, None, None), item("a", "two", false, None, None)];
    let lower_first = vec![item("a", "two", false, None, None), item("A", "one", false, None, None)];
    assert_ne!(
        summarize_catalog("x", &upper_first).catalog_hash,
        summarize_catalog("x", &lower_first).catalog_hash
    );
}

#[test]
fn diff_in_the_other_direction_mirrors() {
    let current = larger_catalog();
    let mut candidate = larger_catalog();
    candidate.pop();
    candidate[0].name = "Aluminium Ingot".to_string();
    candidate.push(item("Brand_New", "Brand New", false, None, Some(3)));
    let forward = diff_catalog(&current, &candidate, None, None);
    let backward = diff_catalog(&candidate, &current, None, None);
    let ids = |v: &Vec<Item>| v.iter().map(|i| i.id.clone()).collect::<Vec<_>>();
    assert_eq!(ids(&forward.added), ids(&backward.removed));
    assert_eq!(ids(&forward.removed), ids(&backward.added));
    assert_eq!(forward.changed.len(), 1);
    assert_eq!(backward.changed.len(), 1);
    assert_eq!(forward.changed[0].before.name, backward.changed[0].after.name);
    assert_eq!(forward.changed[0].fields, backward.changed[0].fields);
    assert_eq!(forward.warnings[0], "1 item(s) will be removed and require explicit confirmation");
    assert!(backward.warnings.iter().all(|w| !w.contains("will be removed")) || !backward.removed.is_empty());
}

struct FieldOrder<'a>(&'a Item);

impl serde::Serialize for FieldOrder<'_> {
    fn serialize<S: serde::Serializer>(&self, serializer: S) -> Result<S::Ok, S::Error> {
        let it = self.0;
        let mut st = serializer.serialize_struct("Item", 7)?;
        st.serialize_field("id", &it.id)?;
        st.serialize_field("name", &it.name)?;
        st.serialize_field("category", &it.category)?;
        st.serialize_field("source", &it.source)?;
        st.serialize_field("gradeable", &it.gradeable)?;
        st.serialize_field("tier", &it.tier)?;
        st.serialize_field("stackMax", &it.stack_max)?;
        st.end()
    }
}

#[test]
fn canonical_json_is_byte_for_byte_serde_json_pretty() {
    let mut items = bundled_items();
    items.push(item("Quote\"d", "Tab\there \\ \u{1} \u{1f} é \u{7f}", true, Some(3), Some(1)));
    items.push(item("line", "new\nline\r\u{8}\u{c}", false, None, None));
    let sorted = sort_items(items.clone());
    let rows: Vec<FieldOrder> = sorted.iter().map(FieldOrder).collect();
    assert_eq!(canonical_catalog_json(&items).unwrap(), serde_json::to_string_pretty(&rows).unwrap());
    let empty: Vec<FieldOrder> = Vec::new();
    assert_eq!(canonical_catalog_json(&Vec::new()).unwrap(), serde_json::to_string_pretty(&empty).unwrap());
}

#[test]
fn bundled_export_reapplies_unchanged() {
    let store = CatalogStore { override_json: None, override_meta: None };
    let export = export_active_catalog(&store).ok().unwrap();
    let items = parse_and_validate_catalog_json(&document(&export.catalog_json)).ok().unwrap();
    assert_eq!(summarize_catalog("x", &items).catalog_hash, export.summary.catalog_hash);
    let rows = Some(items.iter().map(stored_row).collect::<Vec<_>>());
    let update = apply_catalog(&store, &rows, None, None, false).ok().unwrap();
    assert_eq!(update.catalog_json, export.catalog_json);
}
