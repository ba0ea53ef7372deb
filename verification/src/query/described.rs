//! How the planner sees stored columns.
use crate::query::catalog;
use crate::query::catalog::{
    CollectionInfo, CollectionMeta, ColumnDefinition, ColumnInfo, ColumnKind, EngineType,
    LocalSchemas, SqlDataType, TableSchema,
};
use vstd::prelude::*;

verus! {

/// Whether two optional texts are the same.
pub open spec fn same_text(a: Option<String>, b: Option<String>) -> bool {
    &&& a is Some <==> b is Some
    &&& a is Some ==> a->0@ == b->0@
}

/// The planner's type of a kind of column: numbers, texts, booleans, times and
/// vectors by their own, identifiers and decimals as texts, durations as
/// integers, and everything else as bytes.
pub proof fn kinds_have_their_types(k: ColumnKind, r: SqlDataType)
    requires
        call_ensures(catalog::convert_column_type, (k,), r),
    ensures
        r == SqlDataType::Int64 <==> k == ColumnKind::Int64 || k == ColumnKind::Duration,
        r == SqlDataType::Float64 <==> k == ColumnKind::Float64,
        r == SqlDataType::Bool <==> k == ColumnKind::Bool,
        r == SqlDataType::Timestamp <==> k == ColumnKind::Timestamp || k
            == ColumnKind::SystemTimestamp,
        r == SqlDataType::String <==> k == ColumnKind::String || k == ColumnKind::Decimal || k
            == ColumnKind::Uuid || k == ColumnKind::Ulid || k == ColumnKind::Regex,
        k matches ColumnKind::Vector(dim) ==> r == SqlDataType::Vector(dim as usize),
        r is Vector ==> k is Vector,
{
}

/// The planner sees one column for each stored one, in order, with its name,
/// type, nullability, key and default. The primary key is the first column that
/// is marked as one.
pub proof fn stored_columns_are_seen(
    columns: &[ColumnDefinition],
    r: (Vec<ColumnInfo>, Option<String>),
)
    requires
        call_ensures(catalog::columns_from_column_defs, (columns,), r),
    ensures
        r.0@.len() == columns@.len(),
        forall|i: int|
            0 <= i < columns@.len() ==> {
                &&& (#[trigger] r.0@[i]).name@ == columns@[i].name@
                &&& r.0@[i].data_type == catalog::sql_type_of(
                    catalog::kind_of(columns@[i].column_type),
                )
                &&& r.0@[i].nullable == columns@[i].nullable
                &&& r.0@[i].is_primary_key == columns@[i].primary_key
                &&& same_text(r.0@[i].default, columns@[i].default)
            },
        r.1 is Some <==> exists|i: int|
            0 <= i < columns@.len() && (#[trigger] columns@[i]).primary_key,
        r.1 is Some ==> exists|k: int|
            0 <= k < columns@.len() && (#[trigger] columns@[k]).primary_key && r.1->0@
                == columns@[k].name@ && forall|i: int|
                0 <= i < k ==> !(#[trigger] columns@[i]).primary_key,
{
    let seen = catalog::infos_view(r.0@);
    let stored = catalog::columns_view(columns@);
    assert(seen.len() == r.0@.len() && stored.len() == columns@.len());
    assert forall|i: int| 0 <= i < columns@.len() implies {
        &&& (#[trigger] r.0@[i]).name@ == columns@[i].name@
        &&& r.0@[i].data_type == catalog::sql_type_of(catalog::kind_of(columns@[i].column_type))
        &&& r.0@[i].nullable == columns@[i].nullable
        &&& r.0@[i].is_primary_key == columns@[i].primary_key
        &&& same_text(r.0@[i].default, columns@[i].default)
    } by {
        assert(seen[i] == r.0@[i]@);
        assert(stored[i] == columns@[i]@);
        assert(seen[i] == catalog::info_of(stored[i]));
    }
    lemma_primary(columns@, 0);
}

proof fn lemma_primary(columns: Seq<ColumnDefinition>, i: int)
    requires
        0 <= i <= columns.len(),
    ensures
        match catalog::primary_from(catalog::columns_view(columns), i) {
            Some(name) => exists|k: int|
                i <= k < columns.len() && (#[trigger] columns[k]).primary_key && name
                    == columns[k].name@ && forall|j: int|
                    i <= j < k ==> !(#[trigger] columns[j]).primary_key,
            None => forall|k: int| i <= k < columns.len() ==> !(#[trigger] columns[k]).primary_key,
        },
    decreases columns.len() - i,
{
    let stored = catalog::columns_view(columns);
    if i < columns.len() {
        assert(stored[i] == columns[i]@);
        if !columns[i].primary_key {
            lemma_primary(columns, i + 1);
            if let Some(name) = catalog::primary_from(stored, i) {
                let k = choose|k: int|
                    i + 1 <= k < columns.len() && (#[trigger] columns[k]).primary_key && name
                        == columns[k].name@ && forall|j: int|
                        i + 1 <= j < k ==> !(#[trigger] columns[j]).primary_key;
                assert(columns[k].primary_key);
            }
        } else {
            assert(columns[i].primary_key && columns[i]@.name == columns[i].name@);
        }
    }
}

/// Whether a collection has one column for each of a schema, in order and by
/// name.
pub open spec fn has_columns(info: CollectionInfo, s: TableSchema) -> bool {
    info.columns@.len() == s.columns@.len() && forall|i: int|
        0 <= i < s.columns@.len() ==> (#[trigger] info.columns@[i]).name@ == s.columns@[i].name@
            && info.columns@[i].is_primary_key == s.columns@[i].primary_key
}

proof fn lemma_columns(info: CollectionInfo, s: TableSchema)
    requires
        info@.columns == catalog::schema_columns(s@.columns),
    ensures
        has_columns(info, s),
{
    let seen = info@.columns;
    assert(seen.len() == info.columns@.len());
    assert(s@.columns.len() == s.columns@.len());
    assert forall|i: int| 0 <= i < s.columns@.len() implies (#[trigger] info.columns@[i]).name@
        == s.columns@[i].name@ && info.columns@[i].is_primary_key
        == s.columns@[i].primary_key by {
        assert(seen[i] == info.columns@[i]@);
        assert(s@.columns[i] == s.columns@[i]@);
    }
}

/// A collection is found just where it has metadata, a local schema or rows, and
/// under its own name. Without metadata it is what the first engine that knows it
/// says: the strict one, then the columnar one, then the store, which knows its
/// key alone.
pub proof fn known_collections_are_found(
    name: &str,
    meta: Option<&CollectionMeta>,
    local: &LocalSchemas,
    r: Option<CollectionInfo>,
)
    requires
        call_ensures(catalog::get_collection, (name, meta, local), r),
    ensures
        r is Some <==> meta is Some || local.strict is Some || local.columnar is Some
            || local.in_store,
        r is Some ==> r->0.name@ == name@,
        meta is None ==> (local.strict matches Some(s) ==> r->0.engine
            == EngineType::DocumentStrict && r->0.bitemporal == s.bitemporal && has_columns(
            r->0,
            *s,
        )),
        meta is None && local.strict is None ==> (local.columnar matches Some(s) ==> r->0.engine
            == EngineType::Columnar && r->0.bitemporal == s.bitemporal && has_columns(r->0, *s)),
        meta is None && local.strict is None && local.columnar is None && local.in_store
            ==> r->0.engine == EngineType::DocumentSchemaless && r->0.columns@.len() == 1
            && r->0.columns@[0].name@ == "id"@ && r->0.columns@[0].is_primary_key
            && r->0.open_schema,
{
    if meta is None {
        if let Some(s) = local.strict {
            lemma_columns(r->0, *s);
        } else if let Some(s) = local.columnar {
            lemma_columns(r->0, *s);
        } else if local.in_store {
            let seen = r->0@.columns;
            assert(seen.len() == r->0.columns@.len());
            assert(seen[0] == r->0.columns@[0]@);
        }
    }
}

/// A strict collection with metadata and no descriptor has the columns that the
/// strict engine holds, which are fresher than the stored ones. A columnar one
/// has those of the columnar engine. The metadata decide on its history.
pub proof fn local_schemas_are_fresher(
    name: &str,
    meta: &CollectionMeta,
    local: &LocalSchemas,
    r: Option<CollectionInfo>,
)
    requires
        meta.descriptor_json is None,
        call_ensures(catalog::get_collection, (name, Some(meta), local), r),
    ensures
        r is Some && r->0.bitemporal == meta.bitemporal,
        meta.collection_type@ == "document_strict"@ ==> r->0.engine == EngineType::DocumentStrict
            && (local.strict matches Some(s) ==> has_columns(r->0, *s)),
        meta.collection_type@ == "columnar"@ || meta.collection_type@ == "timeseries"@
            || meta.collection_type@ == "spatial"@ ==> r->0.engine == EngineType::Columnar && (
        local.columnar matches Some(s) ==> has_columns(r->0, *s)),
        meta.collection_type@ == "kv"@ ==> r->0.engine == EngineType::KeyValue,
{
    reveal_strlit("document_strict");
    reveal_strlit("columnar");
    reveal_strlit("timeseries");
    reveal_strlit("spatial");
    reveal_strlit("kv");
    assert("document_strict"@[0] == 'd' && "columnar"@[0] == 'c' && "timeseries"@[0] == 't'
        && "spatial"@[0] == 's' && "kv"@[0] == 'k');
    if meta.collection_type@ == "document_strict"@ {
        if let Some(s) = local.strict {
            lemma_columns(r->0, *s);
        }
    } else if meta.collection_type@ == "columnar"@ || meta.collection_type@ == "timeseries"@
        || meta.collection_type@ == "spatial"@ {
        if let Some(s) = local.columnar {
            lemma_columns(r->0, *s);
        }
    }
}

} // verus!
