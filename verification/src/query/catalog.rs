//! What the query planner is told of a collection.
//!
//! Stored metadata is authoritative. A collection without any is recognised by
//! the engine that holds it.
use crate::query::widths;
use crate::query::widths::{FloatWidth, IntWidth};
use crate::text;
use nodedb_types::collection::CollectionType;
use nodedb_types::columnar::{ColumnType, DocumentMode, StrictSchema};
use vstd::prelude::*;

verus! {

/// A column type of the storage engines.
#[verifier::external_type_specification]
#[verifier::external_body]
pub struct ExColumnType(nodedb_types::columnar::ColumnType);

/// The kind of values in a column.
#[derive(Debug, Clone, Copy, PartialEq, Eq, Structural)]
pub enum ColumnKind {
    Int64,
    Float64,
    String,
    Bool,
    Bytes,
    Timestamp,
    SystemTimestamp,
    Decimal,
    Geometry,
    Vector(u32),
    Uuid,
    Json,
    Ulid,
    Duration,
    Array,
    /// An array without duplicates.
    UniqueArray,
    Regex,
    Range,
    Record,
    /// Any other kind.
    Other,
}

/// A column type of the query planner.
#[derive(Debug, Clone, Copy, PartialEq, Eq, Structural)]
pub enum SqlDataType {
    Int64,
    Float64,
    String,
    Bool,
    Bytes,
    Timestamp,
    /// A vector of this dimension.
    Vector(usize),
}

/// The kind of a column type.
pub uninterp spec fn kind_of(t: nodedb_types::columnar::ColumnType) -> ColumnKind;

/// The column type that `ColumnType::from_str` reads from a type name.
pub uninterp spec fn parsed_type(name: Seq<char>) -> Option<nodedb_types::columnar::ColumnType>;

/// Whether a kind is one of numbers, text, times or identifiers.
pub open spec fn scalar(k: ColumnKind) -> bool {
    match k {
        ColumnKind::Int64 | ColumnKind::Float64 | ColumnKind::String | ColumnKind::Bool => true,
        ColumnKind::Bytes | ColumnKind::Timestamp | ColumnKind::SystemTimestamp => true,
        ColumnKind::Uuid | ColumnKind::Ulid | ColumnKind::Duration => true,
        _ => false,
    }
}

/// Tells the scalar variants of `ColumnType` apart, each as the kind of its
/// name. The kind is the one named [`kind_of`].
#[verifier::external_body]
fn scalar_kind(t: &ColumnType) -> (r: Option<ColumnKind>)
    ensures
        match r {
            Some(k) => k == kind_of(*t) && scalar(k),
            None => !scalar(kind_of(*t)),
        },
{
    match t {
        ColumnType::Int64 => Some(ColumnKind::Int64),
        ColumnType::Float64 => Some(ColumnKind::Float64),
        ColumnType::String => Some(ColumnKind::String),
        ColumnType::Bool => Some(ColumnKind::Bool),
        ColumnType::Bytes => Some(ColumnKind::Bytes),
        ColumnType::Timestamp => Some(ColumnKind::Timestamp),
        ColumnType::SystemTimestamp => Some(ColumnKind::SystemTimestamp),
        ColumnType::Uuid => Some(ColumnKind::Uuid),
        ColumnType::Ulid => Some(ColumnKind::Ulid),
        ColumnType::Duration => Some(ColumnKind::Duration),
        _ => None,
    }
}

/// Tells the other variants of `ColumnType` apart, each as the kind of its
/// name, a set as an array without duplicates. The kind is the one named
/// [`kind_of`].
#[verifier::external_body]
fn compound_kind(t: &ColumnType) -> (r: ColumnKind)
    ensures
        !scalar(kind_of(*t)) ==> r == kind_of(*t),
{
    match t {
        ColumnType::Decimal { .. } => ColumnKind::Decimal,
        ColumnType::Geometry => ColumnKind::Geometry,
        ColumnType::Vector(dim) => ColumnKind::Vector(*dim),
        ColumnType::Json => ColumnKind::Json,
        ColumnType::Array => ColumnKind::Array,
        ColumnType::Set => ColumnKind::UniqueArray,
        ColumnType::Regex => ColumnKind::Regex,
        ColumnType::Range => ColumnKind::Range,
        ColumnType::Record => ColumnKind::Record,
        _ => ColumnKind::Other,
    }
}

/// Calls `ColumnType::from_str`. The result is the one named [`parsed_type`].
#[verifier::external_body]
fn parse_type(name: &str) -> (r: Option<ColumnType>)
    ensures
        r == parsed_type(name@),
{
    name.parse().ok()
}

/// What `ColumnType` writes of itself by its `Debug` form.
pub uninterp spec fn type_text(t: ColumnType) -> Seq<char>;

/// Writes the `Debug` form of a `ColumnType`. The result is the one named
/// [`type_text`].
#[verifier::external_body]
fn text_of_type(t: &ColumnType) -> (r: String)
    ensures
        r@ == type_text(*t),
{
    format!("{:?}", t)
}

/// The kind of a column type.
pub fn column_kind(t: &ColumnType) -> (r: ColumnKind)
    ensures
        r == kind_of(*t),
{
    match scalar_kind(t) {
        Some(k) => k,
        None => compound_kind(t),
    }
}

/// The planner's type for a kind.
pub open spec fn sql_type_of(k: ColumnKind) -> SqlDataType {
    match k {
        ColumnKind::Int64 | ColumnKind::Duration => SqlDataType::Int64,
        ColumnKind::Float64 => SqlDataType::Float64,
        ColumnKind::String | ColumnKind::Decimal | ColumnKind::Uuid => SqlDataType::String,
        ColumnKind::Ulid | ColumnKind::Regex => SqlDataType::String,
        ColumnKind::Bool => SqlDataType::Bool,
        ColumnKind::Timestamp | ColumnKind::SystemTimestamp => SqlDataType::Timestamp,
        ColumnKind::Vector(dim) => SqlDataType::Vector(dim as usize),
        _ => SqlDataType::Bytes,
    }
}

/// The planner's type for a kind.
pub fn convert_column_type(k: ColumnKind) -> (r: SqlDataType)
    ensures
        r == sql_type_of(k),
{
    match k {
        ColumnKind::Int64 | ColumnKind::Duration => SqlDataType::Int64,
        ColumnKind::Float64 => SqlDataType::Float64,
        ColumnKind::String | ColumnKind::Decimal | ColumnKind::Uuid => SqlDataType::String,
        ColumnKind::Ulid | ColumnKind::Regex => SqlDataType::String,
        ColumnKind::Bool => SqlDataType::Bool,
        ColumnKind::Timestamp | ColumnKind::SystemTimestamp => SqlDataType::Timestamp,
        ColumnKind::Vector(dim) => SqlDataType::Vector(dim as usize),
        _ => SqlDataType::Bytes,
    }
}

/// A column of a stored schema.
#[derive(Debug)]
pub struct ColumnDefinition {
    /// The column's name.
    pub name: String,
    /// The type of its values.
    pub column_type: ColumnType,
    /// Whether it may be null.
    pub nullable: bool,
    /// Whether it is the primary key.
    pub primary_key: bool,
    /// Its default, as an expression.
    pub default: Option<String>,
}

/// A stored schema.
#[derive(Debug)]
pub struct TableSchema {
    /// The columns.
    pub columns: Vec<ColumnDefinition>,
    /// Whether the collection is bitemporal.
    pub bitemporal: bool,
}

/// What a [`ColumnDefinition`] is.
pub struct ColumnView {
    pub name: Seq<char>,
    pub column_type: ColumnType,
    pub nullable: bool,
    pub primary_key: bool,
    pub default: Option<Seq<char>>,
}

/// What a [`TableSchema`] is.
pub struct SchemaView {
    pub columns: Seq<ColumnView>,
    pub bitemporal: bool,
}

impl View for ColumnDefinition {
    type V = ColumnView;

    open spec fn view(&self) -> ColumnView {
        ColumnView {
            name: self.name@,
            column_type: self.column_type,
            nullable: self.nullable,
            primary_key: self.primary_key,
            default: optional(self.default),
        }
    }
}

/// What the columns of a schema are.
pub open spec fn columns_view(columns: Seq<ColumnDefinition>) -> Seq<ColumnView> {
    columns.map_values(|c: ColumnDefinition| c@)
}

impl View for TableSchema {
    type V = SchemaView;

    open spec fn view(&self) -> SchemaView {
        SchemaView { columns: columns_view(self.columns@), bitemporal: self.bitemporal }
    }
}

/// A schema of the storage engines.
#[verifier::external_type_specification]
#[verifier::external_body]
pub struct ExStrictSchema(nodedb_types::columnar::StrictSchema);

/// The columns of a `StrictSchema` and its flag.
pub uninterp spec fn schema_of(s: StrictSchema) -> SchemaView;

/// Takes a `StrictSchema` apart: its columns, each by its name, type, nullability,
/// key and default, and its flag. They are those named [`schema_of`].
#[verifier::external_body]
fn table_schema(s: StrictSchema) -> (r: TableSchema)
    ensures
        r@ == schema_of(s),
{
    let columns = s.columns.into_iter().map(|c| ColumnDefinition {
        name: c.name,
        column_type: c.column_type,
        nullable: c.nullable,
        primary_key: c.primary_key,
        default: c.default,
    });
    TableSchema { columns: columns.collect(), bitemporal: s.bitemporal }
}

/// The schema that `sonic_rs::from_str` reads from a text, if it is one.
pub uninterp spec fn parsed_strict_config(json: Seq<char>) -> Option<StrictSchema>;

/// Calls `sonic_rs::from_str` for a `StrictSchema`. The result is the one named
/// [`parsed_strict_config`].
#[verifier::external_body]
fn parse_strict_config(json: &str) -> (r: Option<StrictSchema>)
    ensures
        r == parsed_strict_config(json@),
{
    sonic_rs::from_str(json).ok()
}

/// The schema in the `KvConfig` that `sonic_rs::from_str` reads from a text, if it
/// is one.
pub uninterp spec fn parsed_kv_config(json: Seq<char>) -> Option<StrictSchema>;

/// Calls `sonic_rs::from_str` for a `KvConfig` and takes its schema. The result is
/// the one named [`parsed_kv_config`].
#[verifier::external_body]
fn parse_kv_config(json: &str) -> (r: Option<StrictSchema>)
    ensures
        r == parsed_kv_config(json@),
{
    sonic_rs::from_str::<nodedb_types::KvConfig>(json).ok().map(|c| c.schema)
}

/// A column as the planner sees it.
#[derive(Debug)]
pub struct ColumnInfo {
    /// The column's name.
    pub name: String,
    /// Its type.
    pub data_type: SqlDataType,
    /// Whether it may be null.
    pub nullable: bool,
    /// Whether it is the primary key.
    pub is_primary_key: bool,
    /// Its default, as an expression.
    pub default: Option<String>,
    /// The width of its integers, where its declared type names one.
    pub int_width: Option<IntWidth>,
    /// The width of its floating-point numbers, where its declared type names one.
    pub float_width: Option<FloatWidth>,
    /// The text of its declared type.
    pub raw_type: Option<String>,
}

/// What a [`ColumnInfo`] is.
pub struct ColumnInfoView {
    pub name: Seq<char>,
    pub data_type: SqlDataType,
    pub nullable: bool,
    pub is_primary_key: bool,
    pub default: Option<Seq<char>>,
    pub int_width: Option<IntWidth>,
    pub float_width: Option<FloatWidth>,
    pub raw_type: Option<Seq<char>>,
}

/// What an optional text is.
pub open spec fn optional(s: Option<String>) -> Option<Seq<char>> {
    match s {
        Some(t) => Some(t@),
        None => None,
    }
}

impl View for ColumnInfo {
    type V = ColumnInfoView;

    open spec fn view(&self) -> ColumnInfoView {
        ColumnInfoView {
            name: self.name@,
            data_type: self.data_type,
            nullable: self.nullable,
            is_primary_key: self.is_primary_key,
            default: optional(self.default),
            int_width: self.int_width,
            float_width: self.float_width,
            raw_type: optional(self.raw_type),
        }
    }
}

/// What the columns are.
pub open spec fn infos_view(columns: Seq<ColumnInfo>) -> Seq<ColumnInfoView> {
    columns.map_values(|c: ColumnInfo| c@)
}

/// The column that the planner sees for a stored one.
pub open spec fn info_of(c: ColumnView) -> ColumnInfoView {
    ColumnInfoView {
        name: c.name,
        data_type: sql_type_of(kind_of(c.column_type)),
        nullable: c.nullable,
        is_primary_key: c.primary_key,
        default: c.default,
        int_width: widths::int_width(type_text(c.column_type)),
        float_width: widths::float_width(type_text(c.column_type)),
        raw_type: Some(type_text(c.column_type)),
    }
}

/// The first primary-key column at or after `i`.
pub open spec fn primary_from(columns: Seq<ColumnView>, i: int) -> Option<Seq<char>>
    decreases columns.len() - i,
{
    if i < 0 || i >= columns.len() {
        None
    } else if columns[i].primary_key {
        Some(columns[i].name)
    } else {
        primary_from(columns, i + 1)
    }
}

/// Copies an optional text.
fn copy_optional(s: &Option<String>) -> (r: Option<String>)
    ensures
        optional(r) == optional(*s),
{
    match s {
        Some(t) => Some(t.as_str().to_owned()),
        None => None,
    }
}

/// The columns that the planner sees for those of a schema.
pub open spec fn schema_columns(columns: Seq<ColumnView>) -> Seq<ColumnInfoView> {
    columns.map_values(|c: ColumnView| info_of(c))
}

/// The columns and the primary key of a stored schema.
pub fn columns_from_column_defs(columns: &[ColumnDefinition]) -> (r: (
    Vec<ColumnInfo>,
    Option<String>,
))
    ensures
        infos_view(r.0@) == schema_columns(columns_view(columns@)),
        optional(r.1) == primary_from(columns_view(columns@), 0),
{
    let mut out: Vec<ColumnInfo> = Vec::new();
    let ghost all = schema_columns(columns_view(columns@));
    let mut i: usize = 0;
    while i < columns.len()
        invariant
            i <= columns@.len(),
            all == schema_columns(columns_view(columns@)),
            infos_view(out@) == all.take(i as int),
        decreases columns@.len() - i,
    {
        let c = &columns[i];
        let raw_type = text_of_type(&c.column_type);
        let ghost before = infos_view(out@);
        let info = ColumnInfo {
            name: c.name.as_str().to_owned(),
            data_type: convert_column_type(column_kind(&c.column_type)),
            nullable: c.nullable,
            is_primary_key: c.primary_key,
            default: copy_optional(&c.default),
            int_width: widths::int_width_of(raw_type.as_str()),
            float_width: widths::float_width_of(raw_type.as_str()),
            raw_type: Some(raw_type),
        };
        out.push(info);
        proof {
            assert(infos_view(out@) =~= before.push(info@));
            assert(columns_view(columns@)[i as int] == c@);
            assert(all.take(i as int + 1) =~= all.take(i as int).push(all[i as int]));
        }
        i = i + 1;
    }
    proof {
        assert(all.take(i as int) =~= all);
    }
    let mut k: usize = 0;
    while k < columns.len()
        invariant
            k <= columns@.len(),
            primary_from(columns_view(columns@), 0) == primary_from(columns_view(columns@), k as int),
            infos_view(out@) == schema_columns(columns_view(columns@)),
        decreases columns@.len() - k,
    {
        proof {
            assert(columns_view(columns@)[k as int] == columns@[k as int]@);
        }
        if columns[k].primary_key {
            return (out, Some(columns[k].name.as_str().to_owned()));
        }
        k = k + 1;
    }
    (out, None)
}

/// The column that the planner sees for a name and a type name. A type name
/// that cannot be read stands for bytes.
pub open spec fn hinted(name: Seq<char>, hint: Seq<char>) -> ColumnInfoView {
    ColumnInfoView {
        name,
        data_type: match parsed_type(hint) {
            Some(t) => sql_type_of(kind_of(t)),
            None => SqlDataType::Bytes,
        },
        nullable: true,
        is_primary_key: false,
        default: None,
        int_width: widths::int_width(hint),
        float_width: widths::float_width(hint),
        raw_type: Some(hint),
    }
}

/// What pairs of names and type names are.
pub open spec fn hints_view(fields: Seq<(String, String)>) -> Seq<(Seq<char>, Seq<char>)> {
    fields.map_values(|f: (String, String)| (f.0@, f.1@))
}

/// The columns that the planner sees for names and type names.
pub open spec fn hinted_columns(fields: Seq<(Seq<char>, Seq<char>)>) -> Seq<ColumnInfoView> {
    fields.map_values(|f: (Seq<char>, Seq<char>)| hinted(f.0, f.1))
}

/// The columns of names with type names.
pub fn columns_from_fields(fields: &[(String, String)]) -> (r: Vec<ColumnInfo>)
    ensures
        infos_view(r@) == hinted_columns(hints_view(fields@)),
{
    let mut out: Vec<ColumnInfo> = Vec::new();
    let ghost all = hinted_columns(hints_view(fields@));
    let mut i: usize = 0;
    while i < fields.len()
        invariant
            i <= fields@.len(),
            all == hinted_columns(hints_view(fields@)),
            infos_view(out@) == all.take(i as int),
        decreases fields@.len() - i,
    {
        let data_type = match parse_type(fields[i].1.as_str()) {
            Some(t) => convert_column_type(column_kind(&t)),
            None => SqlDataType::Bytes,
        };
        let ghost before = infos_view(out@);
        let info = ColumnInfo {
            name: fields[i].0.as_str().to_owned(),
            data_type,
            nullable: true,
            is_primary_key: false,
            default: None,
            int_width: widths::int_width_of(fields[i].1.as_str()),
            float_width: widths::float_width_of(fields[i].1.as_str()),
            raw_type: Some(fields[i].1.as_str().to_owned()),
        };
        out.push(info);
        proof {
            assert(infos_view(out@) =~= before.push(info@));
            assert(hints_view(fields@)[i as int] == (fields@[i as int].0@, fields@[i as int].1@));
            assert(all.take(i as int + 1) =~= all.take(i as int).push(all[i as int]));
        }
        i = i + 1;
    }
    proof {
        assert(all.take(i as int) =~= all);
    }
    out
}

/// The engine that holds a collection.
#[derive(Debug, Clone, Copy, PartialEq, Eq, Structural)]
pub enum EngineType {
    DocumentSchemaless,
    DocumentStrict,
    Columnar,
    KeyValue,
    /// An engine that queries do not scan.
    Other,
}

/// What a stored descriptor says of a collection.
#[derive(Debug)]
pub enum DescribedType {
    /// Documents without a schema.
    Schemaless,
    /// Documents with a schema.
    Strict(StrictSchema),
    /// Columnar rows, whatever their profile.
    Columnar,
    /// Key-value pairs.
    KeyValue(StrictSchema),
}

/// The engine that a collection is mainly read through.
#[verifier::external_type_specification]
#[verifier::external_body]
pub struct ExPrimaryEngine(nodedb_types::PrimaryEngine);

/// The configuration of a collection that is mainly read by its vectors.
#[verifier::external_type_specification]
#[verifier::external_body]
pub struct ExVectorPrimaryConfig(nodedb_types::VectorPrimaryConfig);

/// How the rows of a collection are spread.
#[verifier::external_type_specification]
#[verifier::external_body]
pub struct ExPartitionStrategy(nodedb_types::PartitionStrategy);

/// How a collection is read and spread.
#[derive(Debug)]
pub struct Placement {
    /// The engine that it is mainly read through.
    pub primary: nodedb_types::PrimaryEngine,
    /// Its configuration, where that engine is the one for vectors.
    pub vector_primary: Option<nodedb_types::VectorPrimaryConfig>,
    /// How its rows are spread.
    pub partition_strategy: nodedb_types::PartitionStrategy,
}

/// A stored descriptor.
#[derive(Debug)]
pub struct Descriptor {
    /// The type of the collection.
    pub collection_type: DescribedType,
    /// Names and type names of the fields.
    pub fields: Vec<(String, String)>,
    /// Whether the collection is bitemporal.
    pub bitemporal: bool,
    /// How the collection is read and spread.
    pub placement: Placement,
}

/// What a [`Descriptor`] is.
pub struct DescriptorView {
    pub collection_type: DescribedType,
    pub fields: Seq<(Seq<char>, Seq<char>)>,
    pub bitemporal: bool,
    pub placement: Placement,
}

impl View for Descriptor {
    type V = DescriptorView;

    open spec fn view(&self) -> DescriptorView {
        DescriptorView {
            collection_type: self.collection_type,
            fields: hints_view(self.fields@),
            bitemporal: self.bitemporal,
            placement: self.placement,
        }
    }
}

/// The descriptor that `sonic_rs::from_str` reads from a text, if it is one.
pub uninterp spec fn parsed_descriptor(json: Seq<char>) -> Option<DescriptorView>;

/// Calls `sonic_rs::from_str` for a `CollectionDescriptor` and takes its type, its
/// fields, its flag and its placement. They are those named [`parsed_descriptor`].
#[verifier::external_body]
fn parse_descriptor(json: &str) -> (r: Option<Descriptor>)
    ensures
        match r {
            Some(d) => parsed_descriptor(json@) == Some(d@),
            None => parsed_descriptor(json@) is None,
        },
{
    let d: nodedb_types::sync::wire::CollectionDescriptor = sonic_rs::from_str(json).ok()?;
    let collection_type = match d.collection_type {
        CollectionType::Document(DocumentMode::Schemaless) => DescribedType::Schemaless,
        CollectionType::Document(DocumentMode::Strict(s)) => DescribedType::Strict(s),
        CollectionType::Columnar(_) => DescribedType::Columnar,
        CollectionType::KeyValue(c) => DescribedType::KeyValue(c.schema),
    };
    let placement = Placement {
        primary: d.primary,
        vector_primary: d.vector_primary,
        partition_strategy: d.partition_strategy,
    };
    Some(Descriptor { collection_type, fields: d.fields, bitemporal: d.bitemporal, placement })
}

/// Stored metadata of a collection.
#[derive(Debug)]
pub struct CollectionMeta {
    /// The name of the collection's type.
    pub collection_type: String,
    /// Names and type names of the fields.
    pub fields: Vec<(String, String)>,
    /// Whether the collection is bitemporal.
    pub bitemporal: bool,
    /// The configuration, as JSON.
    pub config_json: Option<String>,
    /// The full descriptor, as JSON, where there is one.
    pub descriptor_json: Option<String>,
}

/// What a [`CollectionMeta`] is.
pub struct MetaView {
    pub collection_type: Seq<char>,
    pub fields: Seq<(Seq<char>, Seq<char>)>,
    pub bitemporal: bool,
    pub config_json: Option<Seq<char>>,
    pub descriptor_json: Option<Seq<char>>,
}

impl View for CollectionMeta {
    type V = MetaView;

    open spec fn view(&self) -> MetaView {
        MetaView {
            collection_type: self.collection_type@,
            fields: hints_view(self.fields@),
            bitemporal: self.bitemporal,
            config_json: optional(self.config_json),
            descriptor_json: optional(self.descriptor_json),
        }
    }
}

/// The descriptor of a collection, where one is stored that can be read.
pub open spec fn descriptor_of(meta: MetaView) -> Option<DescriptorView> {
    match meta.descriptor_json {
        Some(json) => parsed_descriptor(json),
        None => None,
    }
}

/// The schema in the configuration of a strict collection, where it can be read.
pub open spec fn strict_config(meta: MetaView) -> Option<StrictSchema> {
    match meta.config_json {
        Some(json) => parsed_strict_config(json),
        None => None,
    }
}

/// The schema in the configuration of a key-value collection, where it can be
/// read.
pub open spec fn kv_config(meta: MetaView) -> Option<StrictSchema> {
    match meta.config_json {
        Some(json) => parsed_kv_config(json),
        None => None,
    }
}

/// What the local engines know of a collection.
#[derive(Debug)]
pub struct LocalSchemas<'a> {
    /// The schema in the strict engine.
    pub strict: Option<&'a TableSchema>,
    /// The schema in the columnar engine.
    pub columnar: Option<&'a TableSchema>,
    /// Whether the replicated store has such a collection.
    pub in_store: bool,
}

/// A collection as the planner sees it.
#[derive(Debug)]
pub struct CollectionInfo {
    /// The collection.
    pub name: String,
    /// The engine that holds it.
    pub engine: EngineType,
    /// Its columns.
    pub columns: Vec<ColumnInfo>,
    /// The name of its primary key.
    pub primary_key: Option<String>,
    /// Whether it is bitemporal.
    pub bitemporal: bool,
    /// How it is read and spread, where its descriptor says so. Otherwise it is
    /// read through the document engine and spread in the default way.
    pub placement: Option<Placement>,
    /// Whether its rows may have columns that are not declared.
    pub open_schema: bool,
}

/// What a [`CollectionInfo`] is.
pub struct CollectionInfoView {
    pub name: Seq<char>,
    pub engine: EngineType,
    pub columns: Seq<ColumnInfoView>,
    pub primary_key: Option<Seq<char>>,
    pub bitemporal: bool,
    pub placement: Option<Placement>,
    pub open_schema: bool,
}

impl View for CollectionInfo {
    type V = CollectionInfoView;

    open spec fn view(&self) -> CollectionInfoView {
        CollectionInfoView {
            name: self.name@,
            engine: self.engine,
            columns: infos_view(self.columns@),
            primary_key: optional(self.primary_key),
            bitemporal: self.bitemporal,
            placement: self.placement,
            open_schema: self.open_schema,
        }
    }
}

/// Whether the rows of an engine may have columns that are not declared.
pub open spec fn open_engine(engine: EngineType) -> bool {
    engine == EngineType::DocumentSchemaless
}

/// A collection with a schema.
pub open spec fn schema_info(
    name: Seq<char>,
    engine: EngineType,
    s: SchemaView,
    bitemporal: bool,
) -> CollectionInfoView {
    CollectionInfoView {
        name,
        engine,
        columns: schema_columns(s.columns),
        primary_key: primary_from(s.columns, 0),
        bitemporal,
        placement: None,
        open_schema: open_engine(engine),
    }
}

/// A collection whose columns are known by names and type names alone.
pub open spec fn hinted_info(
    name: Seq<char>,
    engine: EngineType,
    fields: Seq<(Seq<char>, Seq<char>)>,
    bitemporal: bool,
) -> CollectionInfoView {
    CollectionInfoView {
        name,
        engine,
        columns: hinted_columns(fields),
        primary_key: None,
        bitemporal,
        placement: None,
        open_schema: open_engine(engine),
    }
}

/// A columnar collection: the columns of the engine where it has them.
pub open spec fn columnar_info(
    name: Seq<char>,
    fields: Seq<(Seq<char>, Seq<char>)>,
    bitemporal: bool,
    local: LocalSchemas,
) -> CollectionInfoView {
    match local.columnar {
        Some(s) => CollectionInfoView {
            name,
            engine: EngineType::Columnar,
            columns: schema_columns(s@.columns),
            primary_key: None,
            bitemporal,
            placement: None,
            open_schema: false,
        },
        None => hinted_info(name, EngineType::Columnar, fields, bitemporal),
    }
}

/// What the planner sees of a described collection. A strict schema in the
/// engine is fresher than the described one.
pub open spec fn described_info(
    name: Seq<char>,
    d: DescriptorView,
    local: LocalSchemas,
) -> CollectionInfoView {
    let info = match d.collection_type {
        DescribedType::Schemaless => hinted_info(
            name,
            EngineType::DocumentSchemaless,
            d.fields,
            d.bitemporal,
        ),
        DescribedType::Strict(s) => schema_info(
            name,
            EngineType::DocumentStrict,
            match local.strict {
                Some(fresh) => fresh@,
                None => schema_of(s),
            },
            d.bitemporal,
        ),
        DescribedType::Columnar => columnar_info(name, d.fields, d.bitemporal, local),
        DescribedType::KeyValue(s) => schema_info(
            name,
            EngineType::KeyValue,
            schema_of(s),
            d.bitemporal,
        ),
    };
    CollectionInfoView { placement: Some(d.placement), ..info }
}

/// What the planner sees of a collection with metadata but no descriptor.
pub open spec fn named_info(
    name: Seq<char>,
    meta: MetaView,
    local: LocalSchemas,
) -> CollectionInfoView {
    let kind = meta.collection_type;
    if kind == "document_strict"@ {
        match (local.strict, strict_config(meta)) {
            (Some(s), _) => schema_info(name, EngineType::DocumentStrict, s@, meta.bitemporal),
            (None, Some(s)) => schema_info(
                name,
                EngineType::DocumentStrict,
                schema_of(s),
                meta.bitemporal,
            ),
            (None, None) => hinted_info(
                name,
                EngineType::DocumentStrict,
                meta.fields,
                meta.bitemporal,
            ),
        }
    } else if kind == "columnar"@ || kind == "timeseries"@ || kind == "spatial"@ {
        columnar_info(name, meta.fields, meta.bitemporal, local)
    } else if kind == "kv"@ {
        match kv_config(meta) {
            Some(s) => schema_info(name, EngineType::KeyValue, schema_of(s), meta.bitemporal),
            None => hinted_info(name, EngineType::KeyValue, meta.fields, meta.bitemporal),
        }
    } else {
        hinted_info(name, EngineType::DocumentSchemaless, meta.fields, meta.bitemporal)
    }
}

/// What the planner sees of a collection with metadata: a descriptor that can be
/// read goes before the rest.
pub open spec fn meta_info(
    name: Seq<char>,
    meta: MetaView,
    local: LocalSchemas,
) -> CollectionInfoView {
    match descriptor_of(meta) {
        Some(d) => described_info(name, d, local),
        None => named_info(name, meta, local),
    }
}

/// What the planner sees of a collection that the replicated store alone
/// knows: one column, the key.
pub open spec fn keyed_info(name: Seq<char>) -> CollectionInfoView {
    CollectionInfoView {
        name,
        engine: EngineType::DocumentSchemaless,
        columns: seq![
            ColumnInfoView {
                name: "id"@,
                data_type: SqlDataType::String,
                nullable: false,
                is_primary_key: true,
                default: None,
                int_width: None,
                float_width: None,
                raw_type: None,
            },
        ],
        primary_key: Some("id"@),
        bitemporal: false,
        placement: None,
        open_schema: true,
    }
}

/// What the planner sees of a collection.
pub open spec fn collection_info(
    name: Seq<char>,
    meta: Option<&CollectionMeta>,
    local: LocalSchemas,
) -> Option<CollectionInfoView> {
    match (meta, local.strict, local.columnar) {
        (Some(m), _, _) => Some(meta_info(name, m@, local)),
        (None, Some(s), _) => Some(
            schema_info(name, EngineType::DocumentStrict, s@, s.bitemporal),
        ),
        (None, None, Some(s)) => Some(schema_info(name, EngineType::Columnar, s@, s.bitemporal)),
        (None, None, None) => if local.in_store {
            Some(keyed_info(name))
        } else {
            None
        },
    }
}

/// A collection with a schema.
fn info_from_schema(
    name: &str,
    engine: EngineType,
    s: &TableSchema,
    bitemporal: bool,
) -> (r: CollectionInfo)
    ensures
        r@ == schema_info(name@, engine, s@, bitemporal),
{
    let (columns, primary_key) = columns_from_column_defs(s.columns.as_slice());
    CollectionInfo {
        name: name.to_owned(),
        engine,
        columns,
        primary_key,
        bitemporal,
        placement: None,
        open_schema: engine == EngineType::DocumentSchemaless,
    }
}

/// A collection whose columns are known by names and type names alone.
fn info_from_fields(
    name: &str,
    engine: EngineType,
    fields: &Vec<(String, String)>,
    bitemporal: bool,
) -> (r: CollectionInfo)
    ensures
        r@ == hinted_info(name@, engine, hints_view(fields@), bitemporal),
{
    let columns = columns_from_fields(fields.as_slice());
    CollectionInfo {
        name: name.to_owned(),
        engine,
        columns,
        primary_key: None,
        bitemporal,
        placement: None,
        open_schema: engine == EngineType::DocumentSchemaless,
    }
}

/// A columnar collection.
fn columnar_columns_or_fields(
    name: &str,
    fields: &Vec<(String, String)>,
    bitemporal: bool,
    local: &LocalSchemas,
) -> (r: CollectionInfo)
    ensures
        r@ == columnar_info(name@, hints_view(fields@), bitemporal, *local),
{
    match local.columnar {
        Some(s) => {
            let (columns, _) = columns_from_column_defs(s.columns.as_slice());
            CollectionInfo {
                name: name.to_owned(),
                engine: EngineType::Columnar,
                columns,
                primary_key: None,
                bitemporal,
                placement: None,
                open_schema: false,
            }
        },
        None => info_from_fields(name, EngineType::Columnar, fields, bitemporal),
    }
}

/// What the planner sees of a described collection.
pub fn info_from_descriptor(name: &str, d: Descriptor, local: &LocalSchemas) -> (r: CollectionInfo)
    ensures
        r@ == described_info(name@, d@, *local),
{
    let mut info = match d.collection_type {
        DescribedType::Schemaless => info_from_fields(
            name,
            EngineType::DocumentSchemaless,
            &d.fields,
            d.bitemporal,
        ),
        DescribedType::Strict(s) => match local.strict {
            Some(fresh) => info_from_schema(
                name,
                EngineType::DocumentStrict,
                fresh,
                d.bitemporal,
            ),
            None => info_from_schema(
                name,
                EngineType::DocumentStrict,
                &table_schema(s),
                d.bitemporal,
            ),
        },
        DescribedType::Columnar => columnar_columns_or_fields(
            name,
            &d.fields,
            d.bitemporal,
            local,
        ),
        DescribedType::KeyValue(s) => info_from_schema(
            name,
            EngineType::KeyValue,
            &table_schema(s),
            d.bitemporal,
        ),
    };
    info.placement = Some(d.placement);
    info
}

/// What the planner sees of a collection with metadata but no descriptor.
pub fn info_from_meta_strings(name: &str, meta: &CollectionMeta, local: &LocalSchemas) -> (r:
    CollectionInfo)
    ensures
        r@ == named_info(name@, meta@, *local),
{
    let kind = meta.collection_type.as_str();
    if text::str_eq(kind, "document_strict") {
        if let Some(s) = local.strict {
            return info_from_schema(name, EngineType::DocumentStrict, s, meta.bitemporal);
        }
        let config = match &meta.config_json {
            Some(json) => parse_strict_config(json.as_str()),
            None => None,
        };
        match config {
            Some(s) => info_from_schema(
                name,
                EngineType::DocumentStrict,
                &table_schema(s),
                meta.bitemporal,
            ),
            None => info_from_fields(
                name,
                EngineType::DocumentStrict,
                &meta.fields,
                meta.bitemporal,
            ),
        }
    } else if text::str_eq(kind, "columnar") || text::str_eq(kind, "timeseries") || text::str_eq(
        kind,
        "spatial",
    ) {
        columnar_columns_or_fields(name, &meta.fields, meta.bitemporal, local)
    } else if text::str_eq(kind, "kv") {
        let config = match &meta.config_json {
            Some(json) => parse_kv_config(json.as_str()),
            None => None,
        };
        match config {
            Some(s) => info_from_schema(
                name,
                EngineType::KeyValue,
                &table_schema(s),
                meta.bitemporal,
            ),
            None => info_from_fields(name, EngineType::KeyValue, &meta.fields, meta.bitemporal),
        }
    } else {
        info_from_fields(name, EngineType::DocumentSchemaless, &meta.fields, meta.bitemporal)
    }
}

/// What the planner sees of a collection with metadata.
pub fn info_from_meta(name: &str, meta: &CollectionMeta, local: &LocalSchemas) -> (r:
    CollectionInfo)
    ensures
        r@ == meta_info(name@, meta@, *local),
{
    if let Some(json) = &meta.descriptor_json {
        if let Some(d) = parse_descriptor(json.as_str()) {
            return info_from_descriptor(name, d, local);
        }
    }
    info_from_meta_strings(name, meta, local)
}

/// What the planner sees of a collection, if there is one of this name.
pub fn get_collection(name: &str, meta: Option<&CollectionMeta>, local: &LocalSchemas) -> (r:
    Option<CollectionInfo>)
    ensures
        match r {
            Some(info) => collection_info(name@, meta, *local) == Some(info@),
            None => collection_info(name@, meta, *local) is None,
        },
{
    if let Some(m) = meta {
        return Some(info_from_meta(name, m, local));
    }
    if let Some(s) = local.strict {
        return Some(info_from_schema(name, EngineType::DocumentStrict, s, s.bitemporal));
    }
    if let Some(s) = local.columnar {
        return Some(info_from_schema(name, EngineType::Columnar, s, s.bitemporal));
    }
    if !local.in_store {
        return None;
    }
    let mut columns: Vec<ColumnInfo> = Vec::new();
    columns.push(
        ColumnInfo {
            name: "id".to_owned(),
            data_type: SqlDataType::String,
            nullable: false,
            is_primary_key: true,
            default: None,
            int_width: None,
            float_width: None,
            raw_type: None,
        },
    );
    let info = CollectionInfo {
        name: name.to_owned(),
        engine: EngineType::DocumentSchemaless,
        columns,
        primary_key: Some("id".to_owned()),
        bitemporal: false,
        placement: None,
        open_schema: true,
    };
    proof {
        assert(info@.columns =~= keyed_info(name@).columns);
    }
    Some(info)
}

/// The engine of a stored type name.
pub open spec fn named_engine(kind: Seq<char>) -> EngineType {
    if kind == "document_strict"@ {
        EngineType::DocumentStrict
    } else if kind == "columnar"@ || kind == "timeseries"@ || kind == "spatial"@ {
        EngineType::Columnar
    } else if kind == "kv"@ {
        EngineType::KeyValue
    } else {
        EngineType::DocumentSchemaless
    }
}

/// The engine of a described type.
pub open spec fn described_engine(t: DescribedType) -> EngineType {
    match t {
        DescribedType::Schemaless => EngineType::DocumentSchemaless,
        DescribedType::Strict(_) => EngineType::DocumentStrict,
        DescribedType::Columnar => EngineType::Columnar,
        DescribedType::KeyValue(_) => EngineType::KeyValue,
    }
}

/// Metadata decides: the flag that the planner sees is the stored one, and the
/// engine is that of the stored type, whatever the local engines hold. A
/// descriptor that can be read goes before the rest, and its placement with it.
/// The engine says whether the schema is open.
pub proof fn metadata_is_authoritative(name: Seq<char>, meta: CollectionMeta, local: LocalSchemas)
    ensures
        collection_info(name, Some(&meta), local) is Some,
        ({
            let info = collection_info(name, Some(&meta), local)->0;
            info.open_schema == open_engine(info.engine) && match descriptor_of(meta@) {
                Some(d) => info.bitemporal == d.bitemporal && info.engine == described_engine(
                    d.collection_type,
                ) && info.placement == Some(d.placement),
                None => info.bitemporal == meta.bitemporal && info.engine == named_engine(
                    meta.collection_type@,
                ) && info.placement is None,
            }
        }),
{
}

} // verus!
