//! Schemas of tables and blocks, and the columns that a projection selects.

use std::collections::BTreeMap;
use std::sync::Arc;

use vstd::prelude::*;

verus! {

/// The type of a column.
#[derive(Debug, PartialEq, Eq)]
pub enum DataType {
    Null,
    Boolean,
    String,
    Int { bits: u8 },
    UInt { bits: u8 },
    Float { bits: u8 },
    Decimal { precision: u8, scale: u8 },
    Timestamp,
    Date,
    Variant,
    Nullable(Box<DataType>),
    Array(Box<DataType>),
    Tuple(Vec<DataType>),
}

/// What a `DataType` stands for.
#[verifier::ext_equal]
pub enum DataTypeView {
    Null,
    Boolean,
    String,
    Int { bits: u8 },
    UInt { bits: u8 },
    Float { bits: u8 },
    Decimal { precision: u8, scale: u8 },
    Timestamp,
    Date,
    Variant,
    Nullable(Box<DataTypeView>),
    Array(Box<DataTypeView>),
    Tuple(Seq<DataTypeView>),
}

/// What the types of a list stand for.
pub open spec fn data_type_views(types: Seq<DataType>) -> Seq<DataTypeView>
    decreases types,
{
    Seq::new(
        types.len(),
        |i: int|
            if 0 <= i < types.len() {
                data_type_view(types[i])
            } else {
                DataTypeView::Null
            },
    )
}

/// What a type stands for.
pub open spec fn data_type_view(data_type: DataType) -> DataTypeView
    decreases data_type,
{
    match data_type {
        DataType::Null => DataTypeView::Null,
        DataType::Boolean => DataTypeView::Boolean,
        DataType::String => DataTypeView::String,
        DataType::Int { bits } => DataTypeView::Int { bits },
        DataType::UInt { bits } => DataTypeView::UInt { bits },
        DataType::Float { bits } => DataTypeView::Float { bits },
        DataType::Decimal { precision, scale } => DataTypeView::Decimal { precision, scale },
        DataType::Timestamp => DataTypeView::Timestamp,
        DataType::Date => DataTypeView::Date,
        DataType::Variant => DataTypeView::Variant,
        DataType::Nullable(t) => DataTypeView::Nullable(Box::new(data_type_view(*t))),
        DataType::Array(t) => DataTypeView::Array(Box::new(data_type_view(*t))),
        DataType::Tuple(v) => DataTypeView::Tuple(data_type_views(v@)),
    }
}

impl View for DataType {
    type V = DataTypeView;

    open spec fn view(&self) -> DataTypeView {
        data_type_view(*self)
    }
}

fn clone_data_types(types: &Vec<DataType>) -> (out: Vec<DataType>)
    ensures
        data_type_views(out@) == data_type_views(types@),
    decreases types,
{
    let mut out: Vec<DataType> = Vec::with_capacity(types.len());
    let mut i: usize = 0;
    while i < types.len()
        invariant
            i <= types.len(),
            data_type_views(out@) == data_type_views(types@).take(i as int),
        decreases types.len() - i,
    {
        let ghost before: Seq<DataType> = out@;
        let next: DataType = clone_data_type(&types[i]);
        out.push(next);
        assert(data_type_views(out@) =~= data_type_views(before).push(next@));
        i += 1;
    }
    assert(data_type_views(types@).take(i as int) =~= data_type_views(types@));
    out
}

fn clone_data_type(data_type: &DataType) -> (out: DataType)
    ensures
        out@ == data_type@,
    decreases data_type,
{
    match data_type {
        DataType::Null => DataType::Null,
        DataType::Boolean => DataType::Boolean,
        DataType::String => DataType::String,
        DataType::Int { bits } => DataType::Int { bits: *bits },
        DataType::UInt { bits } => DataType::UInt { bits: *bits },
        DataType::Float { bits } => DataType::Float { bits: *bits },
        DataType::Decimal { precision, scale } => DataType::Decimal {
            precision: *precision,
            scale: *scale,
        },
        DataType::Timestamp => DataType::Timestamp,
        DataType::Date => DataType::Date,
        DataType::Variant => DataType::Variant,
        DataType::Nullable(t) => DataType::Nullable(Box::new(clone_data_type(t))),
        DataType::Array(t) => DataType::Array(Box::new(clone_data_type(t))),
        DataType::Tuple(v) => DataType::Tuple(clone_data_types(v)),
    }
}

impl Clone for DataType {
    fn clone(&self) -> (out: Self)
        ensures
            out@ == self@,
    {
        clone_data_type(self)
    }
}

/// A field of a table or of a block, or a column of a stored file: its name and its type.
#[verifier::ext_equal]
pub struct FieldView {
    pub name: Seq<char>,
    pub data_type: DataTypeView,
}

/// A column of a stored file.
#[derive(Debug, PartialEq, Eq)]
pub struct Field {
    pub name: String,
    pub data_type: DataType,
}

impl View for Field {
    type V = FieldView;

    open spec fn view(&self) -> FieldView {
        FieldView { name: self.name@, data_type: self.data_type@ }
    }
}

impl Clone for Field {
    fn clone(&self) -> (out: Self)
        ensures
            out@ == self@,
            out.name@ == self.name@,
            out.data_type@ == self.data_type@,
    {
        Field { name: self.name.clone(), data_type: self.data_type.clone() }
    }
}

/// A field of a table.
#[derive(Debug, Clone, PartialEq, Eq)]
pub struct TableField {
    pub name: String,
    pub data_type: DataType,
}

impl View for TableField {
    type V = FieldView;

    open spec fn view(&self) -> FieldView {
        FieldView { name: self.name@, data_type: self.data_type@ }
    }
}

/// A field of a block.
#[derive(Debug, Clone, PartialEq, Eq)]
pub struct DataField {
    pub name: String,
    pub data_type: DataType,
}

impl View for DataField {
    type V = FieldView;

    open spec fn view(&self) -> FieldView {
        FieldView { name: self.name@, data_type: self.data_type@ }
    }
}

impl DataField {
    /// The field of a block that holds a field of a table.
    pub fn of_table_field(field: &TableField) -> (out: DataField)
        ensures
            out@ == field@,
            out.name@ == field.name@,
            out.data_type@ == field.data_type@,
    {
        DataField { name: field.name.clone(), data_type: field.data_type.clone() }
    }
}

/// The schema of a table.
#[derive(Debug, Clone, PartialEq, Eq)]
pub struct TableSchema {
    pub fields: Vec<TableField>,
}

impl View for TableSchema {
    type V = Seq<FieldView>;

    open spec fn view(&self) -> Seq<FieldView> {
        self.fields@.map_values(|f: TableField| f@)
    }
}

/// A shared schema of a table.
pub type TableSchemaRef = Arc<TableSchema>;

/// The schema of a block.
#[derive(Debug, Clone, PartialEq, Eq)]
pub struct DataSchema {
    pub fields: Vec<DataField>,
}

impl View for DataSchema {
    type V = Seq<FieldView>;

    open spec fn view(&self) -> Seq<FieldView> {
        self.fields@.map_values(|f: DataField| f@)
    }
}

impl DataSchema {
    /// A schema with these fields.
    pub fn new(fields: Vec<DataField>) -> (schema: DataSchema)
        ensures
            schema.fields@ == fields@,
            schema@ == fields@.map_values(|f: DataField| f@),
    {
        DataSchema { fields }
    }
}

/// Which columns of a table are read.
#[derive(Debug, PartialEq, Eq)]
pub enum Projection {
    /// Whole fields, by position.
    Columns(Vec<usize>),
    /// Fields and fields within fields, each by the path that leads to it.
    InnerColumns(BTreeMap<usize, Vec<usize>>),
}

/// What a `Projection` stands for.
#[verifier::ext_equal]
pub enum ProjectionView {
    Columns(Seq<usize>),
    InnerColumns(Map<usize, Seq<usize>>),
}

impl View for Projection {
    type V = ProjectionView;

    open spec fn view(&self) -> ProjectionView {
        match self {
            Projection::Columns(indices) => ProjectionView::Columns(indices@),
            Projection::InnerColumns(paths) => ProjectionView::InnerColumns(
                paths@.map_values(|path: Vec<usize>| path@),
            ),
        }
    }
}

impl Clone for Projection {
    fn clone(&self) -> (out: Self)
        ensures
            out@ == self@,
            match (out, *self) {
                (Projection::Columns(a), Projection::Columns(b)) => a@ == b@,
                (Projection::InnerColumns(a), Projection::InnerColumns(b)) => {
                    &&& forall|key: usize| #[trigger]
                        a@.contains_key(key) <==> b@.contains_key(key)
                    &&& forall|key: usize| #[trigger]
                        a@.contains_key(key) ==> a@[key]@ == b@[key]@
                },
                _ => false,
            },
    {
        match self {
            Projection::Columns(indices) => Projection::Columns(indices.clone()),
            Projection::InnerColumns(paths) => Projection::InnerColumns(paths.clone()),
        }
    }
}

/// A column of a stored file with its leaves: a column of a nested type has several.
#[derive(Debug, PartialEq, Eq)]
pub struct ColumnNode {
    pub field: Field,
    /// The positions of the leaves among all leaves of the file.
    pub leaf_indices: Vec<usize>,
    /// The column ids of the leaves.
    pub leaf_column_ids: Vec<u32>,
}

/// What a `ColumnNode` stands for.
#[verifier::ext_equal]
pub struct ColumnNodeView {
    pub field: FieldView,
    pub leaf_indices: Seq<usize>,
    pub leaf_column_ids: Seq<u32>,
}

impl View for ColumnNode {
    type V = ColumnNodeView;

    open spec fn view(&self) -> ColumnNodeView {
        ColumnNodeView {
            field: self.field@,
            leaf_indices: self.leaf_indices@,
            leaf_column_ids: self.leaf_column_ids@,
        }
    }
}

impl Clone for ColumnNode {
    fn clone(&self) -> (out: Self)
        ensures
            out@ == self@,
            out.field.name@ == self.field.name@,
            out.field.data_type@ == self.field.data_type@,
            out.leaf_indices@ == self.leaf_indices@,
            out.leaf_column_ids@ == self.leaf_column_ids@,
    {
        ColumnNode {
            field: self.field.clone(),
            leaf_indices: self.leaf_indices.clone(),
            leaf_column_ids: self.leaf_column_ids.clone(),
        }
    }
}

impl ColumnNode {
    /// Every leaf has a column id.
    pub open spec fn is_well_formed(self) -> bool {
        self.leaf_indices@.len() <= self.leaf_column_ids@.len()
    }
}

/// The columns of a stored file.
#[derive(Debug, PartialEq, Eq)]
pub struct ColumnNodes {
    pub column_nodes: Vec<ColumnNode>,
}

impl View for ColumnNodes {
    type V = Seq<ColumnNodeView>;

    open spec fn view(&self) -> Seq<ColumnNodeView> {
        self.column_nodes@.map_values(|node: ColumnNode| node@)
    }
}

impl Clone for ColumnNodes {
    fn clone(&self) -> (out: Self)
        ensures
            out@ == self@,
            out.column_nodes@.len() == self.column_nodes@.len(),
            forall|i: int|
                0 <= i < self.column_nodes@.len() ==> {
                    let copy = #[trigger] out.column_nodes@[i];
                    &&& copy.field.name@ == self.column_nodes@[i].field.name@
                    &&& copy.field.data_type@ == self.column_nodes@[i].field.data_type@
                    &&& copy.leaf_indices@ == self.column_nodes@[i].leaf_indices@
                    &&& copy.leaf_column_ids@ == self.column_nodes@[i].leaf_column_ids@
                },
    {
        let mut column_nodes: Vec<ColumnNode> = Vec::with_capacity(self.column_nodes.len());
        let mut i: usize = 0;
        while i < self.column_nodes.len()
            invariant
                i <= self.column_nodes.len(),
                column_nodes@.map_values(|node: ColumnNode| node@) == self@.take(i as int),
                column_nodes@.len() == i,
                forall|k: int|
                    0 <= k < i ==> {
                        let copy = #[trigger] column_nodes@[k];
                        &&& copy.field.name@ == self.column_nodes@[k].field.name@
                        &&& copy.field.data_type@ == self.column_nodes@[k].field.data_type@
                        &&& copy.leaf_indices@ == self.column_nodes@[k].leaf_indices@
                        &&& copy.leaf_column_ids@ == self.column_nodes@[k].leaf_column_ids@
                    },
            decreases self.column_nodes.len() - i,
        {
            let ghost before: Seq<ColumnNode> = column_nodes@;
            column_nodes.push(self.column_nodes[i].clone());
            assert(column_nodes@.map_values(|node: ColumnNode| node@) =~= before.map_values(
                |node: ColumnNode| node@,
            ).push(self@[i as int]));
            assert(self@.take(i + 1) =~= self@.take(i as int).push(self@[i as int]));
            i += 1;
        }
        assert(self@.take(i as int) =~= self@);
        ColumnNodes { column_nodes }
    }
}

/// Where the bytes of a column are stored.
#[derive(Debug, Clone, Copy, PartialEq, Eq)]
pub struct ColumnMeta {
    pub offset: u64,
    pub len: u64,
}

impl ColumnMeta {
    /// The first byte of the column and the number of its bytes.
    pub fn offset_length(&self) -> (r: (u64, u64))
        ensures
            r == (self.offset, self.len),
    {
        (self.offset, self.len)
    }
}

/// Two types that stand for the same are the same type, down to every part: a copy loses
/// nothing.
pub proof fn law_types_are_told_apart(a: DataType, b: DataType)
    requires
        a@ == b@,
    ensures
        match (a, b) {
            (DataType::Null, DataType::Null) => true,
            (DataType::Boolean, DataType::Boolean) => true,
            (DataType::String, DataType::String) => true,
            (DataType::Int { bits: m }, DataType::Int { bits: n }) => m == n,
            (DataType::UInt { bits: m }, DataType::UInt { bits: n }) => m == n,
            (DataType::Float { bits: m }, DataType::Float { bits: n }) => m == n,
            (
                DataType::Decimal { precision: m, scale: s },
                DataType::Decimal { precision: n, scale: t },
            ) => m == n && s == t,
            (DataType::Timestamp, DataType::Timestamp) => true,
            (DataType::Date, DataType::Date) => true,
            (DataType::Variant, DataType::Variant) => true,
            (DataType::Nullable(m), DataType::Nullable(n)) => (*m)@ == (*n)@,
            (DataType::Array(m), DataType::Array(n)) => (*m)@ == (*n)@,
            (DataType::Tuple(m), DataType::Tuple(n)) => m@.len() == n@.len() && forall|i: int|
                0 <= i < m@.len() ==> (#[trigger] m@[i])@ == n@[i]@,
            _ => false,
        },
{
    if let (DataType::Tuple(m), DataType::Tuple(n)) = (a, b) {
        assert(data_type_views(m@).len() == m@.len() && data_type_views(n@).len() == n@.len());
        assert forall|i: int| 0 <= i < m@.len() implies (#[trigger] m@[i])@ == n@[i]@ by {
            assert(data_type_views(m@)[i] == m@[i]@ && data_type_views(n@)[i] == n@[i]@);
        }
    }
}

/// Two fields that stand for the same have the same name and the same type.
pub proof fn law_fields_are_told_apart(a: Field, b: Field, c: TableField, d: DataField)
    ensures
        a@ == b@ <==> a.name@ == b.name@ && a.data_type@ == b.data_type@,
        c@ == d@ <==> c.name@ == d.name@ && c.data_type@ == d.data_type@,
{
}

/// Two columns that stand for the same have the same field and the same leaves.
pub proof fn law_columns_are_told_apart(a: ColumnNode, b: ColumnNode)
    ensures
        a@ == b@ <==> {
            &&& a.field.name@ == b.field.name@
            &&& a.field.data_type@ == b.field.data_type@
            &&& a.leaf_indices@ == b.leaf_indices@
            &&& a.leaf_column_ids@ == b.leaf_column_ids@
        },
{
}

/// A projection stands for its positions, or for the paths under its keys.
pub proof fn law_projection_holds_its_paths(
    indices: Vec<usize>,
    paths: BTreeMap<usize, Vec<usize>>,
    key: usize,
)
    ensures
        Projection::Columns(indices)@ == ProjectionView::Columns(indices@),
        Projection::InnerColumns(paths)@ is InnerColumns,
        Projection::InnerColumns(paths)@->InnerColumns_0.contains_key(key)
            <==> paths@.contains_key(key),
        paths@.contains_key(key) ==> Projection::InnerColumns(paths)@->InnerColumns_0[key]
            == paths@[key]@,
{
}

} // verus!
