//! The reader of the blocks of a table.

use std::collections::BTreeMap;
use std::collections::HashMap;
use std::ops::Range;
use std::sync::Arc;

use vstd::prelude::*;

use crate::errors::ErrorCode;
use crate::scalar::clone_scalars;
use crate::scalar::inner_project_field_default_values;
use crate::scalar::Scalar;
use crate::schema::ColumnMeta;
use crate::schema::ColumnNode;
use crate::schema::ColumnNodes;
use crate::schema::DataField;
use crate::schema::DataSchema;
use crate::schema::DataType;
use crate::schema::Field;
use crate::schema::Projection;
use crate::schema::ProjectionView;
use crate::schema::TableSchemaRef;

verus! {

/// `opendal::Operator`, the access to a storage. It is opaque here: the requests to the
/// storage are sent elsewhere.
#[verifier::external_type_specification]
#[verifier::external_body]
pub struct ExOperator(opendal::Operator);

/// Whether the backend of an `opendal::Operator` declares that it can be used without an
/// async runtime.
pub uninterp spec fn can_block(operator: opendal::Operator) -> bool;

/// Calls `opendal::Operator::metadata` and `can_blocking` on what it returns. The call looks up
/// whether blocking operations are among the capabilities that the backend of the operator
/// declares, so the result depends on the operator alone.
#[verifier::external_body]
fn operator_can_blocking(operator: &opendal::Operator) -> (can: bool)
    ensures
        can == can_block(*operator),
{
    operator.metadata().can_blocking()
}

/// `<opendal::Operator as Clone>::clone`: the copy shares the backend of the operator, and is
/// as good as the operator itself.
pub assume_specification[ <opendal::Operator as Clone>::clone ](
    operator: &opendal::Operator,
) -> (copy: opendal::Operator)
    ensures
        copy == *operator,
;

/// What the leaves of projected columns are read for: the column id, the field and its type.
pub open spec fn indices_view(indices: Map<usize, (u32, Field, DataType)>) -> Map<
    usize,
    (u32, crate::schema::FieldView, crate::schema::DataTypeView),
> {
    indices.map_values(|v: (u32, Field, DataType)| (v.0, v.1@, v.2@))
}

/// The leaves of a column, by position.
pub open spec fn node_entries(node: ColumnNode) -> Seq<
    (usize, (u32, crate::schema::FieldView, crate::schema::DataTypeView)),
> {
    Seq::new(
        node.leaf_indices@.len(),
        |i: int|
            (
                node.leaf_indices@[i],
                (node.leaf_column_ids@[i], node.field@, node.field.data_type@),
            ),
    )
}

/// The leaves of several columns, by position, one column after the other.
pub open spec fn leaf_entries(nodes: Seq<ColumnNode>) -> Seq<
    (usize, (u32, crate::schema::FieldView, crate::schema::DataTypeView)),
>
    decreases nodes.len(),
{
    if nodes.len() == 0 {
        Seq::empty()
    } else {
        leaf_entries(nodes.drop_last()) + node_entries(nodes.last())
    }
}

/// Every leaf of the columns has a column id.
pub open spec fn are_well_formed(nodes: Seq<ColumnNode>) -> bool {
    forall|i: int| 0 <= i < nodes.len() ==> (#[trigger] nodes[i]).is_well_formed()
}

/// The schema whose fields need a default value.
pub open spec fn needs_defaults(
    projection: Projection,
    schema: TableSchemaRef,
    projected_schema: TableSchemaRef,
) -> TableSchemaRef {
    match projection {
        Projection::Columns(_) => projected_schema,
        Projection::InnerColumns(_) => schema,
    }
}

/// The first failure in a list of outcomes.
pub open spec fn first_failure(outcomes: Seq<Result<Scalar, ErrorCode>>) -> Option<ErrorCode>
    decreases outcomes.len(),
{
    if outcomes.len() == 0 {
        None
    } else {
        match (first_failure(outcomes.drop_last()), outcomes.last()) {
            (Some(e), _) => Some(e),
            (None, Err(e)) => Some(e),
            (None, Ok(_)) => None,
        }
    }
}

/// The first failure among what a reader is made from.
pub open spec fn first_error<D>(
    field_defaults: Seq<Result<Scalar, ErrorCode>>,
    parquet_schema_descriptor: Result<D, ErrorCode>,
    project_column_nodes: Result<Vec<ColumnNode>, ErrorCode>,
) -> Option<ErrorCode> {
    match (first_failure(field_defaults), parquet_schema_descriptor, project_column_nodes) {
        (Some(e), _, _) => Some(e),
        (None, Err(e), _) => Some(e),
        (None, Ok(_), Err(e)) => Some(e),
        (None, Ok(_), Ok(_)) => None,
    }
}

/// The values in a list of outcomes without a failure.
pub open spec fn successes(outcomes: Seq<Result<Scalar, ErrorCode>>) -> Seq<Scalar> {
    outcomes.map_values(|outcome: Result<Scalar, ErrorCode>| outcome->Ok_0)
}

/// Every path leads to a value.
pub open spec fn are_paths_to_values(vals: Seq<Scalar>, paths: Map<usize, Seq<usize>>) -> bool {
    forall|key: usize| #[trigger]
        paths.contains_key(key) ==> {
            &&& crate::scalar::is_path_in_bounds(vals, paths[key])
            &&& crate::scalar::value_at(vals, paths[key]) is Some
        }
}

/// `keys` are the keys of `paths` in ascending order.
pub open spec fn are_keys_in_order(keys: Seq<usize>, paths: Map<usize, Seq<usize>>) -> bool {
    &&& forall|i: int, j: int| 0 <= i < j < keys.len() ==> keys[i] < keys[j]
    &&& keys.to_set() == paths.dom()
}

/// `projected` holds the value that each path leads to, in the order of the keys.
pub open spec fn are_values_in_order(
    vals: Seq<Scalar>,
    paths: Map<usize, Seq<usize>>,
    projected: Seq<crate::scalar::ScalarView>,
) -> bool {
    exists|keys: Seq<usize>|
        {
            &&& #[trigger] are_keys_in_order(keys, paths)
            &&& projected.len() == keys.len()
            &&& forall|i: int|
                0 <= i < keys.len() ==> crate::scalar::value_at(vals, paths[#[trigger] keys[i]])
                    == Some(projected[i])
        }
}

/// A leaf is projected, and it is known where its column is stored.
pub open spec fn is_stored(
    indices: Map<usize, (u32, Field, DataType)>,
    columns_meta: Map<u32, ColumnMeta>,
    index: usize,
) -> bool {
    indices.contains_key(index) && columns_meta.contains_key(indices[index].0)
}

/// `ranges` are the parts of a block that hold the projected leaves, as far as it is known
/// where they are stored: each leaf once, in ascending order.
pub open spec fn are_stored_ranges(
    indices: Map<usize, (u32, Field, DataType)>,
    columns_meta: Map<u32, ColumnMeta>,
    ranges: Seq<(usize, Range<u64>)>,
) -> bool {
    &&& forall|i: int, j: int|
        0 <= i < j < ranges.len() ==> (#[trigger] ranges[i]).0 < (#[trigger] ranges[j]).0
    &&& forall|i: int|
        0 <= i < ranges.len() ==> {
            let meta = columns_meta[indices[(#[trigger] ranges[i]).0].0];
            &&& is_stored(indices, columns_meta, ranges[i].0)
            &&& ranges[i].1.start == meta.offset
            &&& ranges[i].1.end == meta.offset + meta.len
        }
    &&& forall|index: usize| #[trigger]
        is_stored(indices, columns_meta, index) ==> exists|i: int|
            0 <= i < ranges.len() && (#[trigger] ranges[i]).0 == index
}

/// A failure among the first outcomes is the first failure.
proof fn lemma_failure_of_prefix(outcomes: Seq<Result<Scalar, ErrorCode>>, n: int)
    requires
        0 <= n <= outcomes.len(),
        first_failure(outcomes.take(n)) is Some,
    ensures
        first_failure(outcomes) == first_failure(outcomes.take(n)),
    decreases outcomes.len(),
{
    if n < outcomes.len() {
        assert(outcomes.drop_last().take(n) == outcomes.take(n));
        lemma_failure_of_prefix(outcomes.drop_last(), n);
    } else {
        assert(outcomes.take(n) == outcomes);
    }
}

/// `pairs` are the entries of `map`, each once, by ascending key.
spec fn are_entries_in_order<V>(map: Map<usize, V>, pairs: Seq<(&usize, &V)>) -> bool {
    &&& forall|i: int, j: int|
        0 <= i < j < pairs.len() ==> *(#[trigger] pairs[i]).0 < *(#[trigger] pairs[j]).0
    &&& forall|i: int|
        0 <= i < pairs.len() ==> map.contains_key(*(#[trigger] pairs[i]).0) && map[*pairs[i].0]
            == *pairs[i].1
    &&& forall|key: usize| #[trigger]
        map.contains_key(key) ==> exists|i: int|
            0 <= i < pairs.len() && *(#[trigger] pairs[i]).0 == key
}

/// The entries that a `BTreeMap` yields are in order.
proof fn lemma_entries_in_order<V>(map: BTreeMap<usize, V>, pairs: Seq<(&usize, &V)>)
    requires
        pairs == vstd::std_specs::iter::IteratorSpec::remaining(
            &vstd::std_specs::btree::spec_btree_map_iter(&map),
        ),
        vstd::std_specs::btree::increasing_seq(
            pairs.map_values(|kv: (&usize, &V)| *kv.0),
        ),
    ensures
        are_entries_in_order(map@, pairs),
{
    broadcast use vstd::std_specs::btree::group_btree_axioms;

    let keys = pairs.map_values(|kv: (&usize, &V)| *kv.0);
    assert(vstd::laws_cmp::obeys_cmp::<usize>());
    assert forall|i: int, j: int| 0 <= i < j < pairs.len() implies *(#[trigger] pairs[i]).0 < *(
    #[trigger] pairs[j]).0 by {
        assert(vstd::std_specs::cmp::OrdSpec::cmp_spec(&keys[i], &keys[j]) is Less);
    }
    assert forall|key: usize| #[trigger] map@.contains_key(key) implies exists|i: int|
        0 <= i < pairs.len() && *(#[trigger] pairs[i]).0 == key by {
        assert(pairs.contains((&key, &map@[key])));
        let i = choose|i: int| 0 <= i < pairs.len() && pairs[i] == (&key, &map@[key]);
        assert(*pairs[i].0 == key);
    }
    assert forall|i: int| 0 <= i < pairs.len() implies map@.contains_key(*(#[trigger] pairs[i]).0)
        && map@[*pairs[i].0] == *pairs[i].1 by {
        assert(map@.contains_key(*pairs[i].0));
    }
}

/// The values that the paths lead to, in the order of their keys.
fn project_defaults(vals: &Vec<Scalar>, paths: &BTreeMap<usize, Vec<usize>>) -> (out: Vec<Scalar>)
    requires
        are_paths_to_values(vals@, paths@.map_values(|path: Vec<usize>| path@)),
    ensures
        are_values_in_order(
            vals@,
            paths@.map_values(|path: Vec<usize>| path@),
            crate::scalar::scalar_views(out@),
        ),
{
    broadcast use vstd::std_specs::btree::group_btree_axioms;

    let ghost path_views: Map<usize, Seq<usize>> = paths@.map_values(|path: Vec<usize>| path@);
    let iter: std::collections::btree_map::Iter<usize, Vec<usize>> = paths.iter();
    let ghost pairs: Seq<(&usize, &Vec<usize>)> = vstd::std_specs::iter::IteratorSpec::remaining(
        &iter,
    );
    proof {
        lemma_entries_in_order(*paths, pairs);
    }
    let mut out: Vec<Scalar> = Vec::with_capacity(paths.len());
    for entry in it: iter
        invariant
            it.seq() == pairs,
            are_entries_in_order(paths@, pairs),
            path_views == paths@.map_values(|path: Vec<usize>| path@),
            are_paths_to_values(vals@, path_views),
            out@.len() == it.index(),
            forall|i: int|
                0 <= i < out@.len() ==> crate::scalar::value_at(
                    vals@,
                    path_views[*(#[trigger] pairs[i]).0],
                ) == Some(crate::scalar::scalar_views(out@)[i]),
    {
        let ghost before: Seq<Scalar> = out@;
        let ghost at: int = it.index() as int;
        assert(pairs[at] == entry);
        assert(path_views.contains_key(*pairs[at].0));
        match inner_project_field_default_values(vals.as_slice(), entry.1.as_slice()) {
            Ok(val) => {
                out.push(val);
                assert(crate::scalar::scalar_views(out@) =~= crate::scalar::scalar_views(
                    before,
                ).push(val@));
            },
            Err(_) => {
                assert(false);
            },
        }
    }
    proof {
        let keys = pairs.map_values(|kv: (&usize, &Vec<usize>)| *kv.0);
        assert forall|i: int| 0 <= i < keys.len() implies crate::scalar::value_at(
            vals@,
            path_views[#[trigger] keys[i]],
        ) == Some(crate::scalar::scalar_views(out@)[i]) by {
            assert(keys[i] == *pairs[i].0);
        }
        assert forall|i: int, j: int| 0 <= i < j < keys.len() implies keys[i] < keys[j] by {
            assert(*pairs[i].0 < *pairs[j].0);
        }
        assert(keys.to_set() =~= path_views.dom()) by {
            assert forall|key: usize| path_views.contains_key(key) implies keys.contains(key) by {
                assert(paths@.contains_key(key));
                let i = choose|i: int| 0 <= i < pairs.len() && *(#[trigger] pairs[i]).0 == key;
                assert(keys[i] == key);
            }
            assert forall|key: usize| keys.contains(key) implies path_views.contains_key(key) by {
                let i = choose|i: int| 0 <= i < keys.len() && keys[i] == key;
                assert(paths@.contains_key(*pairs[i].0));
            }
        }
        assert(are_keys_in_order(keys, path_views));
    }
    out
}

/// Reads the projected columns of the blocks of a table. `D` describes the stored files.
pub struct BlockReader<D> {
    pub operator: opendal::Operator,
    pub projection: Projection,
    pub projected_schema: TableSchemaRef,
    pub project_indices: BTreeMap<usize, (u32, Field, DataType)>,
    pub column_nodes: ColumnNodes,
    pub parquet_schema_descriptor: D,
    pub default_vals: Vec<Scalar>,
}

impl<D: Clone> Clone for BlockReader<D> {
    fn clone(&self) -> (out: Self)
        ensures
            out.operator == self.operator,
            out.projection@ == self.projection@,
            out.projected_schema == self.projected_schema,
            out.project_indices@ == self.project_indices@,
            out.column_nodes@ == self.column_nodes@,
            cloned(self.parquet_schema_descriptor, out.parquet_schema_descriptor),
            crate::scalar::scalar_views(out.default_vals@) == crate::scalar::scalar_views(
                self.default_vals@,
            ),
            out.column_nodes.column_nodes@.len() == self.column_nodes.column_nodes@.len(),
            forall|i: int|
                0 <= i < self.column_nodes.column_nodes@.len() ==> {
                    let copy = #[trigger] out.column_nodes.column_nodes@[i];
                    let node = self.column_nodes.column_nodes@[i];
                    &&& copy.field.name@ == node.field.name@
                    &&& copy.field.data_type@ == node.field.data_type@
                    &&& copy.leaf_indices@ == node.leaf_indices@
                    &&& copy.leaf_column_ids@ == node.leaf_column_ids@
                },
            match (out.projection, self.projection) {
                (Projection::Columns(a), Projection::Columns(b)) => a@ == b@,
                (Projection::InnerColumns(a), Projection::InnerColumns(b)) => {
                    &&& forall|key: usize| #[trigger]
                        a@.contains_key(key) <==> b@.contains_key(key)
                    &&& forall|key: usize| #[trigger]
                        a@.contains_key(key) ==> a@[key]@ == b@[key]@
                },
                _ => false,
            },
            out.default_vals@.len() == self.default_vals@.len(),
            forall|i: int|
                0 <= i < self.default_vals@.len() ==> (#[trigger] out.default_vals@[i])@
                    == self.default_vals@[i]@,
    {
        BlockReader {
            operator: self.operator.clone(),
            projection: self.projection.clone(),
            projected_schema: self.projected_schema.clone(),
            project_indices: self.project_indices.clone(),
            column_nodes: self.column_nodes.clone(),
            parquet_schema_descriptor: self.parquet_schema_descriptor.clone(),
            default_vals: clone_scalars(&self.default_vals),
        }
    }
}

impl<D> BlockReader<D> {
    /// Whether the storage can be read without an async runtime.
    pub fn support_blocking_api(&self) -> (can: bool)
        ensures
            can == can_block(self.operator),
    {
        operator_can_blocking(&self.operator)
    }

    /// The schema of the projected columns.
    pub fn schema(&self) -> (schema: TableSchemaRef)
        ensures
            schema == self.projected_schema,
    {
        self.projected_schema.clone()
    }

    /// The fields of the blocks that are read.
    pub fn data_fields(&self) -> (fields: Vec<DataField>)
        ensures
            fields@.map_values(|f: DataField| f@) == self.projected_schema@,
            fields@.len() == self.projected_schema.fields@.len(),
            forall|i: int|
                0 <= i < fields@.len() ==> {
                    &&& (#[trigger] fields@[i]).name@ == self.projected_schema.fields@[i].name@
                    &&& fields@[i].data_type@ == self.projected_schema.fields@[i].data_type@
                },
    {
        let schema: TableSchemaRef = self.schema();
        let mut out: Vec<DataField> = Vec::with_capacity(schema.fields.len());
        let mut i: usize = 0;
        while i < schema.fields.len()
            invariant
                i <= schema.fields.len(),
                out@.map_values(|f: DataField| f@) == schema@.take(i as int),
                out@.len() == i,
                forall|k: int|
                    0 <= k < i ==> {
                        &&& (#[trigger] out@[k]).name@ == schema.fields@[k].name@
                        &&& out@[k].data_type@ == schema.fields@[k].data_type@
                    },
            decreases schema.fields.len() - i,
        {
            let ghost before: Seq<DataField> = out@;
            out.push(DataField::of_table_field(&schema.fields[i]));
            assert(out@.map_values(|f: DataField| f@) =~= before.map_values(
                |f: DataField| f@,
            ).push(schema@[i as int]));
            assert(schema@.take(i + 1) =~= schema@.take(i as int).push(schema@[i as int]));
            i += 1;
        }
        assert(schema@.take(i as int) =~= schema@);
        out
    }

    /// The schema of the blocks that are read.
    pub fn data_schema(&self) -> (schema: DataSchema)
        ensures
            schema@ == self.projected_schema@,
            schema.fields@.len() == self.projected_schema.fields@.len(),
            forall|i: int|
                0 <= i < schema.fields@.len() ==> {
                    let field = #[trigger] schema.fields@[i];
                    &&& field.name@ == self.projected_schema.fields@[i].name@
                    &&& field.data_type@ == self.projected_schema.fields@[i].data_type@
                },
    {
        let fields: Vec<DataField> = self.data_fields();
        DataSchema::new(fields)
    }

    /// The schema whose fields need a default value: where whole columns are read, those that
    /// are projected; where fields within fields are read, all fields of the table.
    pub fn schema_with_defaults(
        projection: &Projection,
        schema: &TableSchemaRef,
        projected_schema: &TableSchemaRef,
    ) -> (needed: TableSchemaRef)
        ensures
            needed == needs_defaults(*projection, *schema, *projected_schema),
            projection is Columns ==> needed == *projected_schema,
            projection is InnerColumns ==> needed == *schema,
    {
        match projection {
            Projection::Columns(_) => projected_schema.clone(),
            Projection::InnerColumns(_) => schema.clone(),
        }
    }

    /// Makes a reader. `field_defaults` are the default values of the fields of
    /// `schema_with_defaults`, up to the first one that cannot be had,
    /// `parquet_schema_descriptor` describes the stored files, `column_nodes` are all their
    /// columns, and `project_column_nodes` the projected ones. The first failure among these
    /// is passed on.
    pub fn create(
        operator: opendal::Operator,
        schema: TableSchemaRef,
        projection: Projection,
        projected_schema: TableSchemaRef,
        field_defaults: Vec<Result<Scalar, ErrorCode>>,
        parquet_schema_descriptor: Result<D, ErrorCode>,
        column_nodes: ColumnNodes,
        project_column_nodes: Result<Vec<ColumnNode>, ErrorCode>,
    ) -> (r: Result<Arc<BlockReader<D>>, ErrorCode>)
        requires
            (forall|i: int| 0 <= i < field_defaults@.len() ==> #[trigger] field_defaults@[i] is Ok)
                ==> {
                &&& projection is Columns ==> field_defaults@.len()
                    == projected_schema.fields@.len()
                &&& projection is InnerColumns ==> field_defaults@.len() == schema.fields@.len()
                &&& projection matches Projection::InnerColumns(paths) ==> forall|key: usize|
                    #[trigger]
                    paths@.contains_key(key) ==> {
                        let vals = field_defaults@.map_values(
                            |outcome: Result<Scalar, ErrorCode>| outcome->Ok_0,
                        );
                        &&& crate::scalar::is_path_in_bounds(vals, paths@[key]@)
                        &&& crate::scalar::value_at(vals, paths@[key]@) is Some
                    }
            },
            (forall|i: int| 0 <= i < field_defaults@.len() ==> #[trigger] field_defaults@[i] is Ok)
                && parquet_schema_descriptor is Ok && project_column_nodes is Ok ==> forall|c: int|
                0 <= c < project_column_nodes->Ok_0@.len() ==> (
                #[trigger] project_column_nodes->Ok_0@[c]).leaf_indices@.len()
                    <= project_column_nodes->Ok_0@[c].leaf_column_ids@.len(),
        ensures
            match r {
                Ok(reader) => {
                    &&& first_error(
                        field_defaults@,
                        parquet_schema_descriptor,
                        project_column_nodes,
                    ) is None
                    &&& reader.operator == operator
                    &&& reader.projection == projection
                    &&& reader.projected_schema == projected_schema
                    &&& reader.column_nodes == column_nodes
                    &&& Ok::<D, ErrorCode>(reader.parquet_schema_descriptor)
                        == parquet_schema_descriptor
                    &&& indices_view(reader.project_indices@) == crate::entries::collected(
                        leaf_entries(project_column_nodes->Ok_0@),
                    )
                    &&& match projection@ {
                        ProjectionView::Columns(_) => reader.default_vals@ == successes(
                            field_defaults@,
                        ),
                        ProjectionView::InnerColumns(paths) => are_values_in_order(
                            successes(field_defaults@),
                            paths,
                            crate::scalar::scalar_views(reader.default_vals@),
                        ),
                    }
                },
                Err(e) => first_error(
                    field_defaults@,
                    parquet_schema_descriptor,
                    project_column_nodes,
                ) == Some(e),
            },
            match r {
                Ok(reader) => {
                    &&& forall|i: int|
                        0 <= i < field_defaults@.len() ==> #[trigger] field_defaults@[i] is Ok
                    &&& parquet_schema_descriptor == Ok::<D, ErrorCode>(
                        reader.parquet_schema_descriptor,
                    )
                    &&& project_column_nodes is Ok
                    &&& projection is Columns ==> {
                        &&& reader.default_vals@.len() == field_defaults@.len()
                        &&& forall|i: int|
                            0 <= i < field_defaults@.len() ==> #[trigger] field_defaults@[i] == Ok::<
                                Scalar,
                                ErrorCode,
                            >(reader.default_vals@[i])
                    }
                    &&& projection is InnerColumns ==> forall|vals: Seq<Scalar>|
                        vals.len() == field_defaults@.len() && (forall|i: int|
                            0 <= i < vals.len() ==> field_defaults@[i] == Ok::<Scalar, ErrorCode>(
                                #[trigger] vals[i],
                            )) ==> #[trigger] are_values_in_order(
                            vals,
                            projection@->InnerColumns_0,
                            crate::scalar::scalar_views(reader.default_vals@),
                        )
                },
                Err(e) => {
                    ||| exists|i: int|
                        {
                            &&& 0 <= i < field_defaults@.len()
                            &&& #[trigger] field_defaults@[i] == Err::<Scalar, ErrorCode>(e)
                            &&& forall|j: int| 0 <= j < i ==> #[trigger] field_defaults@[j] is Ok
                        }
                    ||| {
                        &&& forall|i: int|
                            0 <= i < field_defaults@.len() ==> #[trigger] field_defaults@[i] is Ok
                        &&& parquet_schema_descriptor == Err::<D, ErrorCode>(e)
                    }
                    ||| {
                        &&& forall|i: int|
                            0 <= i < field_defaults@.len() ==> #[trigger] field_defaults@[i] is Ok
                        &&& parquet_schema_descriptor is Ok
                        &&& project_column_nodes == Err::<Vec<ColumnNode>, ErrorCode>(e)
                    }
                },
            },
    {
        proof {
            law_first_failure_comes_first(field_defaults@);
            law_defaults_are_passed_on(field_defaults@);
        }
        assert(first_failure(field_defaults@) is None ==> successes(field_defaults@)
            =~= field_defaults@.map_values(|outcome: Result<Scalar, ErrorCode>| outcome->Ok_0));
        let outcome: Result<Arc<BlockReader<D>>, ErrorCode> = Self::assemble(
            operator,
            schema,
            projection,
            projected_schema,
            field_defaults,
            parquet_schema_descriptor,
            column_nodes,
            project_column_nodes,
        );
        proof {
            if outcome is Ok && projection is InnerColumns {
                let projected = crate::scalar::scalar_views(outcome->Ok_0.default_vals@);
                let paths = projection@->InnerColumns_0;
                assert forall|vals: Seq<Scalar>|
                    vals.len() == field_defaults@.len() && (forall|i: int|
                        0 <= i < vals.len() ==> field_defaults@[i] == Ok::<Scalar, ErrorCode>(
                            #[trigger] vals[i],
                        )) implies #[trigger] are_values_in_order(vals, paths, projected) by {
                    assert forall|i: int| 0 <= i < vals.len() implies vals[i] == successes(
                        field_defaults@,
                    )[i] by {
                        assert(field_defaults@[i] == Ok::<Scalar, ErrorCode>(vals[i]));
                    }
                    assert(vals =~= successes(field_defaults@));
                }
            }
        }
        outcome
    }

    /// Makes a reader from parts that fit together.
    fn assemble(
        operator: opendal::Operator,
        schema: TableSchemaRef,
        projection: Projection,
        projected_schema: TableSchemaRef,
        field_defaults: Vec<Result<Scalar, ErrorCode>>,
        parquet_schema_descriptor: Result<D, ErrorCode>,
        column_nodes: ColumnNodes,
        project_column_nodes: Result<Vec<ColumnNode>, ErrorCode>,
    ) -> (r: Result<Arc<BlockReader<D>>, ErrorCode>)
        requires
            first_failure(field_defaults@) is None ==> {
                &&& field_defaults@.len() == needs_defaults(
                    projection,
                    schema,
                    projected_schema,
                ).fields@.len()
                &&& projection@ matches ProjectionView::InnerColumns(paths) ==> are_paths_to_values(
                    successes(field_defaults@),
                    paths,
                )
            },
            first_error(field_defaults@, parquet_schema_descriptor, project_column_nodes) is None
                ==> are_well_formed(project_column_nodes->Ok_0@),
        ensures
            match r {
                Ok(reader) => {
                    &&& first_error(
                        field_defaults@,
                        parquet_schema_descriptor,
                        project_column_nodes,
                    ) is None
                    &&& reader.operator == operator
                    &&& reader.projection == projection
                    &&& reader.projected_schema == projected_schema
                    &&& reader.column_nodes == column_nodes
                    &&& Ok::<D, ErrorCode>(reader.parquet_schema_descriptor)
                        == parquet_schema_descriptor
                    &&& indices_view(reader.project_indices@) == crate::entries::collected(
                        leaf_entries(project_column_nodes->Ok_0@),
                    )
                    &&& match projection@ {
                        ProjectionView::Columns(_) => reader.default_vals@ == successes(
                            field_defaults@,
                        ),
                        ProjectionView::InnerColumns(paths) => are_values_in_order(
                            successes(field_defaults@),
                            paths,
                            crate::scalar::scalar_views(reader.default_vals@),
                        ),
                    }
                },
                Err(e) => first_error(
                    field_defaults@,
                    parquet_schema_descriptor,
                    project_column_nodes,
                ) == Some(e),
            },
    {
        let ghost given: Seq<Result<Scalar, ErrorCode>> = field_defaults@;
        let mut field_default_vals: Vec<Scalar> = Vec::with_capacity(field_defaults.len());
        for field_default in it: field_defaults.into_iter()
            invariant
                it.seq() == given,
                first_failure(given.take(it.index() as int)) is None,
                field_default_vals@ == successes(given.take(it.index() as int)),
        {
            let ghost i: int = it.index() as int;
            assert(given.take(i + 1).drop_last() == given.take(i));
            match field_default {
                Ok(val) => {
                    field_default_vals.push(val);
                },
                Err(e) => {
                    proof {
                        lemma_failure_of_prefix(given, i + 1);
                    }
                    return Err(e);
                },
            }
        }
        assert(given.take(given.len() as int) == given);
        let default_vals: Vec<Scalar> = match &projection {
            Projection::Columns(_) => field_default_vals,
            Projection::InnerColumns(path_indices) => project_defaults(
                &field_default_vals,
                path_indices,
            ),
        };
        let parquet_schema_descriptor: D = match parquet_schema_descriptor {
            Ok(descriptor) => descriptor,
            Err(e) => {
                return Err(e);
            },
        };
        let project_column_nodes: Vec<ColumnNode> = match project_column_nodes {
            Ok(nodes) => nodes,
            Err(e) => {
                return Err(e);
            },
        };
        let project_indices: BTreeMap<usize, (u32, Field, DataType)> =
            Self::build_projection_indices(project_column_nodes.as_slice());
        Ok(
            Arc::new(
                BlockReader {
                    operator,
                    projection,
                    projected_schema,
                    project_indices,
                    column_nodes,
                    parquet_schema_descriptor,
                    default_vals,
                },
            ),
        )
    }

    /// The parts of a block that hold the projected columns, by leaf, in order: those that
    /// `columns_meta` knows where to find.
    pub fn column_ranges(&self, columns_meta: &HashMap<u32, ColumnMeta>) -> (ranges: Vec<
        (usize, Range<u64>),
    >)
        requires
            forall|index: usize| #[trigger]
                self.project_indices@.contains_key(index) && columns_meta@.contains_key(
                    self.project_indices@[index].0,
                ) ==> {
                    let meta = columns_meta@[self.project_indices@[index].0];
                    meta.offset + meta.len <= u64::MAX
                },
        ensures
            are_stored_ranges(self.project_indices@, columns_meta@, ranges@),
            forall|index: usize|
                (#[trigger] self.project_indices@.contains_key(index)
                    && columns_meta@.contains_key(self.project_indices@[index].0)) <==> (exists|
                    i: int,
                |
                    0 <= i < ranges@.len() && (#[trigger] ranges@[i]).0 == index),
            forall|i: int|
                0 <= i < ranges@.len() ==> {
                    let index = (#[trigger] ranges@[i]).0;
                    let meta = columns_meta@[self.project_indices@[index].0];
                    &&& self.project_indices@.contains_key(index)
                    &&& columns_meta@.contains_key(self.project_indices@[index].0)
                    &&& ranges@[i].1.start == meta.offset
                    &&& ranges@[i].1.end == meta.offset + meta.len
                },
            forall|i: int, j: int|
                0 <= i < j < ranges@.len() ==> (#[trigger] ranges@[i]).0 < (
                #[trigger] ranges@[j]).0,
    {
        broadcast use vstd::std_specs::hash::group_hash_axioms;
        broadcast use vstd::std_specs::btree::group_btree_axioms;

        let mut ranges: Vec<(usize, Range<u64>)> = Vec::new();
        let iter: std::collections::btree_map::Iter<usize, (u32, Field, DataType)> =
            self.project_indices.iter();
        let ghost pairs: Seq<(&usize, &(u32, Field, DataType))> =
            vstd::std_specs::iter::IteratorSpec::remaining(&iter);
        let ghost indices: Map<usize, (u32, Field, DataType)> = self.project_indices@;
        assert forall|index: usize| #[trigger] is_stored(
            indices,
            columns_meta@,
            index,
        ) implies columns_meta@[indices[index].0].offset + columns_meta@[indices[index].0].len
            <= u64::MAX by {
            assert(indices.contains_key(index));
        }
        proof {
            lemma_entries_in_order(self.project_indices, pairs);
        }
        for entry in it: iter
            invariant
                it.seq() == pairs,
                indices == self.project_indices@,
                are_entries_in_order(indices, pairs),
                forall|index: usize| #[trigger]
                    is_stored(indices, columns_meta@, index) ==> {
                        let meta = columns_meta@[indices[index].0];
                        meta.offset + meta.len <= u64::MAX
                    },
                forall|i: int, j: int|
                    0 <= i < j < ranges@.len() ==> (#[trigger] ranges@[i]).0 < (
                    #[trigger] ranges@[j]).0,
                forall|i: int, k: int|
                    0 <= i < ranges@.len() && it.index() <= k < pairs.len() ==> (
                    #[trigger] ranges@[i]).0 < *(#[trigger] pairs[k]).0,
                forall|i: int|
                    0 <= i < ranges@.len() ==> {
                        let meta = columns_meta@[indices[(#[trigger] ranges@[i]).0].0];
                        &&& is_stored(indices, columns_meta@, ranges@[i].0)
                        &&& ranges@[i].1.start == meta.offset
                        &&& ranges@[i].1.end == meta.offset + meta.len
                    },
                forall|k: int|
                    0 <= k < it.index() && is_stored(
                        indices,
                        columns_meta@,
                        *(#[trigger] pairs[k]).0,
                    ) ==> exists|i: int|
                        0 <= i < ranges@.len() && (#[trigger] ranges@[i]).0 == *pairs[k].0,
        {
            broadcast use vstd::std_specs::hash::group_hash_axioms;

            let ghost at: int = it.index() as int;
            let ghost before: Seq<(usize, Range<u64>)> = ranges@;
            let index: usize = *entry.0;
            let column_id: u32 = entry.1.0;
            assert(pairs[at] == entry);
            assert(indices[index].0 == column_id);
            if let Some(column_meta) = columns_meta.get(&column_id) {
                assert(is_stored(indices, columns_meta@, index));
                let (offset, len): (u64, u64) = column_meta.offset_length();
                ranges.push((index, offset..(offset + len)));
                assert(ranges@[before.len() as int].0 == index);
            }
            assert forall|k: int|
                0 <= k < at + 1 && is_stored(indices, columns_meta@, *(#[trigger] pairs[k]).0) implies
                exists|i: int|
                    0 <= i < ranges@.len() && (#[trigger] ranges@[i]).0 == *pairs[k].0 by {
                if k < at {
                    let i = choose|i: int|
                        0 <= i < before.len() && (#[trigger] before[i]).0 == *pairs[k].0;
                    assert(ranges@[i] == before[i]);
                }
            }
        }
        assert forall|index: usize| #[trigger] is_stored(
            indices,
            columns_meta@,
            index,
        ) implies exists|i: int| 0 <= i < ranges@.len() && (#[trigger] ranges@[i]).0 == index by {
            let k = choose|k: int| 0 <= k < pairs.len() && *(#[trigger] pairs[k]).0 == index;
            assert(is_stored(indices, columns_meta@, *pairs[k].0));
        }
        assert(are_stored_ranges(indices, columns_meta@, ranges@));
        proof {
            law_stored_columns_are_read(indices, columns_meta@, ranges@);
        }
        ranges
    }

    /// What each leaf of the columns is read for, without duplicates: a leaf that belongs to
    /// several columns is read for the last of them.
    pub fn build_projection_indices(columns: &[ColumnNode]) -> (indices: BTreeMap<
        usize,
        (u32, Field, DataType),
    >)
        requires
            forall|c: int|
                0 <= c < columns@.len() ==> (#[trigger] columns@[c]).leaf_indices@.len()
                    <= columns@[c].leaf_column_ids@.len(),
        ensures
            indices_view(indices@) == crate::entries::collected(leaf_entries(columns@)),
            forall|c: int, i: int|
                #![trigger columns@[c].leaf_indices@[i]]
                0 <= c < columns@.len() && 0 <= i < columns@[c].leaf_indices@.len() && (forall|
                    d: int,
                    j: int,
                |
                    #![trigger columns@[d].leaf_indices@[j]]
                    c <= d < columns@.len() && 0 <= j < columns@[d].leaf_indices@.len() && (c < d
                        || i < j) ==> columns@[d].leaf_indices@[j] != columns@[c].leaf_indices@[i])
                    ==> {
                    let entry = indices@[columns@[c].leaf_indices@[i]];
                    &&& indices@.contains_key(columns@[c].leaf_indices@[i])
                    &&& entry.0 == columns@[c].leaf_column_ids@[i]
                    &&& entry.1.name@ == columns@[c].field.name@
                    &&& entry.1.data_type@ == columns@[c].field.data_type@
                    &&& entry.2@ == columns@[c].field.data_type@
                },
            forall|index: usize| #[trigger]
                indices@.contains_key(index) <==> exists|c: int|
                    0 <= c < columns@.len() && (#[trigger] columns@[c]).leaf_indices@.contains(
                        index,
                    ),
    {
        broadcast use vstd::std_specs::btree::group_btree_axioms;

        let mut indices: BTreeMap<usize, (u32, Field, DataType)> = BTreeMap::new();
        let mut c: usize = 0;
        assert(indices_view(indices@) =~= crate::entries::collected(leaf_entries(columns@.take(0))));
        while c < columns.len()
            invariant
                c <= columns.len(),
                are_well_formed(columns@),
                indices_view(indices@) == crate::entries::collected(
                    leaf_entries(columns@.take(c as int)),
                ),
            decreases columns.len() - c,
        {
            let column: &ColumnNode = &columns[c];
            let ghost done: Seq<(usize, (u32, crate::schema::FieldView, crate::schema::DataTypeView))> =
                leaf_entries(columns@.take(c as int));
            let ghost own: Seq<(usize, (u32, crate::schema::FieldView, crate::schema::DataTypeView))> =
                node_entries(*column);
            assert(done + own.take(0) =~= done);
            assert(column.is_well_formed());
            let mut i: usize = 0;
            while i < column.leaf_indices.len()
                invariant
                    i <= column.leaf_indices.len(),
                    column.is_well_formed(),
                    own == node_entries(*column),
                    indices_view(indices@) == crate::entries::collected(done + own.take(i as int)),
                decreases column.leaf_indices.len() - i,
            {
                broadcast use vstd::std_specs::btree::group_btree_axioms;

                let ghost before: Map<usize, (u32, Field, DataType)> = indices@;
                let index: usize = column.leaf_indices[i];
                let entry: (u32, Field, DataType) = (
                    column.leaf_column_ids[i],
                    column.field.clone(),
                    column.field.data_type.clone(),
                );
                indices.insert(index, entry);
                assert(indices_view(indices@) =~= indices_view(before).insert(
                    index,
                    (entry.0, entry.1@, entry.2@),
                ));
                assert((done + own.take(i + 1)).drop_last() =~= done + own.take(i as int));
                i += 1;
            }
            assert(own.take(i as int) =~= own);
            assert(columns@.take(c + 1).drop_last() =~= columns@.take(c as int));
            c += 1;
        }
        assert(columns@.take(c as int) =~= columns@);
        proof {
            law_leaves_hold_their_column(columns@);
            law_indices_hold_their_column(columns@, indices@);
        }
        indices
    }
}

/// A merged read of the projected columns brings exactly those that are stored, each with its
/// own bytes: where the chunks are what the requests get from the block, the bytes of a leaf
/// are those from its offset on, as many as its length says.
pub proof fn law_projected_columns_are_read_back(
    settings: crate::merge_io::ReadSettings,
    object: Seq<u8>,
    indices: Map<usize, (u32, Field, DataType)>,
    columns_meta: Map<u32, ColumnMeta>,
    ranges: Seq<(usize, Range<u64>)>,
    read: crate::chunks::MergeIOReadView,
)
    requires
        are_stored_ranges(indices, columns_meta, ranges),
        ranges.len() <= usize::MAX,
        crate::merge_io::are_within(ranges, object.len()),
        crate::merge_io::are_addressable(crate::merge_io::requests(settings, ranges)),
        crate::merge_io::are_read_from(
            read.chunks,
            crate::merge_io::requests(settings, ranges),
            object,
        ),
        read.columns == crate::entries::collected(
            crate::merge_io::all_placed(crate::merge_io::requests(settings, ranges), ranges),
        ),
    ensures
        read.is_all_fetched(),
        read.is_consistent(),
        forall|index: usize|
            read.columns.contains_key(index) <==> #[trigger] is_stored(
                indices,
                columns_meta,
                index,
            ),
        forall|index: usize| #[trigger]
            is_stored(indices, columns_meta, index) ==> {
                let meta = columns_meta[indices[index].0];
                read.column_bytes(index) == object.subrange(
                    meta.offset as int,
                    meta.offset + meta.len,
                )
            },
{
    crate::merge_io::law_columns_are_parts_of_the_object(settings, object, ranges, read);
    assert forall|i: int| 0 <= i < ranges.len() implies crate::entries::is_last_of_key(
        ranges,
        i,
    ) by {}
    assert forall|index: usize| #[trigger] is_stored(indices, columns_meta, index) implies {
        let meta = columns_meta[indices[index].0];
        &&& read.columns.contains_key(index)
        &&& read.column_bytes(index) == object.subrange(
            meta.offset as int,
            meta.offset + meta.len,
        )
    } by {
        let i = choose|i: int| 0 <= i < ranges.len() && (#[trigger] ranges[i]).0 == index;
        assert(crate::entries::is_last_of_key(ranges, i));
    }
    assert forall|index: usize| read.columns.contains_key(index) implies #[trigger] is_stored(
        indices,
        columns_meta,
        index,
    ) by {
        let i = choose|i: int| #[trigger]
            crate::entries::is_last_of_key(ranges, i) && ranges[i].0 == index;
        assert(is_stored(indices, columns_meta, ranges[i].0));
    }
}

/// Some column has leaf `index`.
pub open spec fn is_leaf(nodes: Seq<ColumnNode>, index: usize) -> bool {
    exists|c: int|
        0 <= c < nodes.len() && (#[trigger] nodes[c]).leaf_indices@.contains(index)
}

/// The leaves of some columns have the keys that some column names.
proof fn lemma_keys_are_leaves(nodes: Seq<ColumnNode>, index: usize)
    ensures
        has_key(leaf_entries(nodes), index) <==> is_leaf(nodes, index),
    decreases nodes.len(),
{
    if nodes.len() > 0 {
        let before = nodes.drop_last();
        let own = node_entries(nodes.last());
        let leaves = nodes.last().leaf_indices@;
        lemma_keys_are_leaves(before, index);
        lemma_keys_of_concatenation(leaf_entries(before), own, index);
        if is_leaf(before, index) {
            let c = choose|c: int|
                0 <= c < before.len() && (#[trigger] before[c]).leaf_indices@.contains(index);
            assert(nodes[c].leaf_indices@.contains(index));
        }
        if has_key(own, index) {
            let i = choose|i: int| 0 <= i < own.len() && (#[trigger] own[i]).0 == index;
            assert(leaves[i] == index);
            assert(nodes[nodes.len() - 1].leaf_indices@.contains(index));
        }
        if is_leaf(nodes, index) {
            let c = choose|c: int|
                0 <= c < nodes.len() && (#[trigger] nodes[c]).leaf_indices@.contains(index);
            if c < before.len() {
                assert(before[c].leaf_indices@.contains(index));
            } else {
                let i = choose|i: int| 0 <= i < leaves.len() && leaves[i] == index;
                assert(own[i].0 == index);
            }
        }
    }
}

/// Every leaf of the projected columns is read, and nothing else. Since a leaf is a key, it is
/// read once, however many of the columns it belongs to.
pub proof fn law_leaves_are_read_once(nodes: Seq<ColumnNode>)
    ensures
        forall|index: usize| #[trigger]
            crate::entries::collected(leaf_entries(nodes)).contains_key(index) <==> is_leaf(
                nodes,
                index,
            ),
{
    let entries = leaf_entries(nodes);
    crate::entries::law_last_entry_wins(entries);
    assert forall|index: usize| #[trigger]
        crate::entries::collected(entries).contains_key(index) <==> is_leaf(nodes, index) by {
        lemma_keys_are_leaves(nodes, index);
    }
}

/// Some entry has key `key`.
spec fn has_key<V>(entries: Seq<(usize, V)>, key: usize) -> bool {
    exists|i: int| 0 <= i < entries.len() && (#[trigger] entries[i]).0 == key
}

/// A list has the keys of its two parts.
proof fn lemma_keys_of_concatenation<V>(a: Seq<(usize, V)>, b: Seq<(usize, V)>, key: usize)
    ensures
        has_key(a + b, key) <==> has_key(a, key) || has_key(b, key),
{
    if has_key(a, key) {
        let i = choose|i: int| 0 <= i < a.len() && (#[trigger] a[i]).0 == key;
        assert((a + b)[i].0 == key);
    }
    if has_key(b, key) {
        let i = choose|i: int| 0 <= i < b.len() && (#[trigger] b[i]).0 == key;
        assert((a + b)[a.len() + i].0 == key);
    }
    if has_key(a + b, key) {
        let i = choose|i: int| 0 <= i < (a + b).len() && (#[trigger] (a + b)[i]).0 == key;
        if i < a.len() {
            assert(a[i].0 == key);
        } else {
            assert(b[i - a.len()].0 == key);
        }
    }
}

/// Two ascending lists of the same keys are the same.
proof fn lemma_ascending_keys_are_unique(a: Seq<usize>, b: Seq<usize>)
    requires
        forall|i: int, j: int| 0 <= i < j < a.len() ==> a[i] < a[j],
        forall|i: int, j: int| 0 <= i < j < b.len() ==> b[i] < b[j],
        forall|key: usize| #[trigger] a.contains(key) <==> b.contains(key),
    ensures
        a == b,
    decreases a.len(),
{
    if a.len() == 0 {
        if b.len() > 0 {
            assert(b.contains(b[0]));
            assert(a.contains(b[0]));
        }
    } else {
        assert(a.contains(a.last()));
        assert(b.contains(a.last()));
        assert(b.len() > 0);
        assert(b.contains(b.last()));
        assert(a.contains(b.last()));
        let i = choose|i: int| 0 <= i < a.len() && a[i] == b.last();
        let j = choose|j: int| 0 <= j < b.len() && b[j] == a.last();
        assert(a[i] <= a[a.len() - 1]);
        assert(b[j] <= b[b.len() - 1]);
        assert(a.last() == b.last());
        assert forall|key: usize| #[trigger]
            a.drop_last().contains(key) <==> b.drop_last().contains(key) by {
            lemma_contained_before_last(a, key);
            lemma_contained_before_last(b, key);
        }
        lemma_ascending_keys_are_unique(a.drop_last(), b.drop_last());
        assert(a =~= a.drop_last().push(a.last()));
        assert(b =~= b.drop_last().push(b.last()));
    }
}

proof fn lemma_contained_before_last(a: Seq<usize>, key: usize)
    requires
        a.len() > 0,
        forall|i: int, j: int| 0 <= i < j < a.len() ==> a[i] < a[j],
    ensures
        a.drop_last().contains(key) <==> a.contains(key) && key != a.last(),
{
    if a.drop_last().contains(key) {
        let i = choose|i: int| 0 <= i < a.drop_last().len() && a.drop_last()[i] == key;
        assert(a[i] == key);
        assert(a[i] < a[a.len() - 1]);
    }
    if a.contains(key) && key != a.last() {
        let i = choose|i: int| 0 <= i < a.len() && a[i] == key;
        assert(a.drop_last()[i] == key);
    }
}

/// The parts that are read of a block are fixed by the projection and by where the columns are
/// stored.
pub proof fn law_stored_ranges_are_determined(
    indices: Map<usize, (u32, Field, DataType)>,
    columns_meta: Map<u32, ColumnMeta>,
    a: Seq<(usize, Range<u64>)>,
    b: Seq<(usize, Range<u64>)>,
)
    requires
        are_stored_ranges(indices, columns_meta, a),
        are_stored_ranges(indices, columns_meta, b),
    ensures
        a == b,
{
    let keys_a = a.map_values(|part: (usize, Range<u64>)| part.0);
    let keys_b = b.map_values(|part: (usize, Range<u64>)| part.0);
    lemma_stored_keys(indices, columns_meta, a);
    lemma_stored_keys(indices, columns_meta, b);
    lemma_ascending_keys_are_unique(keys_a, keys_b);
    assert(a.len() == keys_a.len() && b.len() == keys_b.len());
    assert forall|i: int| 0 <= i < a.len() implies a[i] == b[i] by {
        assert(keys_a[i] == a[i].0);
        assert(keys_b[i] == b[i].0);
        assert(a[i].1 == b[i].1);
    }
    assert(a =~= b);
}

proof fn lemma_stored_keys(
    indices: Map<usize, (u32, Field, DataType)>,
    columns_meta: Map<u32, ColumnMeta>,
    ranges: Seq<(usize, Range<u64>)>,
)
    requires
        are_stored_ranges(indices, columns_meta, ranges),
    ensures
        ({
            let keys = ranges.map_values(|part: (usize, Range<u64>)| part.0);
            &&& forall|i: int, j: int| 0 <= i < j < keys.len() ==> keys[i] < keys[j]
            &&& forall|key: usize| #[trigger]
                keys.contains(key) <==> is_stored(indices, columns_meta, key)
        }),
{
    let keys = ranges.map_values(|part: (usize, Range<u64>)| part.0);
    assert forall|i: int, j: int| 0 <= i < j < keys.len() implies keys[i] < keys[j] by {
        assert(ranges[i].0 < ranges[j].0);
    }
    assert forall|key: usize| #[trigger] keys.contains(key) <==> is_stored(
        indices,
        columns_meta,
        key,
    ) by {
        if keys.contains(key) {
            let i = choose|i: int| 0 <= i < keys.len() && keys[i] == key;
            assert(is_stored(indices, columns_meta, ranges[i].0));
        }
        if is_stored(indices, columns_meta, key) {
            let i = choose|i: int| 0 <= i < ranges.len() && (#[trigger] ranges[i]).0 == key;
            assert(keys[i] == key);
        }
    }
}

/// The projected default values are fixed by the default values of the fields and by the
/// paths.
pub proof fn law_projected_defaults_are_determined(
    vals: Seq<Scalar>,
    paths: Map<usize, Seq<usize>>,
    a: Seq<crate::scalar::ScalarView>,
    b: Seq<crate::scalar::ScalarView>,
)
    requires
        are_values_in_order(vals, paths, a),
        are_values_in_order(vals, paths, b),
    ensures
        a == b,
{
    let keys_a = choose|keys: Seq<usize>|
        {
            &&& #[trigger] are_keys_in_order(keys, paths)
            &&& a.len() == keys.len()
            &&& forall|i: int|
                0 <= i < keys.len() ==> crate::scalar::value_at(vals, paths[#[trigger] keys[i]])
                    == Some(a[i])
        };
    let keys_b = choose|keys: Seq<usize>|
        {
            &&& #[trigger] are_keys_in_order(keys, paths)
            &&& b.len() == keys.len()
            &&& forall|i: int|
                0 <= i < keys.len() ==> crate::scalar::value_at(vals, paths[#[trigger] keys[i]])
                    == Some(b[i])
        };
    assert forall|key: usize| #[trigger] keys_a.contains(key) <==> keys_b.contains(key) by {
        assert(keys_a.to_set().contains(key) <==> keys_b.to_set().contains(key));
    }
    lemma_ascending_keys_are_unique(keys_a, keys_b);
    assert forall|i: int| 0 <= i < a.len() implies a[i] == b[i] by {
        assert(crate::scalar::value_at(vals, paths[keys_a[i]]) == Some(a[i]));
        assert(crate::scalar::value_at(vals, paths[keys_b[i]]) == Some(b[i]));
    }
    assert(a =~= b);
}

/// There is one projected default value for each path.
pub proof fn law_one_default_per_path(
    vals: Seq<Scalar>,
    paths: Map<usize, Seq<usize>>,
    projected: Seq<crate::scalar::ScalarView>,
)
    requires
        are_values_in_order(vals, paths, projected),
    ensures
        projected.len() == paths.dom().len(),
{
    let keys = choose|keys: Seq<usize>|
        {
            &&& #[trigger] are_keys_in_order(keys, paths)
            &&& projected.len() == keys.len()
            &&& forall|i: int|
                0 <= i < keys.len() ==> crate::scalar::value_at(vals, paths[#[trigger] keys[i]])
                    == Some(projected[i])
        };
    assert(keys.no_duplicates());
    keys.unique_seq_to_set();
}

/// A leaf is read if and only if it is projected and its column is stored. The part that is
/// read for it starts at the offset of the column and is as long as the column. Each leaf is
/// read once, in ascending order.
pub proof fn law_stored_columns_are_read(
    indices: Map<usize, (u32, Field, DataType)>,
    columns_meta: Map<u32, ColumnMeta>,
    ranges: Seq<(usize, Range<u64>)>,
)
    requires
        are_stored_ranges(indices, columns_meta, ranges),
    ensures
        forall|index: usize|
            (#[trigger] indices.contains_key(index) && columns_meta.contains_key(
                indices[index].0,
            )) <==> (exists|i: int| 0 <= i < ranges.len() && (#[trigger] ranges[i]).0 == index),
        forall|i: int|
            0 <= i < ranges.len() ==> {
                let index = (#[trigger] ranges[i]).0;
                let meta = columns_meta[indices[index].0];
                &&& indices.contains_key(index)
                &&& columns_meta.contains_key(indices[index].0)
                &&& ranges[i].1.start == meta.offset
                &&& ranges[i].1.end == meta.offset + meta.len
            },
        forall|i: int, j: int|
            0 <= i < j < ranges.len() ==> (#[trigger] ranges[i]).0 < (#[trigger] ranges[j]).0,
{
    assert forall|index: usize|
        (#[trigger] indices.contains_key(index) && columns_meta.contains_key(indices[index].0))
            <==> (exists|i: int| 0 <= i < ranges.len() && (#[trigger] ranges[i]).0 == index) by {
        if indices.contains_key(index) && columns_meta.contains_key(indices[index].0) {
            assert(is_stored(indices, columns_meta, index));
        }
        if exists|i: int| 0 <= i < ranges.len() && (#[trigger] ranges[i]).0 == index {
            let i = choose|i: int| 0 <= i < ranges.len() && (#[trigger] ranges[i]).0 == index;
            assert(is_stored(indices, columns_meta, ranges[i].0));
        }
    }
    assert forall|i: int| 0 <= i < ranges.len() implies {
        let index = (#[trigger] ranges[i]).0;
        let meta = columns_meta[indices[index].0];
        &&& indices.contains_key(index)
        &&& columns_meta.contains_key(indices[index].0)
        &&& ranges[i].1.start == meta.offset
        &&& ranges[i].1.end == meta.offset + meta.len
    } by {
        assert(is_stored(indices, columns_meta, ranges[i].0));
    }
}

/// Adding entries with other keys changes nothing for a key.
proof fn lemma_other_keys_change_nothing<V>(a: Seq<(usize, V)>, b: Seq<(usize, V)>, key: usize)
    requires
        !has_key(b, key),
        crate::entries::collected(a).contains_key(key),
    ensures
        crate::entries::collected(a + b).contains_key(key),
        crate::entries::collected(a + b)[key] == crate::entries::collected(a)[key],
{
    crate::entries::law_last_entry_wins(a);
    crate::entries::law_last_entry_wins(a + b);
    let p = choose|p: int| #[trigger]
        crate::entries::is_last_of_key(a, p) && a[p].0 == key;
    assert((a + b)[p] == a[p]);
    assert forall|j: int| p < j < (a + b).len() implies (#[trigger] (a + b)[j]).0 != key by {
        if j < a.len() {
            assert(a[j].0 != a[p].0);
        } else {
            assert(b[j - a.len()].0 != key);
        }
    }
    assert(crate::entries::is_last_of_key(a + b, p));
}

/// A leaf that comes up no more is read for its column.
proof fn lemma_leaf_holds_its_column(nodes: Seq<ColumnNode>, c: int, i: int)
    requires
        0 <= c < nodes.len(),
        0 <= i < nodes[c].leaf_indices@.len(),
        forall|d: int, j: int|
            #![trigger nodes[d].leaf_indices@[j]]
            c <= d < nodes.len() && 0 <= j < nodes[d].leaf_indices@.len() && (c < d || i < j)
                ==> nodes[d].leaf_indices@[j] != nodes[c].leaf_indices@[i],
    ensures
        crate::entries::collected(leaf_entries(nodes)).contains_key(nodes[c].leaf_indices@[i]),
        crate::entries::collected(leaf_entries(nodes))[nodes[c].leaf_indices@[i]]
            == node_entries(nodes[c])[i].1,
    decreases nodes.len(),
{
    let before = nodes.drop_last();
    let a = leaf_entries(before);
    let own = node_entries(nodes.last());
    let key = nodes[c].leaf_indices@[i];
    if c == nodes.len() - 1 {
        let entries = a + own;
        let p = a.len() + i;
        assert(entries[p] == own[i]);
        assert forall|q: int| p < q < entries.len() implies (#[trigger] entries[q]).0
            != entries[p].0 by {
            let j = q - a.len();
            assert(entries[q] == own[j]);
            assert(nodes[c].leaf_indices@[j] != key);
        }
        assert(crate::entries::is_last_of_key(entries, p));
        crate::entries::law_last_entry_wins(entries);
    } else {
        assert forall|d: int, j: int|
            #![trigger before[d].leaf_indices@[j]]
            c <= d < before.len() && 0 <= j < before[d].leaf_indices@.len() && (c < d || i
                < j) implies before[d].leaf_indices@[j] != before[c].leaf_indices@[i] by {
            assert(nodes[d].leaf_indices@[j] != key);
        }
        lemma_leaf_holds_its_column(before, c, i);
        assert(!has_key(own, key)) by {
            assert forall|j: int| 0 <= j < own.len() implies (#[trigger] own[j]).0 != key by {
                assert(nodes[nodes.len() - 1].leaf_indices@[j] != key);
            }
        }
        lemma_other_keys_change_nothing(a, own, key);
    }
}

/// A leaf is read for the last column that has it, under the column id that stands at the
/// position of the leaf in that column, with the name and the type of the column. Every leaf of
/// a column is read, and nothing else.
pub proof fn law_leaves_hold_their_column(nodes: Seq<ColumnNode>)
    ensures
        forall|c: int, i: int|
            #![trigger nodes[c].leaf_indices@[i]]
            0 <= c < nodes.len() && 0 <= i < nodes[c].leaf_indices@.len() && (forall|
                d: int,
                j: int,
            |
                #![trigger nodes[d].leaf_indices@[j]]
                c <= d < nodes.len() && 0 <= j < nodes[d].leaf_indices@.len() && (c < d || i < j)
                    ==> nodes[d].leaf_indices@[j] != nodes[c].leaf_indices@[i]) ==> {
                let read = crate::entries::collected(leaf_entries(nodes));
                let entry = read[nodes[c].leaf_indices@[i]];
                &&& read.contains_key(nodes[c].leaf_indices@[i])
                &&& entry.0 == nodes[c].leaf_column_ids@[i]
                &&& entry.1.name == nodes[c].field.name@
                &&& entry.1.data_type == nodes[c].field.data_type@
                &&& entry.2 == nodes[c].field.data_type@
            },
        forall|index: usize| #[trigger]
            crate::entries::collected(leaf_entries(nodes)).contains_key(index) <==> exists|c: int|
                0 <= c < nodes.len() && (#[trigger] nodes[c]).leaf_indices@.contains(index),
{
    assert forall|c: int, i: int|
        #![trigger nodes[c].leaf_indices@[i]]
        0 <= c < nodes.len() && 0 <= i < nodes[c].leaf_indices@.len() && (forall|
                d: int,
                j: int,
            |
                #![trigger nodes[d].leaf_indices@[j]]
                c <= d < nodes.len() && 0 <= j < nodes[d].leaf_indices@.len() && (c < d || i < j)
                    ==> nodes[d].leaf_indices@[j] != nodes[c].leaf_indices@[i]) implies {
        let read = crate::entries::collected(leaf_entries(nodes));
        let entry = read[nodes[c].leaf_indices@[i]];
        &&& read.contains_key(nodes[c].leaf_indices@[i])
        &&& entry.0 == nodes[c].leaf_column_ids@[i]
        &&& entry.1.name == nodes[c].field.name@
        &&& entry.1.data_type == nodes[c].field.data_type@
        &&& entry.2 == nodes[c].field.data_type@
    } by {
        lemma_leaf_holds_its_column(nodes, c, i);
        assert(node_entries(nodes[c])[i].1 == (
            nodes[c].leaf_column_ids@[i],
            nodes[c].field@,
            nodes[c].field.data_type@,
        ));
    }
    law_leaves_are_read_once(nodes);
    assert forall|index: usize| #[trigger]
        crate::entries::collected(leaf_entries(nodes)).contains_key(index) <==> exists|c: int|
            0 <= c < nodes.len() && (#[trigger] nodes[c]).leaf_indices@.contains(index) by {
        assert(is_leaf(nodes, index) <==> exists|c: int|
            0 <= c < nodes.len() && (#[trigger] nodes[c]).leaf_indices@.contains(index));
    }
}

/// What a leaf is read for is told by the last column that has it: the column id at the position
/// of the leaf in that column, and the name and the type of the column.
pub proof fn law_indices_hold_their_column(
    nodes: Seq<ColumnNode>,
    indices: Map<usize, (u32, Field, DataType)>,
)
    requires
        indices_view(indices) == crate::entries::collected(leaf_entries(nodes)),
    ensures
        forall|c: int, i: int|
            #![trigger nodes[c].leaf_indices@[i]]
            0 <= c < nodes.len() && 0 <= i < nodes[c].leaf_indices@.len() && (forall|
                d: int,
                j: int,
            |
                #![trigger nodes[d].leaf_indices@[j]]
                c <= d < nodes.len() && 0 <= j < nodes[d].leaf_indices@.len() && (c < d || i < j)
                    ==> nodes[d].leaf_indices@[j] != nodes[c].leaf_indices@[i]) ==> {
                let entry = indices[nodes[c].leaf_indices@[i]];
                &&& indices.contains_key(nodes[c].leaf_indices@[i])
                &&& entry.0 == nodes[c].leaf_column_ids@[i]
                &&& entry.1.name@ == nodes[c].field.name@
                &&& entry.1.data_type@ == nodes[c].field.data_type@
                &&& entry.2@ == nodes[c].field.data_type@
            },
        forall|index: usize| #[trigger]
            indices.contains_key(index) <==> exists|c: int|
                0 <= c < nodes.len() && (#[trigger] nodes[c]).leaf_indices@.contains(index),
{
    law_leaves_hold_their_column(nodes);
    assert forall|c: int, i: int|
        #![trigger nodes[c].leaf_indices@[i]]
        0 <= c < nodes.len() && 0 <= i < nodes[c].leaf_indices@.len() && (forall|
                d: int,
                j: int,
            |
                #![trigger nodes[d].leaf_indices@[j]]
                c <= d < nodes.len() && 0 <= j < nodes[d].leaf_indices@.len() && (c < d || i < j)
                    ==> nodes[d].leaf_indices@[j] != nodes[c].leaf_indices@[i]) implies {
        let entry = indices[nodes[c].leaf_indices@[i]];
        &&& indices.contains_key(nodes[c].leaf_indices@[i])
        &&& entry.0 == nodes[c].leaf_column_ids@[i]
        &&& entry.1.name@ == nodes[c].field.name@
        &&& entry.1.data_type@ == nodes[c].field.data_type@
        &&& entry.2@ == nodes[c].field.data_type@
    } by {
        let key = nodes[c].leaf_indices@[i];
        assert(indices_view(indices).contains_key(key));
        assert(indices.contains_key(key));
        assert(indices_view(indices)[key] == (
            indices[key].0,
            indices[key].1@,
            indices[key].2@,
        ));
    }
    assert forall|index: usize| #[trigger] indices.contains_key(index) <==> exists|c: int|
        0 <= c < nodes.len() && (#[trigger] nodes[c]).leaf_indices@.contains(index) by {
        assert(indices_view(indices).contains_key(index) <==> indices.contains_key(index));
    }
}

/// There is no first failure if and only if nothing failed. The first failure is one of the
/// failures, and nothing before it failed.
pub proof fn law_first_failure_comes_first(outcomes: Seq<Result<Scalar, ErrorCode>>)
    ensures
        match first_failure(outcomes) {
            None => forall|i: int| 0 <= i < outcomes.len() ==> #[trigger] outcomes[i] is Ok,
            Some(e) => exists|i: int|
                {
                    &&& 0 <= i < outcomes.len()
                    &&& #[trigger] outcomes[i] == Err::<Scalar, ErrorCode>(e)
                    &&& forall|j: int| 0 <= j < i ==> #[trigger] outcomes[j] is Ok
                },
        },
    decreases outcomes.len(),
{
    if outcomes.len() > 0 {
        let before = outcomes.drop_last();
        law_first_failure_comes_first(before);
        match first_failure(before) {
            Some(e) => {
                let i = choose|i: int|
                    {
                        &&& 0 <= i < before.len()
                        &&& #[trigger] before[i] == Err::<Scalar, ErrorCode>(e)
                        &&& forall|j: int| 0 <= j < i ==> #[trigger] before[j] is Ok
                    };
                assert(outcomes[i] == Err::<Scalar, ErrorCode>(e));
                assert forall|j: int| 0 <= j < i implies #[trigger] outcomes[j] is Ok by {
                    assert(before[j] is Ok);
                }
            },
            None => {
                assert forall|j: int| 0 <= j < before.len() implies #[trigger] outcomes[j] is Ok by {
                    assert(before[j] is Ok);
                }
                assert(outcomes[outcomes.len() - 1] == outcomes.last());
            },
        }
    }
}

/// Where nothing failed, the values are those of the outcomes, one by one and as they are.
pub proof fn law_defaults_are_passed_on(outcomes: Seq<Result<Scalar, ErrorCode>>)
    ensures
        successes(outcomes).len() == outcomes.len(),
        forall|i: int|
            0 <= i < outcomes.len() && #[trigger] outcomes[i] is Ok ==> outcomes[i] == Ok::<
                Scalar,
                ErrorCode,
            >(successes(outcomes)[i]),
{
}

/// A reader fails with the first failure: of a default value, then of the description of the
/// files, then of the projection of the columns. Where none of these failed, there is none.
pub proof fn law_first_error_comes_first<D>(
    field_defaults: Seq<Result<Scalar, ErrorCode>>,
    parquet_schema_descriptor: Result<D, ErrorCode>,
    project_column_nodes: Result<Vec<ColumnNode>, ErrorCode>,
)
    ensures
        ({
            let error = first_error(
                field_defaults,
                parquet_schema_descriptor,
                project_column_nodes,
            );
            let no_default_failed = forall|i: int|
                0 <= i < field_defaults.len() ==> #[trigger] field_defaults[i] is Ok;
            &&& error is None <==> no_default_failed && parquet_schema_descriptor is Ok
                && project_column_nodes is Ok
            &&& !no_default_failed ==> exists|i: int|
                {
                    &&& 0 <= i < field_defaults.len()
                    &&& error is Some
                    &&& #[trigger] field_defaults[i] == Err::<Scalar, ErrorCode>(error->0)
                    &&& forall|j: int| 0 <= j < i ==> #[trigger] field_defaults[j] is Ok
                }
            &&& no_default_failed && parquet_schema_descriptor is Err ==> error == Some(
                parquet_schema_descriptor->Err_0,
            )
            &&& no_default_failed && parquet_schema_descriptor is Ok && project_column_nodes is Err
                ==> error == Some(project_column_nodes->Err_0)
        }),
{
    law_first_failure_comes_first(field_defaults);
}

/// The defaults of a reader of inner columns, by ascending key: at the position of a key stands
/// the value that the path of the key leads to among the default values of the fields.
pub proof fn law_defaults_follow_the_keys(
    vals: Seq<Scalar>,
    paths: Map<usize, Seq<usize>>,
    projected: Seq<crate::scalar::ScalarView>,
    keys: Seq<usize>,
)
    requires
        are_values_in_order(vals, paths, projected),
        forall|i: int, j: int| 0 <= i < j < keys.len() ==> keys[i] < keys[j],
        forall|key: usize| #[trigger] keys.contains(key) <==> paths.contains_key(key),
    ensures
        projected.len() == keys.len(),
        forall|i: int|
            0 <= i < keys.len() ==> crate::scalar::value_at(vals, paths[#[trigger] keys[i]])
                == Some(projected[i]),
{
    let ordered = choose|ordered: Seq<usize>|
        {
            &&& #[trigger] are_keys_in_order(ordered, paths)
            &&& projected.len() == ordered.len()
            &&& forall|i: int|
                0 <= i < ordered.len() ==> crate::scalar::value_at(
                    vals,
                    paths[#[trigger] ordered[i]],
                ) == Some(projected[i])
        };
    assert forall|key: usize| #[trigger] keys.contains(key) <==> ordered.contains(key) by {
        assert(ordered.to_set().contains(key) <==> paths.contains_key(key));
    }
    lemma_ascending_keys_are_unique(keys, ordered);
}

/// A merged read of the projected columns hands out what is stored: where there is a chunk for
/// every request, and each chunk holds the bytes of the block that its request is for, the
/// bytes of a projected leaf are those of its column, from the offset of the column on and as
/// many as it is long. A leaf is handed out if and only if it is projected and its column is
/// stored.
pub proof fn law_stored_bytes_are_handed_out(
    settings: crate::merge_io::ReadSettings,
    object: Seq<u8>,
    indices: Map<usize, (u32, Field, DataType)>,
    columns_meta: Map<u32, ColumnMeta>,
    ranges: Seq<(usize, Range<u64>)>,
    chunks: Seq<(usize, Vec<u8>)>,
    read: crate::chunks::MergeIOReadView,
    index: usize,
)
    requires
        are_stored_ranges(indices, columns_meta, ranges),
        ranges.len() <= usize::MAX,
        forall|i: int|
            0 <= i < ranges.len() ==> (#[trigger] ranges[i]).1.start <= ranges[i].1.end
                <= object.len(),
        forall|k: int|
            0 <= k < crate::merge_io::requests(settings, ranges).len() ==> {
                let request = #[trigger] crate::merge_io::requests(settings, ranges)[k];
                &&& request.end - request.start <= usize::MAX
                &&& exists|c: int| 0 <= c < chunks.len() && (#[trigger] chunks[c]).0 == k
            },
        forall|c: int|
            0 <= c < chunks.len() && (#[trigger] chunks[c]).0 < crate::merge_io::requests(
                settings,
                ranges,
            ).len() ==> chunks[c].1@ == object.subrange(
                crate::merge_io::requests(settings, ranges)[chunks[c].0 as int].start as int,
                crate::merge_io::requests(settings, ranges)[chunks[c].0 as int].end as int,
            ),
        read.chunks == crate::entries::collected(crate::chunks::chunk_entries(chunks)),
        read.columns == crate::entries::collected(
            crate::merge_io::all_placed(crate::merge_io::requests(settings, ranges), ranges),
        ),
    ensures
        read.columns.contains_key(index) <==> indices.contains_key(index)
            && columns_meta.contains_key(indices[index].0),
        read.columns.contains_key(index) ==> {
            let meta = columns_meta[indices[index].0];
            let found = read.columns[index];
            &&& read.chunks.contains_key(found.0)
            &&& found.1.start <= found.1.end <= read.chunks[found.0].len()
            &&& read.chunks[found.0].subrange(found.1.start as int, found.1.end as int)
                == object.subrange(meta.offset as int, meta.offset + meta.len)
        },
{
    law_stored_columns_are_read(indices, columns_meta, ranges);
    crate::merge_io::law_parts_are_read_back(settings, object, ranges, chunks, read);
    assert(indices.contains_key(index) && columns_meta.contains_key(indices[index].0) <==> exists|
        i: int,
    |
        0 <= i < ranges.len() && (#[trigger] ranges[i]).0 == index);
    if read.columns.contains_key(index) {
        let i = choose|i: int| 0 <= i < ranges.len() && (#[trigger] ranges[i]).0 == index;
        assert forall|j: int| i < j < ranges.len() implies (#[trigger] ranges[j]).0
            != ranges[i].0 by {}
    }
}

} // verus!
