//! Default values of fields, and of fields within fields.

use vstd::prelude::*;
use vstd::slice::slice_subrange;
use vstd::string::StringExecFns;

use crate::errors::ErrorCode;

verus! {

/// A single value. The values of a tuple are those of its fields.
#[derive(Debug, PartialEq, Eq)]
pub enum Scalar {
    Null,
    Boolean(bool),
    Int(i64),
    UInt(u64),
    /// The bits of a floating-point number.
    Float(u64),
    Decimal(i128),
    Timestamp(i64),
    Date(i32),
    String(Vec<u8>),
    Variant(Vec<u8>),
    Array(Vec<Scalar>),
    Tuple(Vec<Scalar>),
}

/// What a `Scalar` stands for.
#[verifier::ext_equal]
pub enum ScalarView {
    Null,
    Boolean(bool),
    Int(i64),
    UInt(u64),
    Float(u64),
    Decimal(i128),
    Timestamp(i64),
    Date(i32),
    String(Seq<u8>),
    Variant(Seq<u8>),
    Array(Seq<ScalarView>),
    Tuple(Seq<ScalarView>),
}

/// What the scalars of a list stand for.
pub open spec fn scalar_views(scalars: Seq<Scalar>) -> Seq<ScalarView>
    decreases scalars,
{
    Seq::new(
        scalars.len(),
        |i: int|
            if 0 <= i < scalars.len() {
                scalar_view(scalars[i])
            } else {
                ScalarView::Null
            },
    )
}

/// What a scalar stands for.
pub open spec fn scalar_view(scalar: Scalar) -> ScalarView
    decreases scalar,
{
    match scalar {
        Scalar::Null => ScalarView::Null,
        Scalar::Boolean(b) => ScalarView::Boolean(b),
        Scalar::Int(n) => ScalarView::Int(n),
        Scalar::UInt(n) => ScalarView::UInt(n),
        Scalar::Float(n) => ScalarView::Float(n),
        Scalar::Decimal(n) => ScalarView::Decimal(n),
        Scalar::Timestamp(n) => ScalarView::Timestamp(n),
        Scalar::Date(n) => ScalarView::Date(n),
        Scalar::String(s) => ScalarView::String(s@),
        Scalar::Variant(s) => ScalarView::Variant(s@),
        Scalar::Array(v) => ScalarView::Array(scalar_views(v@)),
        Scalar::Tuple(v) => ScalarView::Tuple(scalar_views(v@)),
    }
}

impl View for Scalar {
    type V = ScalarView;

    open spec fn view(&self) -> ScalarView {
        scalar_view(*self)
    }
}

fn clone_bytes(bytes: &Vec<u8>) -> (out: Vec<u8>)
    ensures
        out@ == bytes@,
{
    bytes.clone()
}

/// A copy of a list of scalars.
pub fn clone_scalars(scalars: &Vec<Scalar>) -> (out: Vec<Scalar>)
    ensures
        scalar_views(out@) == scalar_views(scalars@),
        out@.len() == scalars@.len(),
        forall|i: int| 0 <= i < scalars@.len() ==> (#[trigger] out@[i])@ == scalars@[i]@,
    decreases scalars,
{
    let mut out: Vec<Scalar> = Vec::with_capacity(scalars.len());
    let mut i: usize = 0;
    while i < scalars.len()
        invariant
            i <= scalars.len(),
            scalar_views(out@) == scalar_views(scalars@).take(i as int),
        decreases scalars.len() - i,
    {
        let ghost before: Seq<Scalar> = out@;
        let next: Scalar = clone_scalar(&scalars[i]);
        out.push(next);
        assert(scalar_views(out@) =~= scalar_views(before).push(next@));
        i += 1;
    }
    assert(scalar_views(scalars@).take(i as int) =~= scalar_views(scalars@));
    proof {
        lemma_views_are_elementwise(out@, scalars@);
    }
    out
}

fn clone_scalar(scalar: &Scalar) -> (out: Scalar)
    ensures
        out@ == scalar@,
    decreases scalar,
{
    match scalar {
        Scalar::Null => Scalar::Null,
        Scalar::Boolean(b) => Scalar::Boolean(*b),
        Scalar::Int(n) => Scalar::Int(*n),
        Scalar::UInt(n) => Scalar::UInt(*n),
        Scalar::Float(n) => Scalar::Float(*n),
        Scalar::Decimal(n) => Scalar::Decimal(*n),
        Scalar::Timestamp(n) => Scalar::Timestamp(*n),
        Scalar::Date(n) => Scalar::Date(*n),
        Scalar::String(s) => Scalar::String(clone_bytes(s)),
        Scalar::Variant(s) => Scalar::Variant(clone_bytes(s)),
        Scalar::Array(v) => Scalar::Array(clone_scalars(v)),
        Scalar::Tuple(v) => Scalar::Tuple(clone_scalars(v)),
    }
}

impl Clone for Scalar {
    fn clone(&self) -> (out: Self)
        ensures
            out@ == self@,
    {
        clone_scalar(self)
    }
}

/// Every step of the path names a value that is there, as far as the path leads through
/// tuples.
pub open spec fn is_path_in_bounds(vals: Seq<Scalar>, path: Seq<usize>) -> bool
    decreases path.len(),
{
    path.len() > 0 ==> {
        &&& path[0] < vals.len()
        &&& path.len() > 1 ==> match vals[path[0] as int] {
            Scalar::Tuple(inner) => is_path_in_bounds(inner@, path.skip(1)),
            _ => true,
        }
    }
}

/// The value that the path leads to: its first step picks one of `vals`, each further step a
/// value of the tuple before it. There is none for the empty path, and none where a step
/// goes into a value that is no tuple.
pub open spec fn value_at(vals: Seq<Scalar>, path: Seq<usize>) -> Option<ScalarView>
    decreases path.len(),
{
    if path.len() == 0 {
        None
    } else if path.len() == 1 {
        Some(vals[path[0] as int]@)
    } else {
        match vals[path[0] as int] {
            Scalar::Tuple(inner) => value_at(inner@, path.skip(1)),
            _ => None,
        }
    }
}

/// The default value that `paths` leads to among the default values of the fields.
pub fn inner_project_field_default_values(default_vals: &[Scalar], paths: &[usize]) -> (r: Result<
    Scalar,
    ErrorCode,
>)
    requires
        is_path_in_bounds(default_vals@, paths@),
    ensures
        match r {
            Ok(val) => value_at(default_vals@, paths@) == Some(val@),
            Err(ErrorCode::BadArguments(message)) => {
                &&& value_at(default_vals@, paths@) is None
                &&& message@ == if paths@.len() == 0 {
                    "path should not be empty"@
                } else {
                    "Unable to get field default value by paths"@
                }
            },
            Err(_) => false,
        },
    decreases paths@.len(),
{
    if paths.is_empty() {
        return Err(ErrorCode::BadArguments(String::from_str("path should not be empty")));
    }
    let index: usize = paths[0];
    if paths.len() == 1 {
        return Ok(default_vals[index].clone());
    }
    match &default_vals[index] {
        Scalar::Tuple(s) => inner_project_field_default_values(
            s.as_slice(),
            slice_subrange(paths, 1, paths.len()),
        ),
        _ => Err(
            ErrorCode::BadArguments(
                String::from_str("Unable to get field default value by paths"),
            ),
        ),
    }
}

/// Whether `path` leads to one of the default values, or to a value within them.
pub fn leads_to_value(default_vals: &[Scalar], path: &[usize]) -> (leads: bool)
    ensures
        leads == (is_path_in_bounds(default_vals@, path@) && value_at(
            default_vals@,
            path@,
        ) is Some),
    decreases path@.len(),
{
    if path.is_empty() || path[0] >= default_vals.len() {
        return false;
    }
    if path.len() == 1 {
        return true;
    }
    match &default_vals[path[0]] {
        Scalar::Tuple(inner) => leads_to_value(
            inner.as_slice(),
            slice_subrange(path, 1, path.len()),
        ),
        _ => false,
    }
}

/// One more step of a path picks a value of the tuple that the path leads to, and leads
/// nowhere from a value that is no tuple.
pub proof fn law_path_leads_through_tuples(vals: Seq<Scalar>, path: Seq<usize>, step: usize)
    requires
        path.len() > 0,
        is_path_in_bounds(vals, path.push(step)),
    ensures
        value_at(vals, path.push(step)) == match value_at(vals, path) {
            Some(ScalarView::Tuple(inner)) => Some(inner[step as int]),
            _ => None,
        },
    decreases path.len(),
{
    let longer = path.push(step);
    if path.len() == 1 {
        if let Scalar::Tuple(inner) = vals[path[0] as int] {
            assert(longer.skip(1) == seq![step]);
            assert(is_path_in_bounds(inner@, longer.skip(1)));
            assert(value_at(inner@, longer.skip(1)) == Some(inner@[step as int]@));
        }
    } else {
        if let Scalar::Tuple(inner) = vals[path[0] as int] {
            assert(longer.skip(1) == path.skip(1).push(step));
            law_path_leads_through_tuples(inner@, path.skip(1), step);
        }
    }
}

/// Two scalars that stand for the same are the same value, down to every byte and every field:
/// a copy loses nothing.
pub proof fn law_scalars_are_told_apart(a: Scalar, b: Scalar)
    requires
        a@ == b@,
    ensures
        match (a, b) {
            (Scalar::Null, Scalar::Null) => true,
            (Scalar::Boolean(m), Scalar::Boolean(n)) => m == n,
            (Scalar::Int(m), Scalar::Int(n)) => m == n,
            (Scalar::UInt(m), Scalar::UInt(n)) => m == n,
            (Scalar::Float(m), Scalar::Float(n)) => m == n,
            (Scalar::Decimal(m), Scalar::Decimal(n)) => m == n,
            (Scalar::Timestamp(m), Scalar::Timestamp(n)) => m == n,
            (Scalar::Date(m), Scalar::Date(n)) => m == n,
            (Scalar::String(m), Scalar::String(n)) => m@ == n@,
            (Scalar::Variant(m), Scalar::Variant(n)) => m@ == n@,
            (Scalar::Array(m), Scalar::Array(n)) => m@.len() == n@.len() && forall|i: int|
                0 <= i < m@.len() ==> (#[trigger] m@[i])@ == n@[i]@,
            (Scalar::Tuple(m), Scalar::Tuple(n)) => m@.len() == n@.len() && forall|i: int|
                0 <= i < m@.len() ==> (#[trigger] m@[i])@ == n@[i]@,
            _ => false,
        },
{
    match (a, b) {
        (Scalar::Array(m), Scalar::Array(n)) => lemma_views_are_elementwise(m@, n@),
        (Scalar::Tuple(m), Scalar::Tuple(n)) => lemma_views_are_elementwise(m@, n@),
        _ => {},
    }
}

proof fn lemma_views_are_elementwise(a: Seq<Scalar>, b: Seq<Scalar>)
    requires
        scalar_views(a) == scalar_views(b),
    ensures
        a.len() == b.len(),
        forall|i: int| 0 <= i < a.len() ==> (#[trigger] a[i])@ == b[i]@,
{
    assert(scalar_views(a).len() == a.len() && scalar_views(b).len() == b.len());
    assert forall|i: int| 0 <= i < a.len() implies (#[trigger] a[i])@ == b[i]@ by {
        assert(scalar_views(a)[i] == a[i]@ && scalar_views(b)[i] == b[i]@);
    }
}

/// A list of scalars stands for what its scalars stand for, one by one.
pub proof fn law_lists_are_taken_one_by_one(scalars: Seq<Scalar>)
    ensures
        scalar_views(scalars).len() == scalars.len(),
        forall|i: int|
            0 <= i < scalars.len() ==> scalar_views(scalars)[i] == (#[trigger] scalars[i])@,
{
}

/// Following a path step by step: `levels` are the lists that its steps pick from, the first
/// the default values themselves, each further one the fields of the tuple picked before.
/// Where the last of these lists does not have what its step picks, the path is out of bounds.
/// Where the path ends there, the value picked there is the one that the path leads to. Where
/// the path goes on but that value is no tuple, it leads nowhere.
pub proof fn law_path_is_followed_step_by_step(
    vals: Seq<Scalar>,
    path: Seq<usize>,
    levels: Seq<Seq<Scalar>>,
)
    requires
        0 < levels.len() <= path.len(),
        levels[0] == vals,
        forall|k: int|
            0 <= k < levels.len() - 1 ==> {
                &&& (#[trigger] path[k]) < levels[k].len()
                &&& levels[k][path[k] as int] is Tuple
                &&& levels[k][path[k] as int]->Tuple_0@ =~= levels[k + 1]
            },
    ensures
        ({
            let step = path[levels.len() - 1];
            &&& step >= levels.last().len() ==> !is_path_in_bounds(vals, path)
            &&& step < levels.last().len() && levels.len() == path.len() ==> {
                &&& is_path_in_bounds(vals, path)
                &&& value_at(vals, path) == Some(levels.last()[step as int]@)
            }
            &&& step < levels.last().len() && levels.len() < path.len() && !(
            levels.last()[step as int] is Tuple) ==> {
                &&& is_path_in_bounds(vals, path)
                &&& value_at(vals, path) is None
            }
        }),
    decreases path.len(),
{
    if levels.len() > 1 {
        let rest = levels.skip(1);
        let path_rest = path.skip(1);
        assert(levels[0][path[0] as int]->Tuple_0@ =~= rest[0]);
        assert forall|k: int| 0 <= k < rest.len() - 1 implies {
            &&& (#[trigger] path_rest[k]) < rest[k].len()
            &&& rest[k][path_rest[k] as int] is Tuple
            &&& rest[k][path_rest[k] as int]->Tuple_0@ =~= rest[k + 1]
        } by {
            assert(path_rest[k] == path[k + 1]);
        }
        law_path_is_followed_step_by_step(rest[0], path_rest, rest);
        assert(rest.last() == levels.last());
        assert(path_rest[rest.len() - 1] == path[levels.len() - 1]);
    }
}

/// The empty path leads nowhere, and is not out of bounds.
pub proof fn law_empty_path_leads_nowhere(vals: Seq<Scalar>)
    ensures
        is_path_in_bounds(vals, Seq::empty()),
        value_at(vals, Seq::empty()) is None,
{
}

} // verus!
