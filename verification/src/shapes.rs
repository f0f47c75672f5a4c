//! Data that are to fill the shape of a tensor.
use vstd::prelude::*;
use vstd::string::*;

verus! {

/// Why data do not fill a shape.
#[derive(Clone, Copy, Debug, PartialEq, Eq, Structural)]
pub enum ShapeKind {
    /// There are more data than the shape holds.
    Incompatible,
    /// There are fewer data than the shape holds.
    OutOfBounds,
    /// No array can be as large as the shape.
    Overflow,
}

impl ShapeKind {
    /// The words for it.
    pub open spec fn words(self) -> Seq<char> {
        match self {
            ShapeKind::Incompatible => "ShapeError/IncompatibleShape: incompatible shapes"@,
            ShapeKind::OutOfBounds => "ShapeError/OutOfBounds: out of bounds indexing"@,
            ShapeKind::Overflow => "ShapeError/Overflow: arithmetic overflow"@,
        }
    }
}

/// One for an empty axis, else its length.
pub open spec fn at_least_one(d: int) -> int {
    if d == 0 {
        1
    } else {
        d
    }
}

/// How many entries a shape of three axes has.
pub open spec fn volume(shape: (usize, usize, usize)) -> int {
    shape.0 * shape.1 * shape.2
}

/// How many entries it has with its empty axes left out.
pub open spec fn span(shape: (usize, usize, usize)) -> int {
    at_least_one(shape.0 as int) * at_least_one(shape.1 as int) * at_least_one(shape.2 as int)
}

/// Whether `len` entries fill `shape`, and if not, why.
pub open spec fn misfit(shape: (usize, usize, usize), len: nat) -> Option<ShapeKind> {
    if span(shape) > isize::MAX {
        Some(ShapeKind::Overflow)
    } else if volume(shape) > len {
        Some(ShapeKind::OutOfBounds)
    } else if volume(shape) != len {
        Some(ShapeKind::Incompatible)
    } else {
        None
    }
}

/// The text of a shape error, by the `Display` of `ndarray::ShapeError`: the
/// name of its kind and a phrase for it.
#[verifier::external_body]
pub(crate) fn shape_text(kind: ShapeKind) -> (r: String)
    ensures
        r@ == kind.words(),
{
    let kind = match kind {
        ShapeKind::Incompatible => ndarray::ErrorKind::IncompatibleShape,
        ShapeKind::OutOfBounds => ndarray::ErrorKind::OutOfBounds,
        ShapeKind::Overflow => ndarray::ErrorKind::Overflow,
    };
    ndarray::ShapeError::from_kind(kind).to_string()
}

/// Gives data the shape of three axes, in row-major order, by
/// `ndarray::Array3::from_shape_vec`, and hands them back in that order. It
/// succeeds exactly on as many data as the shape holds, provided that the
/// lengths of the axes that are not empty multiply to at most `isize::MAX`;
/// else it tells an overflow from too few and from too many data.
#[verifier::external_body]
pub(crate) fn fill_shape<N>(shape: (usize, usize, usize), data: Vec<N>) -> (r: Result<
    Vec<N>,
    ShapeKind,
>)
    ensures
        match r {
            Ok(v) => misfit(shape, data@.len()) is None && v@ == data@,
            Err(kind) => misfit(shape, data@.len()) == Some(kind),
        },
{
    match ndarray::Array3::from_shape_vec(shape, data) {
        Ok(array) => Ok(array.into_raw_vec_and_offset().0),
        Err(e) => match e.kind() {
            ndarray::ErrorKind::OutOfBounds => Err(ShapeKind::OutOfBounds),
            ndarray::ErrorKind::Overflow => Err(ShapeKind::Overflow),
            _ => Err(ShapeKind::Incompatible),
        },
    }
}

} // verus!
