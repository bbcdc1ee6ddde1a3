use crate::text::chars_of;
use vstd::prelude::*;

verus! {

/// The operations a scene file may list in a transformation.
#[derive(Clone, Copy, Debug, PartialEq, Eq, Structural)]
pub enum TransformationOp {
    RotateX,
    RotateY,
    RotateZ,
    Scale,
    Shear,
    Translate,
}

/// Why an entry of a transformation list is refused.
#[derive(Debug)]
pub enum TransformationError {
    /// The operator is none of the known names; holds it.
    UnknownOperator(Vec<char>),
    /// The operator got the wrong number of arguments.
    ArgumentCount { operator: Vec<char>, expected: usize, found: usize },
}

/// The mathematical value of a [`TransformationError`].
pub enum TransformationErrorView {
    UnknownOperator(Seq<char>),
    ArgumentCount { operator: Seq<char>, expected: nat, found: nat },
}

impl View for TransformationError {
    type V = TransformationErrorView;

    open spec fn view(&self) -> TransformationErrorView {
        match self {
            TransformationError::UnknownOperator(s) => TransformationErrorView::UnknownOperator(s@),
            TransformationError::ArgumentCount { operator, expected, found } =>
                TransformationErrorView::ArgumentCount {
                operator: operator@,
                expected: *expected as nat,
                found: *found as nat,
            },
        }
    }
}

/// The operation a scene file names, if any.
pub open spec fn operation_named(name: Seq<char>) -> Option<TransformationOp> {
    if name == seq!['r', 'o', 't', 'a', 't', 'e', '-', 'x'] {
        Some(TransformationOp::RotateX)
    } else if name == seq!['r', 'o', 't', 'a', 't', 'e', '-', 'y'] {
        Some(TransformationOp::RotateY)
    } else if name == seq!['r', 'o', 't', 'a', 't', 'e', '-', 'z'] {
        Some(TransformationOp::RotateZ)
    } else if name == seq!['s', 'c', 'a', 'l', 'e'] {
        Some(TransformationOp::Scale)
    } else if name == seq!['s', 'h', 'e', 'a', 'r'] {
        Some(TransformationOp::Shear)
    } else if name == seq!['t', 'r', 'a', 'n', 's', 'l', 'a', 't', 'e'] {
        Some(TransformationOp::Translate)
    } else {
        None
    }
}

/// How many numbers an operation takes: an angle for a rotation, three
/// factors or offsets for a scale or a translation, six factors for a shear.
pub open spec fn argument_count(op: TransformationOp) -> nat {
    match op {
        TransformationOp::RotateX | TransformationOp::RotateY | TransformationOp::RotateZ => 1,
        TransformationOp::Scale | TransformationOp::Translate => 3,
        TransformationOp::Shear => 6,
    }
}

/// What an entry `[name, arg, ...]` with `found` arguments means.
pub open spec fn operation_spec(name: Seq<char>, found: nat) -> Result<
    TransformationOp,
    TransformationErrorView,
> {
    match operation_named(name) {
        None => Err(TransformationErrorView::UnknownOperator(name)),
        Some(op) => if argument_count(op) == found {
            Ok(op)
        } else {
            Err(
                TransformationErrorView::ArgumentCount {
                    operator: name,
                    expected: argument_count(op),
                    found,
                },
            )
        },
    }
}

/// An entry is accepted exactly when its operator is known and it has
/// exactly that operator's number of arguments: fewer or more arguments are
/// refused, with the expected and the found count.
pub proof fn lemma_exact_argument_count(name: Seq<char>, found: nat)
    ensures
        operation_spec(name, found) matches Ok(op) ==> operation_named(name) == Some(op) && found
            == argument_count(op),
        operation_named(name) matches Some(op) ==> (found != argument_count(op) ==> operation_spec(
            name,
            found,
        ) == Err::<TransformationOp, TransformationErrorView>(
            TransformationErrorView::ArgumentCount {
                operator: name,
                expected: argument_count(op),
                found,
            },
        )),
        operation_named(name) is None ==> operation_spec(name, found) == Err::<
            TransformationOp,
            TransformationErrorView,
        >(TransformationErrorView::UnknownOperator(name)),
{
}

/// The names a scene file uses and the number of arguments each takes: an
/// angle for `rotate-x`, `rotate-y` and `rotate-z`, three numbers for `scale`
/// and `translate`, six for `shear`.
pub proof fn lemma_operator_names()
    ensures
        operation_named(seq!['r', 'o', 't', 'a', 't', 'e', '-', 'x']) == Some(TransformationOp::RotateX),
        operation_named(seq!['r', 'o', 't', 'a', 't', 'e', '-', 'y']) == Some(TransformationOp::RotateY),
        operation_named(seq!['r', 'o', 't', 'a', 't', 'e', '-', 'z']) == Some(TransformationOp::RotateZ),
        operation_named(seq!['s', 'c', 'a', 'l', 'e']) == Some(TransformationOp::Scale),
        operation_named(seq!['s', 'h', 'e', 'a', 'r']) == Some(TransformationOp::Shear),
        operation_named(seq!['t', 'r', 'a', 'n', 's', 'l', 'a', 't', 'e']) == Some(
            TransformationOp::Translate,
        ),
        argument_count(TransformationOp::RotateX) == 1,
        argument_count(TransformationOp::RotateY) == 1,
        argument_count(TransformationOp::RotateZ) == 1,
        argument_count(TransformationOp::Scale) == 3,
        argument_count(TransformationOp::Translate) == 3,
        argument_count(TransformationOp::Shear) == 6,
{
}

/// The value of a checked entry.
pub open spec fn operation_result_view(r: Result<TransformationOp, TransformationError>) -> Result<
    TransformationOp,
    TransformationErrorView,
> {
    match r {
        Ok(op) => Ok(op),
        Err(e) => Err(e@),
    }
}

/// Whether `v` spells `name`.
fn spells(v: &Vec<char>, name: &[char]) -> (r: bool)
    ensures
        r == (v@ == name@),
{
    if v.len() != name.len() {
        return false;
    }
    let mut i: usize = 0;
    while i < v.len()
        invariant
            v@.len() == name@.len(),
            i <= v@.len(),
            forall|j: int| 0 <= j < i ==> v@[j] == name@[j],
        decreases v@.len() - i,
    {
        if v[i] != name[i] {
            return false;
        }
        i = i + 1;
    }
    assert(v@ =~= name@);
    true
}

/// Checks one entry of a transformation list: the operator's name and the
/// number of arguments that follow it.
pub fn transformation_op(operator: &str, found: usize) -> (r: Result<TransformationOp, TransformationError>)
    ensures
        operation_result_view(r) == operation_spec(operator@, found as nat),
        r matches Ok(op) ==> operation_named(operator@) == Some(op) && found == argument_count(op),
        r matches Err(TransformationError::ArgumentCount { expected, found: f, .. }) ==> f == found
            && expected != found,
{
    let name = chars_of(operator);
    let rotate_x = ['r', 'o', 't', 'a', 't', 'e', '-', 'x'];
    let rotate_y = ['r', 'o', 't', 'a', 't', 'e', '-', 'y'];
    let rotate_z = ['r', 'o', 't', 'a', 't', 'e', '-', 'z'];
    let scale = ['s', 'c', 'a', 'l', 'e'];
    let shear = ['s', 'h', 'e', 'a', 'r'];
    let translate = ['t', 'r', 'a', 'n', 's', 'l', 'a', 't', 'e'];
    assert(rotate_x@ == seq!['r', 'o', 't', 'a', 't', 'e', '-', 'x']);
    assert(rotate_y@ == seq!['r', 'o', 't', 'a', 't', 'e', '-', 'y']);
    assert(rotate_z@ == seq!['r', 'o', 't', 'a', 't', 'e', '-', 'z']);
    assert(scale@ == seq!['s', 'c', 'a', 'l', 'e']);
    assert(shear@ == seq!['s', 'h', 'e', 'a', 'r']);
    assert(translate@ == seq!['t', 'r', 'a', 'n', 's', 'l', 'a', 't', 'e']);
    let (op, expected) = if spells(&name, &rotate_x) {
        (TransformationOp::RotateX, 1usize)
    } else if spells(&name, &rotate_y) {
        (TransformationOp::RotateY, 1usize)
    } else if spells(&name, &rotate_z) {
        (TransformationOp::RotateZ, 1usize)
    } else if spells(&name, &scale) {
        (TransformationOp::Scale, 3usize)
    } else if spells(&name, &shear) {
        (TransformationOp::Shear, 6usize)
    } else if spells(&name, &translate) {
        (TransformationOp::Translate, 3usize)
    } else {
        return Err(TransformationError::UnknownOperator(name));
    };
    if expected != found {
        return Err(TransformationError::ArgumentCount { operator: name, expected, found });
    }
    Ok(op)
}

} // verus!
