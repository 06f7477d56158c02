//! A loaded model: what it takes and gives, and what becomes of a run's inputs and outputs.

use crate::error::Error;
use crate::io_type::{io_type_view, shown_type, type_text, IoType};
use crate::numeral::{numeral, usize_text};
use crate::providers::string_views;
use crate::tensor::{dtype_name, OrtexTensor};
use crate::text::same_text;
use crate::utils::{is_bool_input, is_bool_type};
use vstd::prelude::*;

verus! {

/// An input or output of a model.
#[derive(Debug)]
pub struct Outlet {
    pub name: String,
    pub dtype: IoType,
}

/// What is known of a model: its inputs and outputs, in order.
#[derive(Debug)]
pub struct OrtexModel {
    pub inputs: Vec<Outlet>,
    pub outputs: Vec<Outlet>,
}

/// `(Name, Type, Dimension)` triples describing a session's inputs or outputs.
pub type IoSpec = Vec<(String, String, Option<Vec<i64>>)>;

/// The content of a triple.
pub open spec fn triple_view(t: (String, String, Option<Vec<i64>>)) -> (
    Seq<char>,
    Seq<char>,
    Option<Seq<i64>>,
) {
    (
        t.0@,
        t.1@,
        match t.2 {
            Some(dims) => Some(dims@),
            None => None,
        },
    )
}

/// The content of an `IoSpec`.
pub open spec fn io_view(spec: IoSpec) -> Seq<(Seq<char>, Seq<char>, Option<Seq<i64>>)> {
    spec@.map_values(|t: (String, String, Option<Vec<i64>>)| triple_view(t))
}

/// The dimensions of a type: those of a tensor; other types have none.
pub open spec fn dimensions(dtype: IoType) -> Option<Seq<i64>> {
    match dtype {
        IoType::Tensor { shape, .. } => Some(shape@),
        _ => None,
    }
}

/// Name, type and dimensions of an input or output.
pub open spec fn outlet_triple(outlet: Outlet) -> (Seq<char>, Seq<char>, Option<Seq<i64>>) {
    (outlet.name@, shown_type(io_type_view(outlet.dtype)), dimensions(outlet.dtype))
}

/// Name, type and dimensions of each of some inputs or outputs.
pub open spec fn outlet_triples(outlets: Seq<Outlet>) -> Seq<
    (Seq<char>, Seq<char>, Option<Seq<i64>>),
> {
    outlets.map_values(|o: Outlet| outlet_triple(o))
}

/// Describes an input or output, given the text that shows its type.
pub fn describe_as(outlet: &Outlet, shown: String) -> (r: (String, String, Option<Vec<i64>>))
    ensures
        triple_view(r) == (outlet.name@, shown@, dimensions(outlet.dtype)),
{
    let dims = match &outlet.dtype {
        IoType::Tensor { shape, .. } => Some(shape.clone()),
        _ => None,
    };
    (outlet.name.clone(), shown, dims)
}

/// Describes inputs or outputs.
pub fn describe(outlets: &Vec<Outlet>) -> (r: IoSpec)
    ensures
        io_view(r) == outlet_triples(outlets@),
{
    let mut out: IoSpec = Vec::new();
    let mut i: usize = 0;
    while i < outlets.len()
        invariant
            i <= outlets@.len(),
            io_view(out) == outlet_triples(outlets@.take(i as int)),
        decreases outlets@.len() - i,
    {
        let ghost before = io_view(out);
        let outlet = &outlets[i];
        out.push(describe_as(outlet, type_text(&outlet.dtype)));
        assert(io_view(out) == before.push(outlet_triple(outlets@[i as int])));
        assert(outlet_triples(outlets@.take(i + 1)) == before.push(
            outlet_triple(outlets@[i as int]),
        ));
        i = i + 1;
    }
    assert(outlets@.take(outlets@.len() as int) == outlets@);
    out
}

/// Describes a model: its inputs, then its outputs, as `(Name, Type, Dimension)` triples
/// where a dimension of -1 is dynamic.
pub fn show(model: &OrtexModel) -> (r: (IoSpec, IoSpec))
    ensures
        io_view(r.0) == outlet_triples(model.inputs@),
        io_view(r.1) == outlet_triples(model.outputs@),
{
    (describe(&model.inputs), describe(&model.outputs))
}

/// Each input or output is described in its place, by its name and type; dimensions are given
/// exactly for tensors, unchanged.
pub proof fn law_each_outlet_is_described(outlets: Seq<Outlet>, i: int)
    requires
        0 <= i < outlets.len(),
    ensures
        outlet_triples(outlets).len() == outlets.len(),
        outlet_triples(outlets)[i].0 == outlets[i].name@,
        outlet_triples(outlets)[i].1 == shown_type(io_type_view(outlets[i].dtype)),
        outlet_triples(outlets)[i].2 is Some <==> outlets[i].dtype is Tensor,
        outlets[i].dtype matches IoType::Tensor { shape, .. } ==> outlet_triples(outlets)[i].2
            == Some(shape@),
{
}

/// The message for a wrong number of inputs.
pub open spec fn input_count_complaint(expected: nat, given: nat) -> Seq<char> {
    "Expected "@ + numeral(expected) + " input(s), got "@ + numeral(given)
}

/// Checks the number of inputs of a run, and says of each whether it is to be turned into
/// booleans before it is handed to the session.
pub fn run_inputs(model: &OrtexModel, given: usize) -> (r: Result<Vec<bool>, Error>)
    ensures
        match r {
            Ok(flags) => given == model.inputs@.len() && flags@ == model.inputs@.map_values(
                |o: Outlet| is_bool_type(o.dtype),
            ),
            Err(e) => given != model.inputs@.len() && e@ == input_count_complaint(
                model.inputs@.len(),
                given as nat,
            ),
        },
{
    if given != model.inputs.len() {
        return Err(
            Error::new(
                "Expected ".to_owned().concat(usize_text(model.inputs.len()).as_str()).concat(
                    " input(s), got ",
                ).concat(usize_text(given).as_str()),
            ),
        );
    }
    let mut flags: Vec<bool> = Vec::new();
    let mut i: usize = 0;
    while i < model.inputs.len()
        invariant
            i <= model.inputs@.len(),
            flags@ == model.inputs@.take(i as int).map_values(|o: Outlet| is_bool_type(o.dtype)),
        decreases model.inputs@.len() - i,
    {
        let ghost before = flags@;
        flags.push(is_bool_input(&model.inputs[i].dtype));
        assert(model.inputs@.take(i + 1).map_values(|o: Outlet| is_bool_type(o.dtype))
            == before.push(is_bool_type(model.inputs@[i as int].dtype)));
        i = i + 1;
    }
    assert(model.inputs@.take(model.inputs@.len() as int) == model.inputs@);
    Ok(flags)
}

/// The message for an output that the session did not produce.
pub open spec fn missing_output_complaint(name: Seq<char>) -> Seq<char> {
    "Expected "@ + name + " to be in the outputs, but didn't find it"@
}

/// The first position of a name.
pub open spec fn first_position(names: Seq<Seq<char>>, name: Seq<char>) -> int
    decreases names.len(),
{
    if names.len() == 0 || names[0] == name {
        0
    } else {
        1 + first_position(names.drop_first(), name)
    }
}

/// Where each wanted output stands among those produced, up to the first that is missing,
/// and the message for that one.
pub open spec fn output_positions(wanted: Seq<Seq<char>>, produced: Seq<Seq<char>>) -> (
    Seq<int>,
    Option<Seq<char>>,
)
    decreases wanted.len(),
{
    if wanted.len() == 0 {
        (Seq::empty(), None)
    } else {
        let (done, failure) = output_positions(wanted.drop_last(), produced);
        if failure is Some {
            (done, failure)
        } else if produced.contains(wanted.last()) {
            (done.push(first_position(produced, wanted.last())), None)
        } else {
            (done, Some(missing_output_complaint(wanted.last())))
        }
    }
}

/// The names of inputs or outputs.
pub open spec fn outlet_names(outlets: Seq<Outlet>) -> Seq<Seq<char>> {
    outlets.map_values(|o: Outlet| o.name@)
}

/// Which of the produced values to collect, by position and in order, and the failure to
/// report behind them.
pub struct OutputPlan {
    pub positions: Vec<usize>,
    pub failure: Option<Error>,
}

/// The first position of a name, if it occurs.
fn find_name(names: &Vec<String>, name: &str) -> (r: Option<usize>)
    ensures
        match r {
            Some(i) => string_views(names@).contains(name@) && i == first_position(
                string_views(names@),
                name@,
            ) && i < names@.len(),
            None => !string_views(names@).contains(name@),
        },
{
    let ghost all = string_views(names@);
    let mut i: usize = 0;
    assert(all.skip(0) == all);
    while i < names.len()
        invariant
            i <= names@.len(),
            all == string_views(names@),
            forall|j: int| 0 <= j < i ==> #[trigger] all[j] != name@,
            first_position(all, name@) == i + first_position(all.skip(i as int), name@),
        decreases names@.len() - i,
    {
        let ghost rest = all.skip(i as int);
        assert(rest[0] == names@[i as int]@);
        if same_text(names[i].as_str(), name) {
            assert(all[i as int] == name@);
            return Some(i);
        }
        assert(rest.drop_first() == all.skip(i + 1));
        i = i + 1;
    }
    None
}

/// A missing output is what the whole list is refused for.
proof fn lemma_missing_output_stays(wanted: Seq<Seq<char>>, produced: Seq<Seq<char>>, k: int)
    requires
        0 <= k <= wanted.len(),
        output_positions(wanted.take(k), produced).1 is Some,
    ensures
        output_positions(wanted, produced) == output_positions(wanted.take(k), produced),
    decreases wanted.len() - k,
{
    if k == wanted.len() {
        assert(wanted.take(k) == wanted);
    } else {
        assert(wanted.take(k + 1).drop_last() == wanted.take(k));
        lemma_missing_output_stays(wanted, produced, k + 1);
    }
}

/// The content of a plan for a run's outputs.
pub open spec fn output_plan_view(plan: OutputPlan) -> (Seq<int>, Option<Seq<char>>) {
    (
        plan.positions@.map_values(|i: usize| i as int),
        match plan.failure {
            Some(e) => Some(e@),
            None => None,
        },
    )
}

/// Plans how a run's outputs are collected: in the order in which the model declares them,
/// whatever the order in which they were produced.
///
/// An output without a name can only stand behind one that is missing.
pub fn run_outputs(model: &OrtexModel, produced: &Vec<String>) -> (r: OutputPlan)
    requires
        forall|i: int|
            0 <= i < model.outputs@.len() && (#[trigger] model.outputs@[i]).name@.len() == 0
                ==> output_positions(
                outlet_names(model.outputs@).take(i),
                string_views(produced@),
            ).1 is Some,
    ensures
        output_plan_view(r) == output_positions(
            outlet_names(model.outputs@),
            string_views(produced@),
        ),
{
    let ghost wanted = outlet_names(model.outputs@);
    let ghost given = string_views(produced@);
    let mut positions: Vec<usize> = Vec::new();
    let mut i: usize = 0;
    assert(positions@.map_values(|i: usize| i as int) == Seq::<int>::empty());
    assert(wanted.take(0) == Seq::<Seq<char>>::empty());
    while i < model.outputs.len()
        invariant
            i <= model.outputs@.len(),
            wanted == outlet_names(model.outputs@),
            given == string_views(produced@),
            output_positions(wanted.take(i as int), given) == (
                positions@.map_values(|i: usize| i as int),
                None::<Seq<char>>,
            ),
        decreases model.outputs@.len() - i,
    {
        let ghost before = positions@.map_values(|i: usize| i as int);
        let name = model.outputs[i].name.as_str();
        assert(wanted.take(i + 1).drop_last() == wanted.take(i as int));
        assert(wanted.take(i + 1).last() == name@);
        match find_name(produced, name) {
            Some(at) => {
                positions.push(at);
                assert(positions@.map_values(|i: usize| i as int) == before.push(at as int));
            },
            None => {
                proof {
                    lemma_missing_output_stays(wanted, given, i + 1);
                }
                return OutputPlan {
                    positions,
                    failure: Some(
                        Error::new(
                            "Expected ".to_owned().concat(name).concat(
                                " to be in the outputs, but didn't find it",
                            ),
                        ),
                    ),
                };
            },
        }
        i = i + 1;
    }
    assert(wanted.take(wanted.len() as int) == wanted);
    OutputPlan { positions, failure: None }
}

/// A collected output: the tensor with its shape, the family of its element type and the
/// size of an element in bits.
pub fn collect_output(tensor: OrtexTensor) -> (r: (OrtexTensor, Vec<usize>, String, usize))
    ensures
        r.0 == tensor,
        r.1@ == tensor@.shape,
        (r.2@, r.3) == dtype_name(tensor@.dtype),
{
    let shape = tensor.shape();
    let (dtype, bits) = tensor.dtype();
    (tensor, shape, dtype, bits)
}

/// The first position of a name that occurs is a position where it stands.
proof fn lemma_first_position(names: Seq<Seq<char>>, name: Seq<char>)
    requires
        names.contains(name),
    ensures
        0 <= first_position(names, name) < names.len(),
        names[first_position(names, name)] == name,
    decreases names.len(),
{
    if names[0] != name {
        let rest = names.drop_first();
        let i = choose|i: int| 0 <= i < names.len() && names[i] == name;
        assert(rest[i - 1] == name);
        lemma_first_position(rest, name);
    }
}

/// Each position points at the value with the name that is wanted in its place, and where
/// nothing is missing there is one for each wanted name.
pub proof fn law_outputs_come_in_declared_order(
    wanted: Seq<Seq<char>>,
    produced: Seq<Seq<char>>,
)
    ensures
        ({
            let (positions, failure) = output_positions(wanted, produced);
            &&& positions.len() <= wanted.len()
            &&& failure is None ==> positions.len() == wanted.len()
            &&& forall|i: int|
                0 <= i < positions.len() ==> 0 <= #[trigger] positions[i] < produced.len()
                    && produced[positions[i]] == wanted[i]
        }),
    decreases wanted.len(),
{
    if wanted.len() > 0 {
        law_outputs_come_in_declared_order(wanted.drop_last(), produced);
        if produced.contains(wanted.last()) {
            lemma_first_position(produced, wanted.last());
        }
    }
}

/// Collecting the outputs fails exactly where a wanted one was not produced.
pub proof fn law_missing_outputs_are_reported(wanted: Seq<Seq<char>>, produced: Seq<Seq<char>>)
    ensures
        output_positions(wanted, produced).1 is Some <==> exists|i: int|
            0 <= i < wanted.len() && !produced.contains(#[trigger] wanted[i]),
    decreases wanted.len(),
{
    if wanted.len() > 0 {
        let front = wanted.drop_last();
        law_missing_outputs_are_reported(front, produced);
        assert forall|i: int| 0 <= i < front.len() implies #[trigger] front[i] == wanted[i] by {}
        assert(wanted.last() == wanted[wanted.len() - 1]);
        if output_positions(front, produced).1 is Some {
            let i = choose|i: int| 0 <= i < front.len() && !produced.contains(#[trigger] front[i]);
            assert(wanted[i] == front[i]);
        }
        if exists|i: int| 0 <= i < wanted.len() && !produced.contains(#[trigger] wanted[i]) {
            let i = choose|i: int| 0 <= i < wanted.len() && !produced.contains(#[trigger] wanted[i]);
            if i < front.len() {
                assert(front[i] == wanted[i]);
            }
        }
    }
}

/// Inputs or outputs are described one for one and in order: by name, by type, and by the
/// dimensions of a tensor; what is no tensor has no dimensions.
pub proof fn law_descriptions_match_outlets(outlets: &Vec<Outlet>, r: IoSpec)
    requires
        call_ensures(describe, (outlets,), r),
    ensures
        r@.len() == outlets@.len(),
        forall|i: int|
            0 <= i < outlets@.len() ==> {
                let shown = #[trigger] r@[i];
                let outlet = outlets@[i];
                &&& shown.0@ == outlet.name@
                &&& shown.1@ == shown_type(io_type_view(outlet.dtype))
                &&& match outlet.dtype {
                    IoType::Tensor { shape, .. } => shown.2 is Some && shown.2->0@ == shape@,
                    _ => shown.2 is None,
                }
            },
{
    lemma_described(outlets@, r);
}

/// What a description with the right content says of each input or output.
proof fn lemma_described(outlets: Seq<Outlet>, r: IoSpec)
    requires
        io_view(r) == outlet_triples(outlets),
    ensures
        r@.len() == outlets.len(),
        forall|i: int|
            0 <= i < outlets.len() ==> {
                let shown = #[trigger] r@[i];
                let outlet = outlets[i];
                &&& shown.0@ == outlet.name@
                &&& shown.1@ == shown_type(io_type_view(outlet.dtype))
                &&& match outlet.dtype {
                    IoType::Tensor { shape, .. } => shown.2 is Some && shown.2->0@ == shape@,
                    _ => shown.2 is None,
                }
            },
{
    assert(io_view(r).len() == r@.len());
    assert forall|i: int| 0 <= i < outlets.len() implies ({
        let shown = #[trigger] r@[i];
        let outlet = outlets[i];
        &&& shown.0@ == outlet.name@
        &&& shown.1@ == shown_type(io_type_view(outlet.dtype))
        &&& match outlet.dtype {
            IoType::Tensor { shape, .. } => shown.2 is Some && shown.2->0@ == shape@,
            _ => shown.2 is None,
        }
    }) by {
        assert(io_view(r)[i] == triple_view(r@[i]));
        assert(outlet_triples(outlets)[i] == outlet_triple(outlets[i]));
    }
}

/// A model is shown by its inputs first and its outputs second, each described in order by
/// name, type and the dimensions of a tensor.
pub proof fn law_inputs_and_outputs_are_shown(model: &OrtexModel, r: (IoSpec, IoSpec))
    requires
        call_ensures(show, (model,), r),
    ensures
        r.0@.len() == model.inputs@.len(),
        forall|i: int|
            0 <= i < model.inputs@.len() ==> {
                let shown = #[trigger] r.0@[i];
                let outlet = model.inputs@[i];
                &&& shown.0@ == outlet.name@
                &&& shown.1@ == shown_type(io_type_view(outlet.dtype))
                &&& match outlet.dtype {
                    IoType::Tensor { shape, .. } => shown.2 is Some && shown.2->0@ == shape@,
                    _ => shown.2 is None,
                }
            },
        r.1@.len() == model.outputs@.len(),
        forall|i: int|
            0 <= i < model.outputs@.len() ==> {
                let shown = #[trigger] r.1@[i];
                let outlet = model.outputs@[i];
                &&& shown.0@ == outlet.name@
                &&& shown.1@ == shown_type(io_type_view(outlet.dtype))
                &&& match outlet.dtype {
                    IoType::Tensor { shape, .. } => shown.2 is Some && shown.2->0@ == shape@,
                    _ => shown.2 is None,
                }
            },
{
    lemma_described(model.inputs@, r.0);
    lemma_described(model.outputs@, r.1);
}

/// A description takes the name and the dimensions from the input or output and the type text
/// as it is given.
pub proof fn law_description_takes_the_given_text(
    outlet: &Outlet,
    shown: String,
    r: (String, String, Option<Vec<i64>>),
)
    requires
        call_ensures(describe_as, (outlet, shown), r),
    ensures
        r.0@ == outlet.name@,
        r.1@ == shown@,
        match outlet.dtype {
            IoType::Tensor { shape, .. } => r.2 is Some && r.2->0@ == shape@,
            _ => r.2 is None,
        },
{
    assert(triple_view(r).2 == dimensions(outlet.dtype));
}

/// A run goes on exactly where there are as many inputs as the model has, and is refused with
/// both numbers otherwise. An input is turned into booleans where it is a tensor of booleans
/// or a map to booleans, or wraps such; no other tensor or map is.
pub proof fn law_inputs_are_counted_and_booleans_marked(
    model: &OrtexModel,
    given: usize,
    r: Result<Vec<bool>, Error>,
)
    requires
        call_ensures(run_inputs, (model, given), r),
    ensures
        r is Ok <==> given == model.inputs@.len(),
        r matches Ok(flags) ==> flags@.len() == model.inputs@.len() && forall|i: int|
            0 <= i < flags@.len() ==> {
                let flag = #[trigger] flags@[i];
                match model.inputs@[i].dtype {
                    IoType::Tensor { ty, .. } => flag <==> ty is Bool,
                    IoType::Mapping { value, .. } => flag <==> value is Bool,
                    IoType::Sequence(inner) => flag == is_bool_type(*inner),
                    IoType::Optional(inner) => flag == is_bool_type(*inner),
                }
            },
        r matches Err(e) ==> e.message@ == "Expected "@ + numeral(model.inputs@.len())
            + " input(s), got "@ + numeral(given as nat),
{
    if let Ok(flags) = r {
        assert forall|i: int| 0 <= i < flags@.len() implies #[trigger] flags@[i] == is_bool_type(
            model.inputs@[i].dtype,
        ) by {}
    }
}

/// The flag of an input is what the input's type on its own is found to be.
pub proof fn law_flags_agree_with_types(
    model: &OrtexModel,
    given: usize,
    flags: Vec<bool>,
    i: int,
    dtype: &IoType,
    r: bool,
)
    requires
        call_ensures(run_inputs, (model, given), Ok(flags)),
        0 <= i < model.inputs@.len(),
        *dtype == model.inputs@[i].dtype,
        call_ensures(is_bool_input, (dtype,), r),
    ensures
        flags@[i] == r,
{
}

/// The first position of a name has no such name before it.
proof fn lemma_first_position_is_first(names: Seq<Seq<char>>, name: Seq<char>, j: int)
    requires
        names.contains(name),
        0 <= j < first_position(names, name),
    ensures
        j < names.len(),
        names[j] != name,
    decreases names.len(),
{
    lemma_first_position(names, name);
    if names[0] != name && j > 0 {
        let rest = names.drop_first();
        let i = choose|i: int| 0 <= i < names.len() && names[i] == name;
        assert(rest[i - 1] == name);
        lemma_first_position_is_first(rest, name, j - 1);
    }
}

/// How far outputs are found, and what is said of the first that is missing.
proof fn lemma_output_positions(wanted: Seq<Seq<char>>, produced: Seq<Seq<char>>)
    ensures
        ({
            let (positions, failure) = output_positions(wanted, produced);
            &&& positions.len() <= wanted.len()
            &&& forall|k: int|
                0 <= k < positions.len() ==> #[trigger] positions[k] == first_position(
                    produced,
                    wanted[k],
                )
            &&& forall|k: int|
                0 <= k < positions.len() ==> produced.contains(#[trigger] wanted[k])
            &&& match failure {
                None => positions.len() == wanted.len(),
                Some(message) => {
                    &&& positions.len() < wanted.len()
                    &&& !produced.contains(wanted[positions.len() as int])
                    &&& message == missing_output_complaint(wanted[positions.len() as int])
                },
            }
        }),
    decreases wanted.len(),
{
    if wanted.len() > 0 {
        let front = wanted.drop_last();
        lemma_output_positions(front, produced);
        let (positions, _) = output_positions(wanted, produced);
        assert forall|k: int| 0 <= k < positions.len() implies produced.contains(
            #[trigger] wanted[k],
        ) by {
            if k < front.len() {
                assert(produced.contains(front[k]));
            }
        }
    }
}

/// The outputs are collected in the order in which the model declares them: each from the
/// first value that was produced under its name. The first one that was not produced ends the
/// collection and is reported by name; nothing else is reported.
pub proof fn law_outputs_are_collected_by_name(
    model: &OrtexModel,
    produced: &Vec<String>,
    r: OutputPlan,
)
    requires
        call_ensures(run_outputs, (model, produced), r),
    ensures
        ({
            let outputs = model.outputs@;
            let n = r.positions@.len() as int;
            &&& n <= outputs.len()
            &&& forall|k: int|
                0 <= k < n ==> {
                    let at = (#[trigger] r.positions@[k]) as int;
                    &&& at < produced@.len()
                    &&& produced@[at]@ == outputs[k].name@
                    &&& forall|j: int|
                        0 <= j < at ==> (#[trigger] produced@[j])@ != outputs[k].name@
                }
            &&& match r.failure {
                None => n == outputs.len(),
                Some(e) => {
                    &&& n < outputs.len()
                    &&& forall|j: int|
                        0 <= j < produced@.len() ==> (#[trigger] produced@[j])@ != outputs[n].name@
                    &&& e.message@ == "Expected "@ + outputs[n].name@
                        + " to be in the outputs, but didn't find it"@
                },
            }
        }),
{
    let wanted = outlet_names(model.outputs@);
    let given = string_views(produced@);
    lemma_output_positions(wanted, given);
    let (positions, failure) = output_positions(wanted, given);
    let wide = r.positions@.map_values(|i: usize| i as int);
    assert(wide == positions);
    assert(wide.len() == r.positions@.len());
    let n = r.positions@.len() as int;
    assert forall|k: int| 0 <= k < wanted.len() implies #[trigger] wanted[k]
        == model.outputs@[k].name@ by {}
    assert forall|j: int| 0 <= j < given.len() implies #[trigger] given[j] == produced@[j]@ by {}
    assert forall|k: int| 0 <= k < n implies ({
        let at = (#[trigger] r.positions@[k]) as int;
        &&& at < produced@.len()
        &&& produced@[at]@ == model.outputs@[k].name@
        &&& forall|j: int| 0 <= j < at ==> (#[trigger] produced@[j])@ != model.outputs@[k].name@
    }) by {
        let at = r.positions@[k] as int;
        assert(wide[k] == at);
        assert(positions[k] == first_position(given, wanted[k]));
        lemma_first_position(given, wanted[k]);
        assert forall|j: int| 0 <= j < at implies (#[trigger] produced@[j])@
            != model.outputs@[k].name@ by {
            lemma_first_position_is_first(given, wanted[k], j);
            assert(given[j] == produced@[j]@);
        }
    }
    if r.failure is Some {
        assert forall|j: int| 0 <= j < produced@.len() implies (#[trigger] produced@[j])@
            != model.outputs@[n].name@ by {
            assert(given[j] == produced@[j]@);
            assert(!given.contains(wanted[n]));
        }
    }
}

} // verus!
