//! Optimization levels, and which inputs take booleans.

use crate::io_type::{ElementType, IoType};
use vstd::prelude::*;

verus! {

/// How far a graph is optimized before it runs.
#[derive(Clone, Copy, Debug, PartialEq, Eq, Structural)]
pub enum OptimizationLevel {
    Disable,
    Level1,
    Level2,
    Level3,
}

/// The optimization level with a number.
pub open spec fn level_of(opt: i32) -> OptimizationLevel {
    if opt == 1 {
        OptimizationLevel::Level1
    } else if opt == 2 {
        OptimizationLevel::Level2
    } else if opt == 3 {
        OptimizationLevel::Level3
    } else {
        OptimizationLevel::Disable
    }
}

/// The optimization level with a number; every other number turns optimization off.
pub fn map_opt_level(opt: i32) -> (r: OptimizationLevel)
    ensures
        r == level_of(opt),
{
    match opt {
        1 => OptimizationLevel::Level1,
        2 => OptimizationLevel::Level2,
        3 => OptimizationLevel::Level3,
        _ => OptimizationLevel::Disable,
    }
}

/// The values in question are, in the end, booleans: those of a tensor, or those that a map
/// leads to, however many sequences and optionals they are wrapped in.
pub open spec fn is_bool_type(inp: IoType) -> bool
    decreases inp,
{
    match inp {
        IoType::Tensor { ty, .. } => ty == ElementType::Bool,
        IoType::Mapping { value, .. } => value == ElementType::Bool,
        IoType::Sequence(inner) => is_bool_type(*inner),
        IoType::Optional(inner) => is_bool_type(*inner),
    }
}

/// Whether an input takes booleans.
pub fn is_bool_input(inp: &IoType) -> (r: bool)
    ensures
        r == is_bool_type(*inp),
    decreases inp,
{
    match inp {
        IoType::Tensor { ty, .. } => *ty == ElementType::Bool,
        IoType::Mapping { value, .. } => *value == ElementType::Bool,
        IoType::Sequence(inner) => is_bool_input(inner),
        IoType::Optional(inner) => is_bool_input(inner),
    }
}

/// `inp` inside sequences and optionals, one for each of `kinds`, the first innermost: a
/// sequence where it is true, an optional where it is false.
pub open spec fn wrapped(inp: IoType, kinds: Seq<bool>) -> IoType
    decreases kinds.len(),
{
    if kinds.len() == 0 {
        inp
    } else if kinds.last() {
        IoType::Sequence(Box::new(wrapped(inp, kinds.drop_last())))
    } else {
        IoType::Optional(Box::new(wrapped(inp, kinds.drop_last())))
    }
}

/// Sequences and optionals around a type do not change whether its values are booleans.
pub proof fn law_wrapping_keeps_bool(inp: IoType, kinds: Seq<bool>)
    ensures
        is_bool_type(wrapped(inp, kinds)) == is_bool_type(inp),
    decreases kinds.len(),
{
    if kinds.len() > 0 {
        law_wrapping_keeps_bool(inp, kinds.drop_last());
    }
}

/// The levels one, two and three are those of these numbers; no other number turns
/// optimization on.
pub proof fn law_levels_have_their_numbers(opt: i32, r: OptimizationLevel)
    requires
        call_ensures(map_opt_level, (opt,), r),
    ensures
        r == OptimizationLevel::Level1 <==> opt == 1,
        r == OptimizationLevel::Level2 <==> opt == 2,
        r == OptimizationLevel::Level3 <==> opt == 3,
        r == OptimizationLevel::Disable <==> !(1 <= opt <= 3),
        r == level_of(opt),
{
}

/// A tensor takes booleans exactly where its elements are booleans, and a map exactly where
/// its values are, whatever its keys.
pub proof fn law_only_bools_are_boolean(inp: &IoType, r: bool)
    requires
        call_ensures(is_bool_input, (inp,), r),
    ensures
        r == is_bool_type(*inp),
        *inp matches IoType::Tensor { ty, .. } ==> (r <==> ty is Bool),
        *inp matches IoType::Mapping { value, .. } ==> (r <==> value is Bool),
{
}

/// A sequence or an optional takes booleans exactly where what it wraps does.
pub proof fn law_wrappers_take_what_they_wrap(
    inp: &IoType,
    inner: &IoType,
    r: bool,
    r_inner: bool,
)
    requires
        call_ensures(is_bool_input, (inp,), r),
        call_ensures(is_bool_input, (inner,), r_inner),
        *inp == IoType::Sequence(Box::new(*inner)) || *inp == IoType::Optional(Box::new(*inner)),
    ensures
        r == r_inner,
{
}

} // verus!
