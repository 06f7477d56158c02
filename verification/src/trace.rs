//! Where diagnostics go.

use crate::options::{
    first_value, law_lookup_finds_first, law_lookup_misses_absent, lookup, pairs,
};
use crate::text::optional_view;
use vstd::prelude::*;

verus! {

/// The trace file: the option `trace_path`, or else the value of the environment variable
/// `ORTEX_TRACE`, where that is set.
pub open spec fn trace_destination(
    opts: Seq<(Seq<char>, Seq<char>)>,
    env_trace: Option<Seq<char>>,
) -> Option<Seq<char>> {
    match first_value(opts, "trace_path"@) {
        Some(path) => Some(path),
        None => env_trace,
    }
}

/// Whether a trace was asked for. `env_trace` is the value of `ORTEX_TRACE`.
pub fn tracing_requested(qnn_opts: &[(String, String)], env_trace: &Option<String>) -> (r: bool)
    ensures
        r == (first_value(pairs(qnn_opts@), "trace_path"@) is Some || env_trace is Some),
{
    lookup(qnn_opts, "trace_path").is_some() || env_trace.is_some()
}

/// The file that diagnostics are to be written to, or `None` where none are wanted.
/// `env_trace` is the value of `ORTEX_TRACE`.
pub fn init_tracing(qnn_opts: &[(String, String)], env_trace: &Option<String>) -> (r: Option<
    String,
>)
    ensures
        optional_view(r) == trace_destination(pairs(qnn_opts@), optional_view(*env_trace)),
{
    match lookup(qnn_opts, "trace_path") {
        Some(path) => Some(path),
        None => match env_trace {
            Some(path) => Some(path.clone()),
            None => None,
        },
    }
}

/// The message for a trace file that cannot be opened.
pub fn trace_open_failure(path: &str, reason: &str) -> (r: String)
    ensures
        r@ == "ortex: could not open trace file "@ + path@ + ": "@ + reason@,
{
    "ortex: could not open trace file ".to_owned().concat(path).concat(": ").concat(reason)
}

/// A trace is asked for exactly where there is a file to write it to.
pub proof fn law_requested_iff_destination(
    opts: Seq<(Seq<char>, Seq<char>)>,
    env_trace: Option<Seq<char>>,
)
    ensures
        trace_destination(opts, env_trace) is Some <==> (first_value(opts, "trace_path"@) is Some
            || env_trace is Some),
{
}

/// The option takes precedence over the environment variable.
pub proof fn law_option_outranks_environment(
    opts: Seq<(Seq<char>, Seq<char>)>,
    env_trace: Option<Seq<char>>,
)
    requires
        first_value(opts, "trace_path"@) is Some,
    ensures
        trace_destination(opts, env_trace) == first_value(opts, "trace_path"@),
        trace_destination(opts, env_trace) == trace_destination(opts, None),
{
}

/// Diagnostics go to the value of the first option `trace_path`; without that option they go
/// where the environment says, or nowhere.
pub proof fn law_trace_goes_where_it_is_asked(
    qnn_opts: &[(String, String)],
    env_trace: &Option<String>,
    r: Option<String>,
)
    requires
        call_ensures(init_tracing, (qnn_opts, env_trace), r),
    ensures
        forall|i: int|
            0 <= i < qnn_opts@.len() && (#[trigger] qnn_opts@[i]).0@ == "trace_path"@ && (forall|
                j: int,
            |
                0 <= j < i ==> (#[trigger] qnn_opts@[j]).0@ != "trace_path"@) ==> r is Some && r->0@
                == qnn_opts@[i].1@,
        (forall|j: int| 0 <= j < qnn_opts@.len() ==> (#[trigger] qnn_opts@[j]).0@ != "trace_path"@)
            ==> match *env_trace {
            Some(path) => r is Some && r->0@ == path@,
            None => r is None,
        },
{
    let all = pairs(qnn_opts@);
    let key = "trace_path"@;
    assert forall|i: int| 0 <= i < all.len() implies (#[trigger] all[i]) == (
        qnn_opts@[i].0@,
        qnn_opts@[i].1@,
    ) by {}
    law_lookup_misses_absent(all, key);
    assert forall|i: int|
        0 <= i < qnn_opts@.len() && (#[trigger] qnn_opts@[i]).0@ == key && (forall|j: int|
            0 <= j < i ==> (#[trigger] qnn_opts@[j]).0@ != key) implies r is Some && r->0@
        == qnn_opts@[i].1@ by {
        assert forall|j: int| 0 <= j < i implies (#[trigger] all[j]).0 != key by {
            assert(qnn_opts@[j].0@ != key);
        }
        law_lookup_finds_first(all, key, i);
    }
    if forall|j: int| 0 <= j < qnn_opts@.len() ==> (#[trigger] qnn_opts@[j]).0@ != key {
        assert forall|j: int| 0 <= j < all.len() implies (#[trigger] all[j]).0 != key by {
            assert(qnn_opts@[j].0@ != key);
        }
    }
}

/// A trace is asked for exactly where an option `trace_path` is there or the environment names
/// a file.
pub proof fn law_trace_is_asked_for_by_option_or_environment(
    qnn_opts: &[(String, String)],
    env_trace: &Option<String>,
    r: bool,
)
    requires
        call_ensures(tracing_requested, (qnn_opts, env_trace), r),
    ensures
        r <==> env_trace is Some || exists|i: int|
            0 <= i < qnn_opts@.len() && (#[trigger] qnn_opts@[i]).0@ == "trace_path"@,
{
    lemma_trace_option(qnn_opts@);
}

/// There is a value for the option `trace_path` exactly where some pair has that key.
pub proof fn lemma_trace_option(qnn_opts: Seq<(String, String)>)
    ensures
        first_value(pairs(qnn_opts), "trace_path"@) is Some <==> exists|i: int|
            0 <= i < qnn_opts.len() && (#[trigger] qnn_opts[i]).0@ == "trace_path"@,
{
    let all = pairs(qnn_opts);
    law_lookup_misses_absent(all, "trace_path"@);
    assert forall|i: int| 0 <= i < all.len() implies (#[trigger] all[i]).0 == qnn_opts[i].0@ by {}
    if exists|i: int| 0 <= i < all.len() && (#[trigger] all[i]).0 == "trace_path"@ {
        let i = choose|i: int| 0 <= i < all.len() && (#[trigger] all[i]).0 == "trace_path"@;
        assert(qnn_opts[i].0@ == "trace_path"@);
    }
    if exists|i: int| 0 <= i < qnn_opts.len() && (#[trigger] qnn_opts[i]).0@ == "trace_path"@ {
        let i = choose|i: int|
            0 <= i < qnn_opts.len() && (#[trigger] qnn_opts[i]).0@ == "trace_path"@;
        assert(all[i].0 == "trace_path"@);
    }
}

} // verus!
