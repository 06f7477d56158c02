//! Choosing execution providers by name.

use crate::lists::{lemma_filter_is_part, lemma_filter_through_map};
use crate::options::{quote, quoted};
use crate::text::{optional_view, same_text};
use ort::ep::ExecutionProviderDispatch;
use vstd::prelude::*;

verus! {

/// The execution providers that can be asked for.
#[derive(Clone, Copy, Debug, PartialEq, Eq, Structural)]
pub enum ExecutionProvider {
    Cpu,
    Cuda,
    TensorRt,
    Acl,
    OneDnn,
    CoreMl,
    DirectMl,
    Rocm,
    Qnn,
}

/// `ort`'s container for one configured execution provider.
#[verifier::external_type_specification]
#[verifier::external_body]
pub struct ExExecutionProviderDispatch(ExecutionProviderDispatch);

/// What a dispatch container holds: the provider, the backend library that it was given, and
/// whether a session reports an error when the provider cannot be registered.
pub struct DispatchView {
    pub provider: ExecutionProvider,
    pub backend_path: Option<Seq<char>>,
    pub error_on_failure: bool,
}

/// What a dispatch container holds.
pub uninterp spec fn dispatch_view(d: ExecutionProviderDispatch) -> DispatchView;

/// A provider without options whose failure to register is not reported as an error.
pub open spec fn plain_dispatch(provider: ExecutionProvider) -> DispatchView {
    DispatchView { provider, backend_path: None, error_on_failure: false }
}

/// `ort::ep::CPU` with its defaults, put into a container by `build`.
#[verifier::external_body]
fn cpu_dispatch() -> (r: ExecutionProviderDispatch)
    ensures
        dispatch_view(r) == plain_dispatch(ExecutionProvider::Cpu),
{
    ort::ep::CPU::default().build()
}

/// `ort::ep::CUDA` with its defaults, put into a container by `build`.
#[verifier::external_body]
fn cuda_dispatch() -> (r: ExecutionProviderDispatch)
    ensures
        dispatch_view(r) == plain_dispatch(ExecutionProvider::Cuda),
{
    ort::ep::CUDA::default().build()
}

/// `ort::ep::TensorRT` with its defaults, put into a container by `build`.
#[verifier::external_body]
fn tensorrt_dispatch() -> (r: ExecutionProviderDispatch)
    ensures
        dispatch_view(r) == plain_dispatch(ExecutionProvider::TensorRt),
{
    ort::ep::TensorRT::default().build()
}

/// `ort::ep::ACL` with its defaults, put into a container by `build`.
#[verifier::external_body]
fn acl_dispatch() -> (r: ExecutionProviderDispatch)
    ensures
        dispatch_view(r) == plain_dispatch(ExecutionProvider::Acl),
{
    ort::ep::ACL::default().build()
}

/// `ort::ep::OneDNN` with its defaults, put into a container by `build`.
#[verifier::external_body]
fn onednn_dispatch() -> (r: ExecutionProviderDispatch)
    ensures
        dispatch_view(r) == plain_dispatch(ExecutionProvider::OneDnn),
{
    ort::ep::OneDNN::default().build()
}

/// `ort::ep::CoreML` with its defaults, put into a container by `build`.
#[verifier::external_body]
fn coreml_dispatch() -> (r: ExecutionProviderDispatch)
    ensures
        dispatch_view(r) == plain_dispatch(ExecutionProvider::CoreMl),
{
    ort::ep::CoreML::default().build()
}

/// `ort::ep::DirectML` with its defaults, put into a container by `build`.
#[verifier::external_body]
fn directml_dispatch() -> (r: ExecutionProviderDispatch)
    ensures
        dispatch_view(r) == plain_dispatch(ExecutionProvider::DirectMl),
{
    ort::ep::DirectML::default().build()
}

/// `ort::ep::ROCm` with its defaults, put into a container by `build`.
#[verifier::external_body]
fn rocm_dispatch() -> (r: ExecutionProviderDispatch)
    ensures
        dispatch_view(r) == plain_dispatch(ExecutionProvider::Rocm),
{
    ort::ep::ROCm::default().build()
}

/// `ort::ep::QNN` with the given `backend_path`, put into a container by `build`. The path
/// becomes a C string: `with_backend_path` panics on a NUL character in it.
#[verifier::external_body]
fn qnn_dispatch(backend_path: String) -> (r: ExecutionProviderDispatch)
    requires
        !backend_path@.contains('\0'),
    ensures
        dispatch_view(r) == (DispatchView {
            provider: ExecutionProvider::Qnn,
            backend_path: Some(backend_path@),
            error_on_failure: false,
        }),
{
    ort::ep::QNN::default().with_backend_path(backend_path).build()
}

/// `ExecutionProviderDispatch::error_on_failure`: the same provider, whose failure to
/// register is reported as an error.
#[verifier::external_body]
fn report_failure(d: ExecutionProviderDispatch) -> (r: ExecutionProviderDispatch)
    ensures
        dispatch_view(r) == (DispatchView { error_on_failure: true, ..dispatch_view(d) }),
{
    d.error_on_failure()
}

/// The provider that goes by a name.
pub open spec fn provider_of(name: Seq<char>) -> Option<ExecutionProvider> {
    if name == "cpu"@ {
        Some(ExecutionProvider::Cpu)
    } else if name == "cuda"@ {
        Some(ExecutionProvider::Cuda)
    } else if name == "tensorrt"@ {
        Some(ExecutionProvider::TensorRt)
    } else if name == "acl"@ {
        Some(ExecutionProvider::Acl)
    } else if name == "onednn"@ {
        Some(ExecutionProvider::OneDnn)
    } else if name == "coreml"@ {
        Some(ExecutionProvider::CoreMl)
    } else if name == "directml"@ {
        Some(ExecutionProvider::DirectMl)
    } else if name == "rocm"@ {
        Some(ExecutionProvider::Rocm)
    } else if name == "qnn"@ {
        Some(ExecutionProvider::Qnn)
    } else {
        None
    }
}

/// The provider that goes by a name.
pub fn provider_named(name: &str) -> (r: Option<ExecutionProvider>)
    ensures
        r == provider_of(name@),
{
    if same_text(name, "cpu") {
        Some(ExecutionProvider::Cpu)
    } else if same_text(name, "cuda") {
        Some(ExecutionProvider::Cuda)
    } else if same_text(name, "tensorrt") {
        Some(ExecutionProvider::TensorRt)
    } else if same_text(name, "acl") {
        Some(ExecutionProvider::Acl)
    } else if same_text(name, "onednn") {
        Some(ExecutionProvider::OneDnn)
    } else if same_text(name, "coreml") {
        Some(ExecutionProvider::CoreMl)
    } else if same_text(name, "directml") {
        Some(ExecutionProvider::DirectMl)
    } else if same_text(name, "rocm") {
        Some(ExecutionProvider::Rocm)
    } else if same_text(name, "qnn") {
        Some(ExecutionProvider::Qnn)
    } else {
        None
    }
}

/// The QNN backend library: the value of `ORTEX_QNN_BACKEND_PATH`, or the usual place.
pub open spec fn backend_path_of(env_backend: Option<Seq<char>>) -> Seq<char> {
    match env_backend {
        Some(path) => path,
        None => "/usr/lib/libQnnHtp.so"@,
    }
}

/// The QNN backend library. `env_backend` is the value of `ORTEX_QNN_BACKEND_PATH`.
pub fn qnn_backend_path(env_backend: &Option<String>) -> (r: String)
    ensures
        r@ == backend_path_of(optional_view(*env_backend)),
{
    match env_backend {
        Some(path) => path.clone(),
        None => "/usr/lib/libQnnHtp.so".to_owned(),
    }
}

/// The QNN execution provider with its backend. A session that cannot use it fails instead
/// of falling back.
pub fn qnn_ep(env_backend: &Option<String>) -> (r: ExecutionProviderDispatch)
    requires
        !backend_path_of(optional_view(*env_backend)).contains('\0'),
    ensures
        dispatch_view(r) == (DispatchView {
            provider: ExecutionProvider::Qnn,
            backend_path: Some(backend_path_of(optional_view(*env_backend))),
            error_on_failure: true,
        }),
{
    report_failure(qnn_dispatch(qnn_backend_path(env_backend)))
}

/// What a name is turned into: the CPU provider stands in for an unknown one.
pub open spec fn dispatch_of(name: Seq<char>, env_backend: Option<Seq<char>>) -> DispatchView {
    match provider_of(name) {
        Some(ExecutionProvider::Qnn) => DispatchView {
            provider: ExecutionProvider::Qnn,
            backend_path: Some(backend_path_of(env_backend)),
            error_on_failure: true,
        },
        Some(provider) => plain_dispatch(provider),
        None => plain_dispatch(ExecutionProvider::Cpu),
    }
}

/// The warning for a name that no provider goes by; `shown` is the name, quoted.
pub open spec fn unknown_provider_warning(shown: Seq<char>) -> Seq<char> {
    "[ortex] unknown execution provider "@ + shown + "; falling back to CPU"@
}

/// The warning for a name that no provider goes by; `shown` is the name, quoted.
pub fn warn_unknown_provider(shown: &str) -> (r: String)
    ensures
        r@ == unknown_provider_warning(shown@),
{
    "[ortex] unknown execution provider ".to_owned().concat(shown).concat("; falling back to CPU")
}

/// The warnings for the unknown ones among some names, in order.
pub open spec fn unknown_provider_warnings(names: Seq<Seq<char>>) -> Seq<Seq<char>> {
    names.filter(|n: Seq<char>| provider_of(n) is None).map_values(
        |n: Seq<char>| unknown_provider_warning(quoted(n)),
    )
}

/// The characters of each text.
pub open spec fn string_views(names: Seq<String>) -> Seq<Seq<char>> {
    names.map_values(|n: String| n@)
}

/// Chosen providers, and the warnings for names that no provider goes by.
pub struct ProviderChoice {
    pub providers: Vec<ExecutionProviderDispatch>,
    pub warnings: Vec<String>,
}

/// Turns names into execution providers, one for each name.
///
/// `env_backend` is the value of `ORTEX_QNN_BACKEND_PATH`. The backend path becomes a C
/// string, so it holds no NUL character where QNN is asked for.
pub fn map_eps(eps: &Vec<String>, env_backend: &Option<String>) -> (r: ProviderChoice)
    requires
        string_views(eps@).contains("qnn"@) ==> !backend_path_of(
            optional_view(*env_backend),
        ).contains('\0'),
    ensures
        r.providers@.map_values(|d: ExecutionProviderDispatch| dispatch_view(d)) == string_views(
            eps@,
        ).map_values(|n: Seq<char>| dispatch_of(n, optional_view(*env_backend))),
        string_views(r.warnings@) == unknown_provider_warnings(string_views(eps@)),
{
    let mut providers: Vec<ExecutionProviderDispatch> = Vec::new();
    let mut warnings: Vec<String> = Vec::new();
    let ghost names = string_views(eps@);
    let mut i: usize = 0;
    assert(string_views(warnings@) == unknown_provider_warnings(names.take(0))) by {
        reveal(Seq::filter);
    }
    while i < eps.len()
        invariant
            i <= eps@.len(),
            names == string_views(eps@),
            names.contains("qnn"@) ==> !backend_path_of(optional_view(*env_backend)).contains('\0'),
            providers@.len() == i,
            forall|j: int|
                0 <= j < i ==> dispatch_view(#[trigger] providers@[j]) == dispatch_of(
                    names[j],
                    optional_view(*env_backend),
                ),
            string_views(warnings@) == unknown_provider_warnings(names.take(i as int)),
        decreases eps@.len() - i,
    {
        let name = eps[i].as_str();
        let ghost before = string_views(warnings@);
        assert(names[i as int] == name@);
        assert(names.take(i + 1).drop_last() == names.take(i as int));
        proof {
            reveal(Seq::filter);
        }
        let provider = match provider_named(name) {
            Some(ExecutionProvider::Cpu) => cpu_dispatch(),
            Some(ExecutionProvider::Cuda) => cuda_dispatch(),
            Some(ExecutionProvider::TensorRt) => tensorrt_dispatch(),
            Some(ExecutionProvider::Acl) => acl_dispatch(),
            Some(ExecutionProvider::OneDnn) => onednn_dispatch(),
            Some(ExecutionProvider::CoreMl) => coreml_dispatch(),
            Some(ExecutionProvider::DirectMl) => directml_dispatch(),
            Some(ExecutionProvider::Rocm) => rocm_dispatch(),
            Some(ExecutionProvider::Qnn) => qnn_ep(env_backend),
            None => {
                let ghost warning = unknown_provider_warning(quoted(name@));
                warnings.push(warn_unknown_provider(quote(name).as_str()));
                assert(string_views(warnings@) == before.push(warning));
                assert(unknown_provider_warnings(names.take(i + 1)) == before.push(warning));
                cpu_dispatch()
            },
        };
        providers.push(provider);
        i = i + 1;
    }
    assert(names.take(names.len() as int) == names);
    ProviderChoice { providers, warnings }
}

/// QNN is the provider whose failure is reported, and the only one.
pub proof fn law_only_qnn_reports_failure(name: Seq<char>, env_backend: Option<Seq<char>>)
    ensures
        dispatch_of(name, env_backend).error_on_failure <==> provider_of(name) == Some(
            ExecutionProvider::Qnn,
        ),
{
}

/// An unknown name is turned into the same provider as `cpu`.
pub proof fn law_unknown_falls_back_to_cpu(name: Seq<char>, env_backend: Option<Seq<char>>)
    requires
        provider_of(name) is None,
    ensures
        dispatch_of(name, env_backend) == dispatch_of("cpu"@, env_backend),
{
}

/// A name is warned about exactly where no provider goes by it.
pub proof fn law_fallback_is_never_silent(names: Seq<Seq<char>>)
    ensures
        unknown_provider_warnings(names).len() == 0 <==> forall|i: int|
            0 <= i < names.len() ==> provider_of(#[trigger] names[i]) is Some,
        forall|i: int|
            0 <= i < names.len() && provider_of(#[trigger] names[i]) is None
                ==> unknown_provider_warnings(names).contains(
                unknown_provider_warning(quoted(names[i])),
            ),
{
    let unknown = |n: Seq<char>| provider_of(n) is None;
    let kept = names.filter(unknown);
    broadcast use vstd::seq_lib::group_filter_ensures;

    assert forall|i: int| 0 <= i < names.len() && provider_of(#[trigger] names[i]) is None implies
        unknown_provider_warnings(names).contains(unknown_provider_warning(quoted(names[i]))) by {
        assert(unknown(names[i]));
        assert(kept.contains(names[i]));
        let k = choose|k: int| 0 <= k < kept.len() && kept[k] == names[i];
        assert(unknown_provider_warnings(names)[k] == unknown_provider_warning(quoted(names[i])));
    }
    if kept.len() > 0 {
        assert(unknown(kept[0]));
        lemma_filter_is_part(names, unknown, 0);
        let i = choose|i: int| 0 <= i < names.len() && names[i] == kept[0];
        assert(provider_of(names[i]) is None);
    }
}

/// The names that providers go by are distinct.
proof fn lemma_provider_names_differ(name: Seq<char>)
    ensures
        provider_of(name) == Some(ExecutionProvider::Cpu) <==> name == "cpu"@,
        provider_of(name) == Some(ExecutionProvider::Cuda) <==> name == "cuda"@,
        provider_of(name) == Some(ExecutionProvider::TensorRt) <==> name == "tensorrt"@,
        provider_of(name) == Some(ExecutionProvider::Acl) <==> name == "acl"@,
        provider_of(name) == Some(ExecutionProvider::OneDnn) <==> name == "onednn"@,
        provider_of(name) == Some(ExecutionProvider::CoreMl) <==> name == "coreml"@,
        provider_of(name) == Some(ExecutionProvider::DirectMl) <==> name == "directml"@,
        provider_of(name) == Some(ExecutionProvider::Rocm) <==> name == "rocm"@,
        provider_of(name) == Some(ExecutionProvider::Qnn) <==> name == "qnn"@,
        provider_of(name) is Some <==> seq!["cpu"@, "cuda"@, "tensorrt"@, "acl"@, "onednn"@, "coreml"@, "directml"@, "rocm"@, "qnn"@].contains(name),
{
    reveal_strlit("cpu");
    reveal_strlit("cuda");
    reveal_strlit("tensorrt");
    reveal_strlit("acl");
    reveal_strlit("onednn");
    reveal_strlit("coreml");
    reveal_strlit("directml");
    reveal_strlit("rocm");
    reveal_strlit("qnn");
    assert("cpu"@[1] == 'p' && "acl"@[1] == 'c' && "qnn"@[1] == 'n');
    assert("cuda"@[0] == 'c' && "rocm"@[0] == 'r');
    assert("onednn"@[0] == 'o' && "coreml"@[0] == 'c');
    assert("tensorrt"@[0] == 't' && "directml"@[0] == 'd');
    let all = seq!["cpu"@, "cuda"@, "tensorrt"@, "acl"@, "onednn"@, "coreml"@, "directml"@, "rocm"@, "qnn"@];
    assert(all[0] == "cpu"@ && all[1] == "cuda"@ && all[2] == "tensorrt"@ && all[3] == "acl"@);
    assert(all[4] == "onednn"@ && all[5] == "coreml"@ && all[6] == "directml"@);
    assert(all[7] == "rocm"@ && all[8] == "qnn"@);
}

/// Each provider is found under its own name and under no other.
pub proof fn law_providers_have_their_names(name: &str, r: Option<ExecutionProvider>)
    requires
        call_ensures(provider_named, (name,), r),
    ensures
        r == provider_of(name@),
        r == Some(ExecutionProvider::Cpu) <==> name@ == "cpu"@,
        r == Some(ExecutionProvider::Cuda) <==> name@ == "cuda"@,
        r == Some(ExecutionProvider::TensorRt) <==> name@ == "tensorrt"@,
        r == Some(ExecutionProvider::Acl) <==> name@ == "acl"@,
        r == Some(ExecutionProvider::OneDnn) <==> name@ == "onednn"@,
        r == Some(ExecutionProvider::CoreMl) <==> name@ == "coreml"@,
        r == Some(ExecutionProvider::DirectMl) <==> name@ == "directml"@,
        r == Some(ExecutionProvider::Rocm) <==> name@ == "rocm"@,
        r == Some(ExecutionProvider::Qnn) <==> name@ == "qnn"@,
{
    lemma_provider_names_differ(name@);
}

/// The backend of QNN is what the environment names, and the usual library only where the
/// environment names none.
pub proof fn law_environment_names_the_backend(env_backend: &Option<String>, r: String)
    requires
        call_ensures(qnn_backend_path, (env_backend,), r),
    ensures
        *env_backend matches Some(path) ==> r@ == path@,
        env_backend is None ==> r@ == "/usr/lib/libQnnHtp.so"@,
{
}

/// The QNN provider has the backend that the environment names, else the usual one, and its
/// failure is reported.
pub proof fn law_qnn_provider_has_its_backend(
    env_backend: &Option<String>,
    r: ExecutionProviderDispatch,
)
    requires
        call_ensures(qnn_ep, (env_backend,), r),
    ensures
        dispatch_view(r).provider is Qnn,
        dispatch_view(r).error_on_failure,
        *env_backend matches Some(path) ==> dispatch_view(r).backend_path == Some(path@),
        env_backend is None ==> dispatch_view(r).backend_path == Some("/usr/lib/libQnnHtp.so"@),
{
}

/// There is one provider for each name, in order. QNN has the backend that the environment
/// names, else the usual one, and reports its failure; the others have no backend and do not
/// report it; the CPU stands in for names that are not known.
pub proof fn law_each_name_gives_its_provider(
    eps: &Vec<String>,
    env_backend: &Option<String>,
    r: ProviderChoice,
    i: int,
)
    requires
        call_ensures(map_eps, (eps, env_backend), r),
        0 <= i < eps@.len(),
    ensures
        r.providers@.len() == eps@.len(),
        ({
            let name = eps@[i]@;
            let chosen = dispatch_view(r.providers@[i]);
            &&& chosen.error_on_failure <==> name == "qnn"@
            &&& chosen.backend_path == (if name != "qnn"@ {
                None
            } else {
                match *env_backend {
                    Some(path) => Some(path@),
                    None => Some("/usr/lib/libQnnHtp.so"@),
                }
            })
            &&& name == "qnn"@ ==> chosen.provider is Qnn
            &&& name == "cpu"@ ==> chosen.provider is Cpu
            &&& name == "cuda"@ ==> chosen.provider is Cuda
            &&& name == "tensorrt"@ ==> chosen.provider is TensorRt
            &&& name == "acl"@ ==> chosen.provider is Acl
            &&& name == "onednn"@ ==> chosen.provider is OneDnn
            &&& name == "coreml"@ ==> chosen.provider is CoreMl
            &&& name == "directml"@ ==> chosen.provider is DirectMl
            &&& name == "rocm"@ ==> chosen.provider is Rocm
            &&& !seq![
                    "cpu"@,
                    "cuda"@,
                    "tensorrt"@,
                    "acl"@,
                    "onednn"@,
                    "coreml"@,
                    "directml"@,
                    "rocm"@,
                    "qnn"@,
                ].contains(name) ==> chosen.provider is Cpu
        }),
{
    let names = string_views(eps@);
    let seen = r.providers@.map_values(|d: ExecutionProviderDispatch| dispatch_view(d));
    assert(seen.len() == names.len());
    assert(seen[i] == dispatch_view(r.providers@[i]));
    assert(names[i] == eps@[i]@);
    assert(seen[i] == dispatch_of(names[i], optional_view(*env_backend)));
    lemma_provider_names_differ(eps@[i]@);
}

/// There is one warning for each name that is not known, in order, and it shows the name.
pub proof fn law_each_unknown_name_is_warned_about(
    eps: &Vec<String>,
    env_backend: &Option<String>,
    r: ProviderChoice,
)
    requires
        call_ensures(map_eps, (eps, env_backend), r),
    ensures
        ({
            let unknown = eps@.filter(
                |n: String|
                    !seq![
                    "cpu"@,
                    "cuda"@,
                    "tensorrt"@,
                    "acl"@,
                    "onednn"@,
                    "coreml"@,
                    "directml"@,
                    "rocm"@,
                    "qnn"@,
                ].contains(n@),
            );
            &&& r.warnings@.len() == unknown.len()
            &&& forall|k: int|
                0 <= k < unknown.len() ==> (#[trigger] r.warnings@[k])@
                    == "[ortex] unknown execution provider "@ + quoted(unknown[k]@)
                    + "; falling back to CPU"@
        }),
{
    let keep = |n: String| !seq!["cpu"@, "cuda"@, "tensorrt"@, "acl"@, "onednn"@, "coreml"@, "directml"@, "rocm"@, "qnn"@].contains(n@);
    let keep_text = |n: Seq<char>| provider_of(n) is None;
    let see = |n: String| n@;
    assert forall|n: String| #[trigger] keep(n) == keep_text(see(n)) by {
        lemma_provider_names_differ(n@);
    }
    lemma_filter_through_map(eps@, see, keep, keep_text);
    let unknown = eps@.filter(keep);
    let names = string_views(eps@);
    assert(names == eps@.map_values(see));
    assert(names.filter(keep_text) == unknown.map_values(see));
    let said = unknown_provider_warnings(names);
    assert(string_views(r.warnings@).len() == said.len());
    assert forall|k: int| 0 <= k < unknown.len() implies (#[trigger] r.warnings@[k])@
        == "[ortex] unknown execution provider "@ + quoted(unknown[k]@)
        + "; falling back to CPU"@ by {
        assert(string_views(r.warnings@)[k] == r.warnings@[k]@);
        assert(names.filter(keep_text)[k] == unknown[k]@);
        assert(said[k] == unknown_provider_warning(quoted(unknown[k]@)));
    }
}

/// The warning for a name shows it as it is given.
pub proof fn law_warning_shows_the_name(shown: &str, r: String)
    requires
        call_ensures(warn_unknown_provider, (shown,), r),
    ensures
        r@ == "[ortex] unknown execution provider "@ + shown@ + "; falling back to CPU"@,
{
}

/// Texts are seen as their characters, one for one.
pub proof fn law_strings_are_seen_as_characters(names: Seq<String>, i: int)
    requires
        0 <= i < names.len(),
    ensures
        string_views(names).len() == names.len(),
        string_views(names)[i] == names[i]@,
{
}

} // verus!
