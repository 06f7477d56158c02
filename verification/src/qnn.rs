//! Selecting QNN devices and assembling the options of the QNN execution provider.

use crate::error::Error;
use crate::lists::{lemma_filter_is_part, lemma_filter_through_map};
use crate::options::{
    first_value, is_env_key, is_forwarded_key, is_reserved, is_reserved_key,
    law_lookup_finds_first, law_lookup_misses_absent, lookup, pairs, quote, quoted,
};
use crate::text::{
    before_first, begins_with, chars_of, contains_text, find_char, has_text, join, joined,
    law_before_first_stops_at_first, law_contained_text_stands_between, lemma_before_first, optional_view, segments, split_on,
    strip_prefix, trim, trimmed, views,
};
use vstd::prelude::*;

verus! {

/// What a session needs in order to run on QNN: the devices, as positions in the list of all
/// devices, and the provider options.
#[derive(Debug)]
pub struct QnnSetup {
    pub devices: Vec<usize>,
    pub options: Vec<(String, String)>,
}

/// The library that provides QNN and the backend that it loads.
#[derive(Debug)]
pub struct QnnPaths {
    pub provider_path: String,
    pub backend_path: String,
}

/// The value under `key`, or `default` where no pair has that key.
pub open spec fn value_or(
    opts: Seq<(Seq<char>, Seq<char>)>,
    key: Seq<char>,
    default: Seq<char>,
) -> Seq<char> {
    match first_value(opts, key) {
        Some(value) => value,
        None => default,
    }
}

/// The provider library and the backend: what the options say, else the defaults.
pub fn qnn_paths(
    qnn_opts: &[(String, String)],
    default_provider_path: String,
    default_backend_path: String,
) -> (r: QnnPaths)
    ensures
        r.provider_path@ == value_or(pairs(qnn_opts@), "provider_path"@, default_provider_path@),
        r.backend_path@ == value_or(pairs(qnn_opts@), "backend_path"@, default_backend_path@),
{
    let provider_path = match lookup(qnn_opts, "provider_path") {
        Some(path) => path,
        None => default_provider_path,
    };
    let backend_path = match lookup(qnn_opts, "backend_path") {
        Some(path) => path,
        None => default_backend_path,
    };
    QnnPaths { provider_path, backend_path }
}

/// The characters of each known provider name.
pub open spec fn name_views(names: Seq<Option<String>>) -> Seq<Option<Seq<char>>> {
    names.map_values(|n: Option<String>| optional_view(n))
}

/// A device belongs to QNN where the name of its execution provider is known and says so.
pub open spec fn is_qnn_name(name: Option<Seq<char>>) -> bool {
    match name {
        Some(text) => contains_text(text, "QNN"@),
        None => false,
    }
}

/// The positions of the QNN devices, in order.
pub open spec fn qnn_positions(names: Seq<Option<Seq<char>>>) -> Seq<int>
    decreases names.len(),
{
    if names.len() == 0 {
        Seq::empty()
    } else if is_qnn_name(names.last()) {
        qnn_positions(names.drop_last()).push(names.len() - 1)
    } else {
        qnn_positions(names.drop_last())
    }
}

/// How a device's provider is shown in a message.
pub open spec fn shown_name(name: Option<Seq<char>>) -> Seq<char> {
    match name {
        Some(text) => text,
        None => "<unknown>"@,
    }
}

/// The message for an environment without QNN devices.
pub open spec fn no_device_complaint(
    names: Seq<Option<Seq<char>>>,
    provider_path: Seq<char>,
    backend_path: Seq<char>,
) -> Seq<char> {
    "no QNN device found after registering "@ + provider_path + "; devices seen: ["@ + joined(
        names.map_values(|n: Option<Seq<char>>| shown_name(n)),
        ", "@,
    ) + "]; backend "@ + backend_path
}

/// An option name in the name space of an execution provider.
pub open spec fn prefixed(ep_name: Seq<char>, key: Seq<char>) -> Seq<char> {
    ep_name + "."@ + key
}

/// Options in the name space of an execution provider.
pub open spec fn prefixed_pairs(
    ep_name: Seq<char>,
    opts: Seq<(Seq<char>, Seq<char>)>,
) -> Seq<(Seq<char>, Seq<char>)> {
    opts.map_values(|p: (Seq<char>, Seq<char>)| (prefixed(ep_name, p.0), p.1))
}

/// The pairs that go to the execution provider, in order.
pub open spec fn forwarded(opts: Seq<(Seq<char>, Seq<char>)>) -> Seq<(Seq<char>, Seq<char>)> {
    opts.filter(|p: (Seq<char>, Seq<char>)| is_forwarded_key(p.0))
}

/// The key and value of an entry `k=v`, split at its first equals sign, both trimmed.
pub open spec fn entry_pair(entry: Seq<char>) -> (Seq<char>, Seq<char>) {
    let key = before_first(entry, '=');
    (trimmed(key), trimmed(entry.skip(key.len() as int + 1)))
}

/// An entry that is blank or has an equals sign.
pub open spec fn is_readable(entry: Seq<char>) -> bool {
    trimmed(entry).len() == 0 || entry.contains('=')
}

/// The pairs of a list of entries: blank ones are skipped. Where some entry has no equals
/// sign, the first such entry.
pub open spec fn entry_pairs(entries: Seq<Seq<char>>) -> Result<
    Seq<(Seq<char>, Seq<char>)>,
    Seq<char>,
>
    decreases entries.len(),
{
    if entries.len() == 0 {
        Ok(Seq::empty())
    } else {
        match entry_pairs(entries.drop_last()) {
            Err(entry) => Err(entry),
            Ok(done) => {
                let entry = entries.last();
                if trimmed(entry).len() == 0 {
                    Ok(done)
                } else if !entry.contains('=') {
                    Err(entry)
                } else {
                    Ok(done.push(entry_pair(entry)))
                }
            },
        }
    }
}

/// The message for an entry of `ORTEX_QNN_OPTS` without an equals sign; `shown` is the entry,
/// quoted.
pub open spec fn entry_complaint(shown: Seq<char>) -> Seq<char> {
    "ORTEX_QNN_OPTS entry "@ + shown + " is not k=v"@
}

/// The failure for an entry of `ORTEX_QNN_OPTS` without an equals sign; `shown` is the entry,
/// quoted.
pub fn not_an_entry(shown: &str) -> (r: Error)
    ensures
        r@ == entry_complaint(shown@),
{
    Error::new("ORTEX_QNN_OPTS entry ".to_owned().concat(shown).concat(" is not k=v"))
}

/// The options handed to the execution provider: the backend first, then the forwarded
/// pairs, then those of the environment variable `ORTEX_QNN_OPTS`; or the message for the
/// entry of that variable that cannot be read.
pub open spec fn provider_options(
    ep_name: Seq<char>,
    backend_path: Seq<char>,
    opts: Seq<(Seq<char>, Seq<char>)>,
    extra: Seq<char>,
) -> Result<Seq<(Seq<char>, Seq<char>)>, Seq<char>> {
    match entry_pairs(segments(extra, ',')) {
        Err(entry) => Err(entry_complaint(quoted(entry))),
        Ok(read) => Ok(
            prefixed_pairs(
                ep_name,
                seq![("backend_path"@, backend_path)] + forwarded(opts) + read,
            ),
        ),
    }
}

/// The positions of the QNN devices among all devices, given the name of each device's
/// execution provider where it is known.
pub fn qnn_devices(names: &Vec<Option<String>>) -> (r: Vec<usize>)
    ensures
        r@.map_values(|i: usize| i as int) == qnn_positions(name_views(names@)),
{
    let mut out: Vec<usize> = Vec::new();
    let mut i: usize = 0;
    let ghost all = name_views(names@);
    assert(out@.map_values(|i: usize| i as int) == qnn_positions(all.take(0)));
    while i < names.len()
        invariant
            i <= names@.len(),
            all == name_views(names@),
            out@.map_values(|i: usize| i as int) == qnn_positions(all.take(i as int)),
        decreases names@.len() - i,
    {
        let ghost before = out@;
        assert(all.take(i + 1).drop_last() == all.take(i as int));
        assert(all.take(i + 1).last() == optional_view(names@[i as int]));
        let found = match &names[i] {
            Some(name) => has_text(name.as_str(), "QNN"),
            None => false,
        };
        if found {
            out.push(i);
            assert(out@.map_values(|i: usize| i as int) == before.map_values(
                |i: usize| i as int,
            ).push(i as int));
        }
        i = i + 1;
    }
    assert(all.take(names@.len() as int) == all);
    out
}

/// The message for an environment without QNN devices.
fn no_device_message(names: &Vec<Option<String>>, provider_path: &str, backend_path: &str) -> (r:
    String)
    ensures
        r@ == no_device_complaint(name_views(names@), provider_path@, backend_path@),
{
    let mut seen: Vec<&str> = Vec::new();
    let mut i: usize = 0;
    while i < names.len()
        invariant
            i <= names@.len(),
            seen@.len() == i,
            forall|j: int|
                0 <= j < i ==> (#[trigger] seen@[j])@ == shown_name(optional_view(names@[j])),
        decreases names@.len() - i,
    {
        let shown: &str = match &names[i] {
            Some(name) => name.as_str(),
            None => "<unknown>",
        };
        seen.push(shown);
        i = i + 1;
    }
    assert(views(seen@) == name_views(names@).map_values(|n: Option<Seq<char>>| shown_name(n)));
    "no QNN device found after registering ".to_owned().concat(provider_path).concat(
        "; devices seen: [",
    ).concat(join(&seen, ", ").as_str()).concat("]; backend ").concat(backend_path)
}

/// An option name in the name space of an execution provider.
fn prefix_key(ep_name: &str, key: &str) -> (r: String)
    ensures
        r@ == prefixed(ep_name@, key@),
{
    ep_name.to_owned().concat(".").concat(key)
}


/// Reads the value of `ORTEX_QNN_OPTS`: entries `k=v`, separated by commas.
pub fn read_entries(extra: &str) -> (r: Result<Vec<(String, String)>, Error>)
    ensures
        match r {
            Ok(read) => entry_pairs(segments(extra@, ',')) == Ok::<
                Seq<(Seq<char>, Seq<char>)>,
                Seq<char>,
            >(pairs(read@)),
            Err(e) => entry_pairs(segments(extra@, ',')) matches Err(entry) && e@
                == entry_complaint(quoted(entry)),
        },
{
    let entries = split_on(extra, ',');
    let mut out: Vec<(String, String)> = Vec::new();
    let mut i: usize = 0;
    let ghost all = views(entries@);
    assert(pairs(out@) == Seq::<(Seq<char>, Seq<char>)>::empty());
    assert(all.take(0) == Seq::<Seq<char>>::empty());
    while i < entries.len()
        invariant
            i <= entries@.len(),
            all == views(entries@),
            all == segments(extra@, ','),
            entry_pairs(all.take(i as int)) == Ok::<Seq<(Seq<char>, Seq<char>)>, Seq<char>>(
                pairs(out@),
            ),
        decreases entries@.len() - i,
    {
        let entry: &str = entries[i];
        let ghost before = pairs(out@);
        assert(all.take(i + 1).drop_last() == all.take(i as int));
        assert(all.take(i + 1).last() == entry@);
        if !trim(entry).is_empty() {
            let chars = chars_of(entry);
            let n: usize = chars.len();
            match find_char(&chars, '=') {
                Some(at) => {
                    proof {
                        lemma_before_first(entry@, '=', at as int);
                        assert(entry@.contains('='));
                        assert(entry@.subrange(0, at as int) == entry@.take(at as int));
                        assert(entry@.subrange(at + 1, entry@.len() as int) == entry@.skip(at + 1));
                    }
                    let key = trim(entry.substring_char(0, at));
                    let value = trim(entry.substring_char(at + 1, n));
                    out.push((key.to_owned(), value.to_owned()));
                    assert(pairs(out@) == before.push(entry_pair(entry@)));
                },
                None => {
                    proof {
                        lemma_entry_failure_stays(all, i + 1);
                    }
                    return Err(not_an_entry(quote(entry).as_str()));
                },
            }
        }
        i = i + 1;
    }
    assert(all.take(entries@.len() as int) == all);
    Ok(out)
}

/// An entry that cannot be read is what the whole list is refused for.
proof fn lemma_entry_failure_stays(entries: Seq<Seq<char>>, k: int)
    requires
        0 <= k <= entries.len(),
        entry_pairs(entries.take(k)) is Err,
    ensures
        entry_pairs(entries) == entry_pairs(entries.take(k)),
    decreases entries.len() - k,
{
    if k == entries.len() {
        assert(entries.take(k) == entries);
    } else {
        assert(entries.take(k + 1).drop_last() == entries.take(k));
        lemma_entry_failure_stays(entries, k + 1);
    }
}

/// What becomes of a request for QNN: the device positions and the options, or a message.
pub open spec fn qnn_outcome(
    names: Seq<Option<Seq<char>>>,
    provider_path: Seq<char>,
    backend_path: Seq<char>,
    opts: Seq<(Seq<char>, Seq<char>)>,
    extra: Seq<char>,
) -> Result<(Seq<int>, Seq<(Seq<char>, Seq<char>)>), Seq<char>> {
    let positions = qnn_positions(names);
    if positions.len() == 0 {
        Err(no_device_complaint(names, provider_path, backend_path))
    } else {
        match provider_options(names[positions[0]]->0, backend_path, opts, extra) {
            Err(message) => Err(message),
            Ok(options) => Ok((positions, options)),
        }
    }
}

/// The mathematical content of a result of `with_qnn`.
pub open spec fn setup_view(r: Result<QnnSetup, Error>) -> Result<
    (Seq<int>, Seq<(Seq<char>, Seq<char>)>),
    Seq<char>,
> {
    match r {
        Ok(setup) => Ok((setup.devices@.map_values(|i: usize| i as int), pairs(setup.options@))),
        Err(e) => Err(e@),
    }
}

/// The QNN devices are positions in the list of all devices, each of which belongs to QNN.
proof fn lemma_qnn_positions(names: Seq<Option<Seq<char>>>)
    ensures
        forall|k: int|
            0 <= k < qnn_positions(names).len() ==> {
                let i = #[trigger] qnn_positions(names)[k];
                0 <= i < names.len() && is_qnn_name(names[i])
            },
    decreases names.len(),
{
    if names.len() > 0 {
        let front = names.drop_last();
        lemma_qnn_positions(front);
        assert forall|k: int| 0 <= k < qnn_positions(names).len() implies ({
            let i = #[trigger] qnn_positions(names)[k];
            0 <= i < names.len() && is_qnn_name(names[i])
        }) by {
            if k < qnn_positions(front).len() {
                let i = qnn_positions(front)[k];
                assert(qnn_positions(names)[k] == i);
                assert(front[i] == names[i]);
            }
        }
    }
}

/// Prepares a session for QNN once the provider library is registered.
///
/// `device_eps` holds the name of each device's execution provider where it is known, and
/// `extra` the value of `ORTEX_QNN_OPTS`, empty where that is not set. There is no fallback:
/// without a QNN device the request fails.
pub fn with_qnn(
    qnn_opts: &[(String, String)],
    paths: &QnnPaths,
    device_eps: &Vec<Option<String>>,
    extra: &str,
) -> (r: Result<QnnSetup, Error>)
    ensures
        setup_view(r) == qnn_outcome(
            name_views(device_eps@),
            paths.provider_path@,
            paths.backend_path@,
            pairs(qnn_opts@),
            extra@,
        ),
{
    let devices = qnn_devices(device_eps);
    let ghost names = name_views(device_eps@);
    let ghost positions = qnn_positions(names);
    assert(positions.len() == devices@.len());
    if devices.len() == 0 {
        return Err(
            Error::new(
                no_device_message(
                    device_eps,
                    paths.provider_path.as_str(),
                    paths.backend_path.as_str(),
                ),
            ),
        );
    }
    proof {
        lemma_qnn_positions(names);
        assert(positions[0] == devices@[0]);
    }
    let first: usize = devices[0];
    let ep_name: &str = match &device_eps[first] {
        Some(name) => name.as_str(),
        None => "",
    };
    assert(names[positions[0]] == Some(ep_name@));
    let read = match read_entries(extra) {
        Ok(read) => read,
        Err(e) => return Err(e),
    };
    let mut options: Vec<(String, String)> = Vec::new();
    options.push((prefix_key(ep_name, "backend_path"), paths.backend_path.clone()));
    let ghost ep = ep_name@;
    let ghost head = seq![("backend_path"@, paths.backend_path@)];
    let ghost opts = pairs(qnn_opts@);
    assert(pairs(options@) == prefixed_pairs(ep, head + forwarded(opts.take(0)))) by {
        reveal(Seq::filter);
        assert(opts.take(0).len() == 0);
    }
    let mut i: usize = 0;
    while i < qnn_opts.len()
        invariant
            i <= qnn_opts@.len(),
            opts == pairs(qnn_opts@),
            ep == ep_name@,
            pairs(options@) == prefixed_pairs(ep, head + forwarded(opts.take(i as int))),
        decreases qnn_opts@.len() - i,
    {
        let ghost before = pairs(options@);
        let ghost pair = opts[i as int];
        assert(opts.take(i + 1).drop_last() == opts.take(i as int));
        proof {
            reveal(Seq::filter);
        }
        let key = qnn_opts[i].0.as_str();
        if !is_reserved(key) && strip_prefix(key, "env.").is_none() {
            options.push((prefix_key(ep_name, key), qnn_opts[i].1.clone()));
            assert(pairs(options@) == before.push((prefixed(ep, pair.0), pair.1)));
            assert(prefixed_pairs(ep, head + forwarded(opts.take(i + 1))) == before.push(
                (prefixed(ep, pair.0), pair.1),
            ));
        } else {
            assert(!is_forwarded_key(pair.0));
        }
        i = i + 1;
    }
    assert(opts.take(opts.len() as int) == opts);
    let ghost front = head + forwarded(opts);
    let ghost tail = pairs(read@);
    let mut j: usize = 0;
    assert(front + tail.take(0) == front);
    while j < read.len()
        invariant
            j <= read@.len(),
            tail == pairs(read@),
            ep == ep_name@,
            pairs(options@) == prefixed_pairs(ep, front + tail.take(j as int)),
        decreases read@.len() - j,
    {
        let ghost before = pairs(options@);
        let ghost pair = tail[j as int];
        options.push((prefix_key(ep_name, read[j].0.as_str()), read[j].1.clone()));
        assert(pairs(options@) == before.push((prefixed(ep, pair.0), pair.1)));
        assert(prefixed_pairs(ep, front + tail.take(j + 1)) == before.push(
            (prefixed(ep, pair.0), pair.1),
        ));
        j = j + 1;
    }
    assert(tail.take(tail.len() as int) == tail);
    let ghost shown = devices@.map_values(|i: usize| i as int);
    assert(shown == positions);
    Ok(QnnSetup { devices, options })
}

/// Each option handed to the execution provider is in the provider's name space, and the
/// first one is the backend.
pub proof fn law_options_carry_provider_name(
    ep_name: Seq<char>,
    backend_path: Seq<char>,
    opts: Seq<(Seq<char>, Seq<char>)>,
    extra: Seq<char>,
)
    ensures
        provider_options(ep_name, backend_path, opts, extra) matches Ok(options) ==> {
            &&& options.len() > 0
            &&& options[0] == (prefixed(ep_name, "backend_path"@), backend_path)
            &&& forall|i: int|
                0 <= i < options.len() ==> begins_with((#[trigger] options[i]).0, ep_name + "."@)
        },
{
    if let Ok(read) = entry_pairs(segments(extra, ',')) {
        let bare = seq![("backend_path"@, backend_path)] + forwarded(opts) + read;
        let options = prefixed_pairs(ep_name, bare);
        assert(options[0] == (prefixed(ep_name, bare[0].0), bare[0].1));
        assert forall|i: int| 0 <= i < options.len() implies begins_with(
            (#[trigger] options[i]).0,
            ep_name + "."@,
        ) by {
            assert(options[i].0 == prefixed(ep_name, bare[i].0));
            let n = (ep_name + "."@).len() as int;
            assert((ep_name + "."@ + bare[i].0).take(n) == ep_name + "."@);
        }
    }
}

/// A pair goes to the execution provider exactly where the options hold it and its key is
/// neither reserved nor that of an environment variable.
pub proof fn law_all_but_own_options_are_forwarded(
    opts: Seq<(Seq<char>, Seq<char>)>,
    p: (Seq<char>, Seq<char>),
)
    ensures
        forwarded(opts).contains(p) <==> opts.contains(p) && !is_reserved_key(p.0) && !is_env_key(
            p.0,
        ),
{
    let keep = |p: (Seq<char>, Seq<char>)| is_forwarded_key(p.0);
    broadcast use vstd::seq_lib::group_filter_ensures;

    if forwarded(opts).contains(p) {
        let k = choose|k: int| 0 <= k < forwarded(opts).len() && forwarded(opts)[k] == p;
        lemma_filter_is_part(opts, keep, k);
        assert(keep(opts.filter(keep)[k]));
    }
    if opts.contains(p) && is_forwarded_key(p.0) {
        assert(keep(p));
    }
}

/// Forwarded pairs keep their order.
pub proof fn law_forwarded_options_keep_order(
    front: Seq<(Seq<char>, Seq<char>)>,
    back: Seq<(Seq<char>, Seq<char>)>,
)
    ensures
        forwarded(front + back) == forwarded(front) + forwarded(back),
{
    Seq::filter_distributes_over_add(
        front,
        back,
        |p: (Seq<char>, Seq<char>)| is_forwarded_key(p.0),
    );
}

/// The selected devices are those of QNN, all of them, in order and each once.
pub proof fn law_all_qnn_devices_are_selected(names: Seq<Option<Seq<char>>>)
    ensures
        forall|i: int|
            0 <= i < names.len() ==> (is_qnn_name(#[trigger] names[i]) <==> qnn_positions(
                names,
            ).contains(i)),
        forall|k: int|
            0 <= k < qnn_positions(names).len() ==> 0 <= #[trigger] qnn_positions(names)[k]
                < names.len(),
        forall|j: int, k: int|
            0 <= j < k < qnn_positions(names).len() ==> #[trigger] qnn_positions(names)[j]
                < #[trigger] qnn_positions(names)[k],
    decreases names.len(),
{
    lemma_qnn_positions(names);
    if names.len() > 0 {
        let front = names.drop_last();
        let all = qnn_positions(names);
        let done = qnn_positions(front);
        law_all_qnn_devices_are_selected(front);
        assert forall|i: int| 0 <= i < names.len() implies (is_qnn_name(#[trigger] names[i])
            <==> all.contains(i)) by {
            if all.contains(i) {
                let k = choose|k: int| 0 <= k < all.len() && all[k] == i;
                assert(is_qnn_name(names[all[k]]));
            }
            if is_qnn_name(names[i]) {
                if i < front.len() {
                    assert(front[i] == names[i]);
                    let k = choose|k: int| 0 <= k < done.len() && done[k] == i;
                    assert(all[k] == i);
                } else {
                    assert(all[all.len() - 1] == i);
                }
            }
        }
    }
}

/// A request for QNN never goes on without a QNN device: it succeeds only with at least one
/// device, all of them of QNN, and fails where there is none.
pub proof fn law_no_fallback_without_device(
    names: Seq<Option<Seq<char>>>,
    provider_path: Seq<char>,
    backend_path: Seq<char>,
    opts: Seq<(Seq<char>, Seq<char>)>,
    extra: Seq<char>,
)
    ensures
        qnn_outcome(names, provider_path, backend_path, opts, extra) matches Ok((positions, _))
            ==> positions.len() > 0 && forall|k: int|
            0 <= k < positions.len() ==> is_qnn_name(names[#[trigger] positions[k]]),
        (forall|i: int| 0 <= i < names.len() ==> !is_qnn_name(#[trigger] names[i])) ==> qnn_outcome(
            names,
            provider_path,
            backend_path,
            opts,
            extra,
        ) is Err,
{
    lemma_qnn_positions(names);
    if qnn_positions(names).len() > 0 {
        assert(is_qnn_name(names[qnn_positions(names)[0]]));
    }
}

/// A request for QNN succeeds exactly where there is a QNN device and every entry of
/// `ORTEX_QNN_OPTS` that is not blank has an equals sign.
pub proof fn law_success_conditions(
    names: Seq<Option<Seq<char>>>,
    provider_path: Seq<char>,
    backend_path: Seq<char>,
    opts: Seq<(Seq<char>, Seq<char>)>,
    extra: Seq<char>,
)
    ensures
        qnn_outcome(names, provider_path, backend_path, opts, extra) is Ok <==> {
            &&& exists|i: int| 0 <= i < names.len() && is_qnn_name(#[trigger] names[i])
            &&& forall|k: int|
                0 <= k < segments(extra, ',').len() ==> is_readable(
                    #[trigger] segments(extra, ',')[k],
                )
        },
{
    law_all_qnn_devices_are_selected(names);
    lemma_entries_readable(segments(extra, ','));
    let positions = qnn_positions(names);
    if positions.len() > 0 {
        lemma_qnn_positions(names);
        assert(is_qnn_name(names[positions[0]]));
    }
    if exists|i: int| 0 <= i < names.len() && is_qnn_name(#[trigger] names[i]) {
        let i = choose|i: int| 0 <= i < names.len() && is_qnn_name(#[trigger] names[i]);
        assert(positions.contains(i));
    }
}

/// Entries are read exactly where each can be.
proof fn lemma_entries_readable(entries: Seq<Seq<char>>)
    ensures
        entry_pairs(entries) is Ok <==> forall|k: int|
            0 <= k < entries.len() ==> is_readable(#[trigger] entries[k]),
    decreases entries.len(),
{
    if entries.len() > 0 {
        let front = entries.drop_last();
        lemma_entries_readable(front);
        assert(entries.last() == entries[entries.len() - 1]);
        if entry_pairs(entries) is Ok {
            assert forall|k: int| 0 <= k < entries.len() implies is_readable(
                #[trigger] entries[k],
            ) by {
                if k < front.len() {
                    assert(is_readable(front[k]));
                }
            }
        }
        if entry_pairs(front) is Err {
            let k = choose|k: int| 0 <= k < front.len() && !is_readable(#[trigger] front[k]);
            assert(!is_readable(entries[k]));
        }
    }
}

/// An entry that is written as a key without an equals sign, an equals sign and a value is
/// read as that key and value, trimmed.
pub proof fn law_entry_reads_back(key: Seq<char>, value: Seq<char>)
    requires
        !key.contains('='),
    ensures
        entry_pair(key + seq!['='] + value) == (trimmed(key), trimmed(value)),
{
    let entry = key + seq!['='] + value;
    let at = key.len() as int;
    assert(entry.take(at) == key);
    assert(entry[at] == '=');
    lemma_before_first(entry, '=', at);
    assert(entry.skip(at + 1) == value);
}

/// The value under a key is that of the first pair that has the key, else the default.
proof fn lemma_value_or(qnn_opts: Seq<(String, String)>, key: Seq<char>, default: Seq<char>)
    ensures
        forall|i: int|
            0 <= i < qnn_opts.len() && (#[trigger] qnn_opts[i]).0@ == key && (forall|j: int|
                0 <= j < i ==> (#[trigger] qnn_opts[j]).0@ != key) ==> value_or(
                pairs(qnn_opts),
                key,
                default,
            ) == qnn_opts[i].1@,
        (forall|j: int| 0 <= j < qnn_opts.len() ==> (#[trigger] qnn_opts[j]).0@ != key)
            ==> value_or(pairs(qnn_opts), key, default) == default,
{
    let all = pairs(qnn_opts);
    assert forall|i: int| 0 <= i < all.len() implies (#[trigger] all[i]) == (
        qnn_opts[i].0@,
        qnn_opts[i].1@,
    ) by {}
    law_lookup_misses_absent(all, key);
    assert forall|i: int|
        0 <= i < qnn_opts.len() && (#[trigger] qnn_opts[i]).0@ == key && (forall|j: int|
            0 <= j < i ==> (#[trigger] qnn_opts[j]).0@ != key) implies value_or(all, key, default)
        == qnn_opts[i].1@ by {
        assert forall|j: int| 0 <= j < i implies (#[trigger] all[j]).0 != key by {
            assert(qnn_opts[j].0@ != key);
        }
        law_lookup_finds_first(all, key, i);
    }
    if forall|j: int| 0 <= j < qnn_opts.len() ==> (#[trigger] qnn_opts[j]).0@ != key {
        assert forall|j: int| 0 <= j < all.len() implies (#[trigger] all[j]).0 != key by {
            assert(qnn_opts[j].0@ != key);
        }
    }
}

/// The provider library and the backend are those that the options name first, and the
/// defaults only where the options name none.
pub proof fn law_options_name_the_libraries(
    qnn_opts: &[(String, String)],
    default_provider_path: String,
    default_backend_path: String,
    r: QnnPaths,
)
    requires
        call_ensures(qnn_paths, (qnn_opts, default_provider_path, default_backend_path), r),
    ensures
        forall|i: int|
            0 <= i < qnn_opts@.len() && (#[trigger] qnn_opts@[i]).0@ == "provider_path"@ && (forall|
                j: int,
            |
                0 <= j < i ==> (#[trigger] qnn_opts@[j]).0@ != "provider_path"@) ==> r.provider_path@
                == qnn_opts@[i].1@,
        (forall|j: int| 0 <= j < qnn_opts@.len() ==> (#[trigger] qnn_opts@[j]).0@ != "provider_path"@)
            ==> r.provider_path@ == default_provider_path@,
        forall|i: int|
            0 <= i < qnn_opts@.len() && (#[trigger] qnn_opts@[i]).0@ == "backend_path"@ && (forall|
                j: int,
            |
                0 <= j < i ==> (#[trigger] qnn_opts@[j]).0@ != "backend_path"@) ==> r.backend_path@
                == qnn_opts@[i].1@,
        (forall|j: int| 0 <= j < qnn_opts@.len() ==> (#[trigger] qnn_opts@[j]).0@ != "backend_path"@)
            ==> r.backend_path@ == default_backend_path@,
{
    lemma_value_or(qnn_opts@, "provider_path"@, default_provider_path@);
    lemma_value_or(qnn_opts@, "backend_path"@, default_backend_path@);
}

/// A device belongs to QNN exactly where its provider's name is known and has `QNN` in it.
pub proof fn law_qnn_devices_say_so(name: Option<Seq<char>>)
    ensures
        is_qnn_name(name) <==> exists|a: Seq<char>, b: Seq<char>|
            name == Some(#[trigger] (a + "QNN"@ + b)),
{
    if let Some(text) = name {
        law_contained_text_stands_between(text, "QNN"@);
        if is_qnn_name(name) {
            let (a, b) = choose|a: Seq<char>, b: Seq<char>| text == #[trigger] (a + "QNN"@ + b);
            assert(name == Some(a + "QNN"@ + b));
        }
        if exists|a: Seq<char>, b: Seq<char>| name == Some(#[trigger] (a + "QNN"@ + b)) {
            let (a, b) = choose|a: Seq<char>, b: Seq<char>|
                name == Some(#[trigger] (a + "QNN"@ + b));
            assert(text == a + "QNN"@ + b);
        }
    }
}

/// The positions handed over are those of the devices whose provider's name has `QNN` in it,
/// all of them, in order and each once.
pub proof fn law_devices_of_qnn_are_found(names: &Vec<Option<String>>, r: Vec<usize>)
    requires
        call_ensures(qnn_devices, (names,), r),
    ensures
        forall|i: int|
            0 <= i < names@.len() ==> ((#[trigger] names@[i] is Some && exists|
                a: Seq<char>,
                b: Seq<char>,
            |
                names@[i]->0@ == #[trigger] (a + "QNN"@ + b)) <==> r@.contains(i as usize)),
        forall|k: int| 0 <= k < r@.len() ==> #[trigger] r@[k] < names@.len(),
        forall|j: int, k: int| 0 <= j < k < r@.len() ==> #[trigger] r@[j] < #[trigger] r@[k],
{
    assert(names.len() == names@.len());
    lemma_devices_found(names@, r@);
}

/// Positions that are those of the QNN devices, as machine integers.
proof fn lemma_devices_found(names: Seq<Option<String>>, r: Seq<usize>)
    requires
        r.map_values(|i: usize| i as int) == qnn_positions(name_views(names)),
        names.len() <= usize::MAX,
    ensures
        forall|i: int|
            0 <= i < names.len() ==> ((#[trigger] names[i] is Some && exists|
                a: Seq<char>,
                b: Seq<char>,
            |
                names[i]->0@ == #[trigger] (a + "QNN"@ + b)) <==> r.contains(i as usize)),
        forall|k: int| 0 <= k < r.len() ==> #[trigger] r[k] < names.len(),
        forall|j: int, k: int| 0 <= j < k < r.len() ==> #[trigger] r[j] < #[trigger] r[k],
{
    let all = name_views(names);
    let wide = r.map_values(|i: usize| i as int);
    law_all_qnn_devices_are_selected(all);
    assert forall|k: int| 0 <= k < r.len() implies #[trigger] wide[k] == r[k] by {}
    assert forall|i: int| 0 <= i < names.len() implies ((#[trigger] names[i] is Some && exists|
        a: Seq<char>,
        b: Seq<char>,
    |
        names[i]->0@ == #[trigger] (a + "QNN"@ + b)) <==> r.contains(i as usize)) by {
        assert(all[i] == optional_view(names[i]));
        law_qnn_devices_say_so(all[i]);
        if names[i] is Some {
            let text = names[i]->0@;
            law_contained_text_stands_between(text, "QNN"@);
        }
        if wide.contains(i) {
            let k = choose|k: int| 0 <= k < wide.len() && wide[k] == i;
            assert(r[k] == i as usize);
        }
        if r.contains(i as usize) {
            let k = choose|k: int| 0 <= k < r.len() && r[k] == i as usize;
            assert(wide[k] == i);
        }
    }
    assert forall|k: int| 0 <= k < r.len() implies #[trigger] r[k] < names.len() by {
        assert(wide[k] < all.len());
    }
    assert forall|j: int, k: int| 0 <= j < k < r.len() implies #[trigger] r[j]
        < #[trigger] r[k] by {
        assert(wide[j] < wide[k]);
    }
}

/// Entries are read in order: those of the front and then those of the back; the first entry
/// that cannot be read is what the list is refused for.
pub proof fn law_entries_are_read_in_order(front: Seq<Seq<char>>, back: Seq<Seq<char>>)
    ensures
        match (entry_pairs(front), entry_pairs(back)) {
            (Err(entry), _) => entry_pairs(front + back) == Err::<
                Seq<(Seq<char>, Seq<char>)>,
                Seq<char>,
            >(entry),
            (Ok(_), Err(entry)) => entry_pairs(front + back) == Err::<
                Seq<(Seq<char>, Seq<char>)>,
                Seq<char>,
            >(entry),
            (Ok(a), Ok(b)) => entry_pairs(front + back) == Ok::<
                Seq<(Seq<char>, Seq<char>)>,
                Seq<char>,
            >(a + b),
        },
    decreases back.len(),
{
    if back.len() == 0 {
        assert(front + back == front);
        if let Ok(a) = entry_pairs(front) {
            assert(a + Seq::<(Seq<char>, Seq<char>)>::empty() == a);
        }
    } else {
        let rest = back.drop_last();
        law_entries_are_read_in_order(front, rest);
        assert((front + back).drop_last() == front + rest);
        assert((front + back).last() == back.last());
        if let (Ok(a), Ok(b)) = (entry_pairs(front), entry_pairs(rest)) {
            let pair = entry_pair(back.last());
            assert((a + b).push(pair) == a + b.push(pair));
        }
    }
}

/// A blank entry is skipped; another one is split at its first equals sign into a key and a
/// value, both trimmed, and is refused where it has none.
pub proof fn law_one_entry_is_read(entry: Seq<char>)
    ensures
        ({
            let read = entry_pairs(seq![entry]);
            &&& trimmed(entry).len() == 0 ==> read == Ok::<
                Seq<(Seq<char>, Seq<char>)>,
                Seq<char>,
            >(Seq::empty())
            &&& trimmed(entry).len() > 0 && !entry.contains('=') ==> read == Err::<
                Seq<(Seq<char>, Seq<char>)>,
                Seq<char>,
            >(entry)
            &&& forall|key: Seq<char>, value: Seq<char>|
                trimmed(entry).len() > 0 && !key.contains('=') && entry == #[trigger] (key + (
                seq!['='] + value)) ==> read == Ok::<Seq<(Seq<char>, Seq<char>)>, Seq<char>>(
                    seq![(trimmed(key), trimmed(value))],
                )
        }),
{
    let one = seq![entry];
    assert(one.drop_last() == Seq::<Seq<char>>::empty());
    assert(one.last() == entry);
    reveal_with_fuel(entry_pairs, 2);
    assert forall|key: Seq<char>, value: Seq<char>|
        trimmed(entry).len() > 0 && !key.contains('=') && entry == #[trigger] (key + (seq!['=']
            + value)) implies entry_pairs(one) == Ok::<Seq<(Seq<char>, Seq<char>)>, Seq<char>>(
        seq![(trimmed(key), trimmed(value))],
    ) by {
        assert(entry == key + seq!['='] + value);
        assert(entry[key.len() as int] == '=');
        law_entry_reads_back(key, value);
        assert(Seq::<(Seq<char>, Seq<char>)>::empty().push(entry_pair(entry)) == seq![
            (trimmed(key), trimmed(value)),
        ]);
    }
}

/// What entries are read as: one pair for each entry that is not blank; or the first entry
/// that is neither blank nor has an equals sign.
proof fn lemma_entries_read(entries: Seq<Seq<char>>)
    ensures
        match entry_pairs(entries) {
            Ok(read) => {
                let written = entries.filter(|e: Seq<char>| trimmed(e).len() > 0);
                &&& read.len() == written.len()
                &&& forall|k: int|
                    0 <= k < read.len() ==> (#[trigger] written[k]).contains('=') && read[k] == (
                        trimmed(before_first(written[k], '=')),
                        trimmed(
                            written[k].skip(before_first(written[k], '=').len() as int + 1),
                        ),
                    )
            },
            Err(entry) => exists|i: int|
                0 <= i < entries.len() && #[trigger] entries[i] == entry && trimmed(entry).len() > 0
                    && !entry.contains('=') && forall|j: int|
                    0 <= j < i ==> trimmed(#[trigger] entries[j]).len() == 0
                        || entries[j].contains('='),
        },
    decreases entries.len(),
{
    reveal(Seq::filter);
    if entries.len() > 0 {
        let front = entries.drop_last();
        lemma_entries_read(front);
        lemma_entries_readable(front);
        match entry_pairs(front) {
            Ok(_) => {
                if entry_pairs(entries) is Err {
                    let i = entries.len() - 1;
                    assert(entries[i] == entries.last());
                    assert forall|j: int| 0 <= j < i implies trimmed(#[trigger] entries[j]).len()
                        == 0 || entries[j].contains('=') by {
                        assert(is_readable(front[j]));
                    }
                }
            },
            Err(entry) => {
                let i = choose|i: int|
                    0 <= i < front.len() && #[trigger] front[i] == entry && trimmed(entry).len() > 0
                        && !entry.contains('=') && forall|j: int|
                        0 <= j < i ==> trimmed(#[trigger] front[j]).len() == 0
                            || front[j].contains('=');
                assert(entries[i] == entry);
                assert forall|j: int| 0 <= j < i implies trimmed(#[trigger] entries[j]).len() == 0
                    || entries[j].contains('=') by {
                    assert(front[j] == entries[j]);
                }
            },
        }
    }
}

/// The environment's options are read entry by entry: one pair for each entry that is not
/// blank, split at its first equals sign and trimmed; or a refusal that shows the first entry
/// without an equals sign.
pub proof fn law_environment_options_are_read(
    extra: &str,
    r: Result<Vec<(String, String)>, Error>,
)
    requires
        call_ensures(read_entries, (extra,), r),
    ensures
        match r {
            Ok(read) => {
                let written = segments(extra@, ',').filter(|e: Seq<char>| trimmed(e).len() > 0);
                &&& read@.len() == written.len()
                &&& forall|k: int|
                    0 <= k < read@.len() ==> (#[trigger] written[k]).contains('=') && read@[k].0@
                        == trimmed(before_first(written[k], '=')) && read@[k].1@ == trimmed(
                        written[k].skip(before_first(written[k], '=').len() as int + 1),
                    )
            },
            Err(e) => exists|i: int|
                0 <= i < segments(extra@, ',').len() && e.message@ == "ORTEX_QNN_OPTS entry "@
                    + quoted(#[trigger] segments(extra@, ',')[i]) + " is not k=v"@ && trimmed(
                    segments(extra@, ',')[i],
                ).len() > 0 && !segments(extra@, ',')[i].contains('=') && forall|j: int|
                    0 <= j < i ==> trimmed(#[trigger] segments(extra@, ',')[j]).len() == 0
                        || segments(extra@, ',')[j].contains('='),
        },
{
    let entries = segments(extra@, ',');
    lemma_entries_read(entries);
    if let Ok(read) = r {
        assert(pairs(read@).len() == read@.len());
        assert forall|k: int| 0 <= k < read@.len() implies #[trigger] pairs(read@)[k] == (
            read@[k].0@,
            read@[k].1@,
        ) by {}
    }
}

/// The refusal of an entry shows it.
pub proof fn law_refused_entry_is_shown(shown: &str, r: Error)
    requires
        call_ensures(not_an_entry, (shown,), r),
    ensures
        r.message@ == "ORTEX_QNN_OPTS entry "@ + shown@ + " is not k=v"@,
{
}

/// What is handed to the execution provider, in order and under the provider's name: the
/// backend, then every pair of the options whose key is neither reserved nor that of an
/// environment variable, then one pair for each entry of `ORTEX_QNN_OPTS` that is not blank.
/// Nothing is left out, whatever the others are.
pub proof fn law_provider_gets_all_its_options(
    qnn_opts: &[(String, String)],
    paths: &QnnPaths,
    device_eps: &Vec<Option<String>>,
    extra: &str,
    setup: QnnSetup,
)
    requires
        call_ensures(with_qnn, (qnn_opts, paths, device_eps, extra), Ok(setup)),
    ensures
        setup.devices@.len() > 0,
        setup.devices@[0] < device_eps@.len(),
        device_eps@[setup.devices@[0] as int] is Some,
        ({
            let ep = device_eps@[setup.devices@[0] as int]->0@;
            let options = setup.options@;
            let own = qnn_opts@.filter(
                |p: (String, String)| !is_reserved_key(p.0@) && !is_env_key(p.0@),
            );
            let written = segments(extra@, ',').filter(|e: Seq<char>| trimmed(e).len() > 0);
            &&& options.len() == 1 + own.len() + written.len()
            &&& options[0].0@ == ep + "."@ + "backend_path"@
            &&& options[0].1@ == paths.backend_path@
            &&& forall|k: int|
                1 <= k < 1 + own.len() ==> (#[trigger] options[k]).0@ == ep + "."@ + own[k - 1].0@
                    && options[k].1@ == own[k - 1].1@
            &&& forall|k: int|
                1 + own.len() <= k < options.len() ==> {
                    let entry = written[k - 1 - own.len()];
                    let at = before_first(entry, '=').len() as int;
                    &&& (#[trigger] options[k]).0@ == ep + "."@ + trimmed(entry.take(at))
                    &&& options[k].1@ == trimmed(entry.skip(at + 1))
                }
            &&& forall|j: int| 0 <= j < written.len() ==> (#[trigger] written[j]).contains('=')
        }),
{
    let names = name_views(device_eps@);
    let positions = qnn_positions(names);
    let opts = pairs(qnn_opts@);
    lemma_qnn_positions(names);
    let wide = setup.devices@.map_values(|i: usize| i as int);
    assert(wide == positions);
    assert(wide[0] == setup.devices@[0]);
    assert(is_qnn_name(names[positions[0]]));
    let first = setup.devices@[0] as int;
    assert(names[first] == optional_view(device_eps@[first]));
    let ep = device_eps@[first]->0@;
    let options = setup.options@;
    let own_key = |p: (String, String)| !is_reserved_key(p.0@) && !is_env_key(p.0@);
    let own_pair = |p: (Seq<char>, Seq<char>)| is_forwarded_key(p.0);
    let see = |p: (String, String)| (p.0@, p.1@);
    assert(forall|p: (String, String)| #[trigger] own_key(p) == own_pair(see(p)));
    lemma_filter_through_map(qnn_opts@, see, own_key, own_pair);
    let own = qnn_opts@.filter(own_key);
    assert(opts == qnn_opts@.map_values(see));
    assert(forwarded(opts) == own.map_values(see));
    let entries = segments(extra@, ',');
    lemma_entries_read(entries);
    let read = entry_pairs(entries)->Ok_0;
    let written = entries.filter(|e: Seq<char>| trimmed(e).len() > 0);
    let bare = seq![("backend_path"@, paths.backend_path@)] + forwarded(opts) + read;
    assert(pairs(options) == prefixed_pairs(ep, bare));
    assert(pairs(options).len() == options.len() && prefixed_pairs(ep, bare).len() == bare.len());
    assert forall|k: int| 0 <= k < options.len() implies (#[trigger] options[k]).0@ == ep + "."@
        + bare[k].0 && options[k].1@ == bare[k].1 by {
        assert(pairs(options)[k] == (options[k].0@, options[k].1@));
        assert(prefixed_pairs(ep, bare)[k] == (prefixed(ep, bare[k].0), bare[k].1));
    }
    assert(bare[0] == ("backend_path"@, paths.backend_path@));
    assert forall|k: int| 1 <= k < 1 + own.len() implies (#[trigger] options[k]).0@ == ep + "."@
        + own[k - 1].0@ && options[k].1@ == own[k - 1].1@ by {
        assert(bare[k] == see(own[k - 1]));
    }
    assert forall|k: int| 1 + own.len() <= k < options.len() implies ({
        let entry = written[k - 1 - own.len()];
        let at = before_first(entry, '=').len() as int;
        &&& (#[trigger] options[k]).0@ == ep + "."@ + trimmed(entry.take(at))
        &&& options[k].1@ == trimmed(entry.skip(at + 1))
    }) by {
        let entry = written[k - 1 - own.len()];
        assert(bare[k] == read[k - 1 - own.len()]);
        law_before_first_stops_at_first(entry, '=');
    }
}

/// Every pair of the options whose key is neither reserved nor that of an environment variable
/// reaches the execution provider under the provider's name.
pub proof fn law_every_own_option_reaches_the_provider(
    qnn_opts: &[(String, String)],
    paths: &QnnPaths,
    device_eps: &Vec<Option<String>>,
    extra: &str,
    setup: QnnSetup,
    i: int,
)
    requires
        call_ensures(with_qnn, (qnn_opts, paths, device_eps, extra), Ok(setup)),
        0 <= i < qnn_opts@.len(),
        !is_reserved_key(qnn_opts@[i].0@),
        !is_env_key(qnn_opts@[i].0@),
    ensures
        exists|k: int|
            1 <= k < setup.options@.len() && (#[trigger] setup.options@[k]).0@
                == device_eps@[setup.devices@[0] as int]->0@ + "."@ + qnn_opts@[i].0@
                && setup.options@[k].1@ == qnn_opts@[i].1@,
{
    law_provider_gets_all_its_options(qnn_opts, paths, device_eps, extra, setup);
    let own_key = |p: (String, String)| !is_reserved_key(p.0@) && !is_env_key(p.0@);
    let own = qnn_opts@.filter(own_key);
    broadcast use vstd::seq_lib::group_filter_ensures;

    assert(own_key(qnn_opts@[i]));
    assert(own.contains(qnn_opts@[i]));
    let k = choose|k: int| 0 <= k < own.len() && own[k] == qnn_opts@[i];
    assert(setup.options@[k + 1].1@ == own[k].1@);
}

/// A request for QNN selects the devices whose provider's name has `QNN` in it, all of them,
/// in order and each once. It fails where there is none, and says what was there; and where an
/// entry of `ORTEX_QNN_OPTS` cannot be read, and shows the first such entry. It fails for
/// nothing else.
pub proof fn law_qnn_request_is_answered(
    qnn_opts: &[(String, String)],
    paths: &QnnPaths,
    device_eps: &Vec<Option<String>>,
    extra: &str,
    r: Result<QnnSetup, Error>,
)
    requires
        call_ensures(with_qnn, (qnn_opts, paths, device_eps, extra), r),
    ensures
        ({
            let entries = segments(extra@, ',');
            let found = exists|i: int|
                0 <= i < device_eps@.len() && is_qnn_name(
                    optional_view(#[trigger] device_eps@[i]),
                );
            let readable = forall|j: int|
                0 <= j < entries.len() ==> trimmed(#[trigger] entries[j]).len() == 0
                    || entries[j].contains('=');
            match r {
                Ok(setup) => {
                    &&& found && readable
                    &&& forall|i: int|
                        0 <= i < device_eps@.len() ==> (setup.devices@.contains(i as usize)
                            <==> is_qnn_name(optional_view(#[trigger] device_eps@[i])))
                    &&& forall|k: int|
                        0 <= k < setup.devices@.len() ==> #[trigger] setup.devices@[k]
                            < device_eps@.len()
                    &&& forall|j: int, k: int|
                        0 <= j < k < setup.devices@.len() ==> #[trigger] setup.devices@[j]
                            < #[trigger] setup.devices@[k]
                },
                Err(e) => if !found {
                    e.message@ == "no QNN device found after registering "@ + paths.provider_path@
                        + "; devices seen: ["@ + joined(
                        device_eps@.map_values(
                            |n: Option<String>|
                                match n {
                                    Some(text) => text@,
                                    None => "<unknown>"@,
                                },
                        ),
                        ", "@,
                    ) + "]; backend "@ + paths.backend_path@
                } else {
                    exists|i: int|
                        0 <= i < entries.len() && e.message@ == "ORTEX_QNN_OPTS entry "@ + quoted(
                            #[trigger] entries[i],
                        ) + " is not k=v"@ && trimmed(entries[i]).len() > 0
                            && !entries[i].contains('=') && forall|j: int|
                            0 <= j < i ==> trimmed(#[trigger] entries[j]).len() == 0
                                || entries[j].contains('=')
                },
            }
        }),
{
    let names = name_views(device_eps@);
    let entries = segments(extra@, ',');
    let positions = qnn_positions(names);
    assert(device_eps.len() == device_eps@.len());
    law_success_conditions(
        names,
        paths.provider_path@,
        paths.backend_path@,
        pairs(qnn_opts@),
        extra@,
    );
    lemma_entries_read(entries);
    lemma_qnn_positions(names);
    law_all_qnn_devices_are_selected(names);
    assert forall|i: int| 0 <= i < names.len() implies #[trigger] names[i] == optional_view(
        device_eps@[i],
    ) by {}
    assert(forall|i: int|
        0 <= i < device_eps@.len() ==> names[i] == optional_view(#[trigger] device_eps@[i]));
    match r {
        Ok(setup) => {
            let wide = setup.devices@.map_values(|i: usize| i as int);
            assert(wide == positions);
            assert forall|k: int| 0 <= k < wide.len() implies #[trigger] wide[k]
                == setup.devices@[k] by {}
            assert(wide[0] == setup.devices@[0]);
            assert(is_qnn_name(names[positions[0]]));
            assert forall|i: int| 0 <= i < device_eps@.len() implies (setup.devices@.contains(
                i as usize,
            ) <==> is_qnn_name(optional_view(#[trigger] device_eps@[i]))) by {
                assert(is_qnn_name(names[i]) <==> positions.contains(i));
                if wide.contains(i) {
                    let k = choose|k: int| 0 <= k < wide.len() && wide[k] == i;
                    assert(setup.devices@[k] == i as usize);
                }
                if setup.devices@.contains(i as usize) {
                    let k = choose|k: int|
                        0 <= k < setup.devices@.len() && setup.devices@[k] == i as usize;
                    assert(wide[k] == i);
                }
            }
            assert forall|k: int| 0 <= k < setup.devices@.len() implies #[trigger] setup.devices@[k]
                < device_eps@.len() by {
                assert(wide[k] < names.len());
            }
            assert forall|j: int, k: int|
                0 <= j < k < setup.devices@.len() implies #[trigger] setup.devices@[j]
                < #[trigger] setup.devices@[k] by {
                assert(wide[j] < wide[k]);
            }
            assert forall|j: int| 0 <= j < entries.len() implies trimmed(
                #[trigger] entries[j],
            ).len() == 0 || entries[j].contains('=') by {
                assert(is_readable(entries[j]));
            }
        },
        Err(e) => {
            let shown = device_eps@.map_values(
                |n: Option<String>|
                    match n {
                        Some(text) => text@,
                        None => "<unknown>"@,
                    },
            );
            assert(names.map_values(|n: Option<Seq<char>>| shown_name(n)) == shown);
            if positions.len() > 0 {
                let i = positions[0];
                assert(is_qnn_name(names[i]));
                assert(is_qnn_name(optional_view(device_eps@[i])));
            }
        },
    }
}

} // verus!
