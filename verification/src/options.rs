//! Session options: a list of key and value texts, searched from the front.
//!
//! The keys fall into three groups. Keys that begin with `env.` name environment variables
//! to set. Reserved keys configure this library. All others are options of the QNN
//! execution provider.

use crate::error::Error;
use crate::lists::{lemma_filter_is_part, lemma_filter_through_map};
use crate::numeral::{law_numbers_are_read_from_numerals, numeral, read_usize, usize_denoted};
use crate::text::{
    begins_with, law_prefix_stands_first, optional_view, same_text, strip_prefix,
};
use vstd::prelude::*;

verus! {

/// The characters of each key and value.
pub open spec fn pairs(opts: Seq<(String, String)>) -> Seq<(Seq<char>, Seq<char>)> {
    opts.map_values(|p: (String, String)| (p.0@, p.1@))
}

/// The value of the first pair with the given key.
pub open spec fn first_value(opts: Seq<(Seq<char>, Seq<char>)>, key: Seq<char>) -> Option<Seq<char>>
    decreases opts.len(),
{
    if opts.len() == 0 {
        None
    } else if opts[0].0 == key {
        Some(opts[0].1)
    } else {
        first_value(opts.drop_first(), key)
    }
}

/// How a text is shown in a message: in double quotes, with the characters escaped that
/// the `Debug` format of `str` escapes.
pub uninterp spec fn quoted(s: Seq<char>) -> Seq<char>;

/// Formats a text with `Debug` of `str`; the result is named `quoted`, which characters are
/// escaped and how is not stated.
#[verifier::external_body]
pub(crate) fn quote(s: &str) -> (r: String)
    ensures
        r@ == quoted(s@),
{
    format!("{:?}", s)
}

/// The value under `key`: that of the first pair that has it.
pub fn lookup(opts: &[(String, String)], key: &str) -> (r: Option<String>)
    ensures
        optional_view(r) == first_value(pairs(opts@), key@),
{
    let mut i: usize = 0;
    assert(pairs(opts@).skip(0) == pairs(opts@));
    while i < opts.len()
        invariant
            i <= opts@.len(),
            first_value(pairs(opts@), key@) == first_value(pairs(opts@).skip(i as int), key@),
        decreases opts@.len() - i,
    {
        let ghost rest = pairs(opts@).skip(i as int);
        assert(rest[0] == (opts@[i as int].0@, opts@[i as int].1@));
        if same_text(opts[i].0.as_str(), key) {
            return Some(opts[i].1.clone());
        }
        assert(rest.drop_first() == pairs(opts@).skip(i + 1));
        i = i + 1;
    }
    None
}

/// The message for a value that is no non-negative integer; `shown` is the value, quoted.
pub open spec fn usize_complaint(key: Seq<char>, shown: Seq<char>) -> Seq<char> {
    key + " must be a non-negative integer, got "@ + shown
}

/// The failure for a value that is no non-negative integer; `shown` is the value, quoted.
pub fn not_an_integer(key: &str, shown: &str) -> (r: Error)
    ensures
        r@ == usize_complaint(key@, shown@),
{
    Error::new(key.to_owned().concat(" must be a non-negative integer, got ").concat(shown))
}

/// Reads the value of `key` as a non-negative integer.
pub fn parse_usize(key: &str, value: &str) -> (r: Result<usize, Error>)
    ensures
        match r {
            Ok(n) => usize_denoted(value@) == Some(n),
            Err(e) => usize_denoted(value@) is None && e@ == usize_complaint(
                key@,
                quoted(value@),
            ),
        },
{
    match read_usize(value) {
        Some(n) => Ok(n),
        None => Err(not_an_integer(key, quote(value).as_str())),
    }
}

/// The truth value that a text denotes.
pub open spec fn bool_denoted(s: Seq<char>) -> Option<bool> {
    if s == "1"@ || s == "true"@ || s == "yes"@ || s == "on"@ {
        Some(true)
    } else if s == "0"@ || s == "false"@ || s == "no"@ || s == "off"@ {
        Some(false)
    } else {
        None
    }
}

/// The message for a value that is no truth value; `shown` is the value, quoted.
pub open spec fn bool_complaint(key: Seq<char>, shown: Seq<char>) -> Seq<char> {
    key + " must be a boolean, got "@ + shown
}

/// The failure for a value that is no truth value; `shown` is the value, quoted.
pub fn not_a_boolean(key: &str, shown: &str) -> (r: Error)
    ensures
        r@ == bool_complaint(key@, shown@),
{
    Error::new(key.to_owned().concat(" must be a boolean, got ").concat(shown))
}

/// Reads the value of `key` as a truth value.
pub fn parse_bool(key: &str, value: &str) -> (r: Result<bool, Error>)
    ensures
        match r {
            Ok(b) => bool_denoted(value@) == Some(b),
            Err(e) => bool_denoted(value@) is None && e@ == bool_complaint(key@, quoted(value@)),
        },
{
    if same_text(value, "1") || same_text(value, "true") || same_text(value, "yes") || same_text(
        value,
        "on",
    ) {
        Ok(true)
    } else if same_text(value, "0") || same_text(value, "false") || same_text(value, "no")
        || same_text(value, "off") {
        Ok(false)
    } else {
        Err(not_a_boolean(key, quote(value).as_str()))
    }
}

/// The keys that configure this library rather than the QNN execution provider.
pub open spec fn is_reserved_key(key: Seq<char>) -> bool {
    ||| key == "backend_path"@
    ||| key == "provider_path"@
    ||| key == "trace_path"@
    ||| key == "intra_threads"@
    ||| key == "inter_threads"@
    ||| key == "intra_op_spinning"@
    ||| key == "inter_op_spinning"@
}

/// Whether a key configures this library rather than the QNN execution provider.
pub fn is_reserved(key: &str) -> (r: bool)
    ensures
        r == is_reserved_key(key@),
{
    same_text(key, "backend_path") || same_text(key, "provider_path") || same_text(
        key,
        "trace_path",
    ) || same_text(key, "intra_threads") || same_text(key, "inter_threads") || same_text(
        key,
        "intra_op_spinning",
    ) || same_text(key, "inter_op_spinning")
}

/// A key that names an environment variable.
pub open spec fn is_env_key(key: Seq<char>) -> bool {
    begins_with(key, "env."@)
}

/// A key whose pair goes to the QNN execution provider.
pub open spec fn is_forwarded_key(key: Seq<char>) -> bool {
    !is_reserved_key(key) && !is_env_key(key)
}

/// The environment variables that the options set, in order, with their values.
pub open spec fn env_assignments(opts: Seq<(Seq<char>, Seq<char>)>) -> Seq<(Seq<char>, Seq<char>)> {
    opts.filter(|p: (Seq<char>, Seq<char>)| is_env_key(p.0)).map_values(
        |p: (Seq<char>, Seq<char>)| (p.0.skip("env."@.len() as int), p.1),
    )
}

/// The environment variables that the options set, in order, with their values.
pub fn env_settings(opts: &[(String, String)]) -> (r: Vec<(String, String)>)
    ensures
        pairs(r@) == env_assignments(pairs(opts@)),
{
    let mut out: Vec<(String, String)> = Vec::new();
    let mut i: usize = 0;
    let ghost all = pairs(opts@);
    assert(pairs(out@) == env_assignments(all.take(0))) by {
        reveal(Seq::filter);
    }
    while i < opts.len()
        invariant
            i <= opts@.len(),
            all == pairs(opts@),
            pairs(out@) == env_assignments(all.take(i as int)),
        decreases opts@.len() - i,
    {
        let ghost before = pairs(out@);
        let ghost pair = all[i as int];
        assert(all.take(i + 1).drop_last() == all.take(i as int));
        proof {
            reveal(Seq::filter);
        }
        if let Some(var) = strip_prefix(opts[i].0.as_str(), "env.") {
            out.push((var.to_owned(), opts[i].1.clone()));
            assert(pairs(out@) == before.push((pair.0.skip("env."@.len() as int), pair.1)));
            assert(env_assignments(all.take(i + 1)) == before.push(
                (pair.0.skip("env."@.len() as int), pair.1),
            ));
        } else {
            assert(env_assignments(all.take(i + 1)) == before);
        }
        i = i + 1;
    }
    assert(all.take(opts@.len() as int) == all);
    out
}

/// The value found is that of the first pair with the key.
pub proof fn law_lookup_finds_first(opts: Seq<(Seq<char>, Seq<char>)>, key: Seq<char>, i: int)
    requires
        0 <= i < opts.len(),
        opts[i].0 == key,
        forall|j: int| 0 <= j < i ==> (#[trigger] opts[j]).0 != key,
    ensures
        first_value(opts, key) == Some(opts[i].1),
    decreases i,
{
    if i > 0 {
        let rest = opts.drop_first();
        assert(opts[0].0 != key);
        assert forall|j: int| 0 <= j < i - 1 implies (#[trigger] rest[j]).0 != key by {
            assert(rest[j] == opts[j + 1]);
        }
        law_lookup_finds_first(rest, key, i - 1);
    }
}

/// Nothing is found exactly where no pair has the key.
pub proof fn law_lookup_misses_absent(opts: Seq<(Seq<char>, Seq<char>)>, key: Seq<char>)
    ensures
        first_value(opts, key) is None <==> forall|i: int|
            0 <= i < opts.len() ==> (#[trigger] opts[i]).0 != key,
    decreases opts.len(),
{
    if opts.len() > 0 && opts[0].0 != key {
        let rest = opts.drop_first();
        law_lookup_misses_absent(rest, key);
        assert forall|i: int| 0 <= i < rest.len() implies #[trigger] rest[i] == opts[i + 1] by {}
        if first_value(opts, key) is None {
            assert forall|i: int| 0 <= i < opts.len() implies (#[trigger] opts[i]).0 != key by {
                if i > 0 {
                    assert(rest[i - 1].0 != key);
                }
            }
        }
    }
}

/// Pairs behind others are found only under keys that the others lack.
pub proof fn law_earlier_pairs_win(
    front: Seq<(Seq<char>, Seq<char>)>,
    back: Seq<(Seq<char>, Seq<char>)>,
    key: Seq<char>,
)
    ensures
        first_value(front + back, key) == (match first_value(front, key) {
            Some(value) => Some(value),
            None => first_value(back, key),
        }),
    decreases front.len(),
{
    if front.len() == 0 {
        assert(front + back == back);
    } else {
        assert((front + back).drop_first() == front.drop_first() + back);
        law_earlier_pairs_win(front.drop_first(), back, key);
    }
}

/// Each key is in exactly one group: it is reserved, or names an environment variable, or
/// goes to the execution provider.
pub proof fn law_keys_have_one_group(key: Seq<char>)
    ensures
        is_reserved_key(key) ==> !is_env_key(key) && !is_forwarded_key(key),
        is_env_key(key) ==> !is_reserved_key(key) && !is_forwarded_key(key),
        is_reserved_key(key) || is_env_key(key) || is_forwarded_key(key),
{
    reveal_strlit("env.");
    reveal_strlit("backend_path");
    reveal_strlit("provider_path");
    reveal_strlit("trace_path");
    reveal_strlit("intra_threads");
    reveal_strlit("inter_threads");
    reveal_strlit("intra_op_spinning");
    reveal_strlit("inter_op_spinning");
    if is_env_key(key) {
        assert(key.take(4)[0] == 'e');
    }
}

/// A variable is set to a value exactly where the options hold the value under the
/// variable's name behind `env.`.
pub proof fn law_env_options_are_set(
    opts: Seq<(Seq<char>, Seq<char>)>,
    var: Seq<char>,
    value: Seq<char>,
)
    ensures
        env_assignments(opts).contains((var, value)) <==> opts.contains(("env."@ + var, value)),
{
    let keep = |p: (Seq<char>, Seq<char>)| is_env_key(p.0);
    let strip = |p: (Seq<char>, Seq<char>)| (p.0.skip("env."@.len() as int), p.1);
    let kept = opts.filter(keep);
    let whole = ("env."@ + var, value);
    broadcast use vstd::seq_lib::group_filter_ensures;

    assert(whole.0.take("env."@.len() as int) == "env."@);
    assert(whole.0.skip("env."@.len() as int) == var);
    assert(keep(whole));
    if opts.contains(whole) {
        assert(kept.contains(whole));
        let i = choose|i: int| 0 <= i < kept.len() && kept[i] == whole;
        assert(env_assignments(opts)[i] == (var, value));
    }
    if env_assignments(opts).contains((var, value)) {
        let i = choose|i: int|
            0 <= i < env_assignments(opts).len() && env_assignments(opts)[i] == (var, value);
        let p = kept[i];
        lemma_filter_is_part(opts, keep, i);
        assert(strip(p) == (var, value));
        assert(keep(p));
        assert(p.0 == p.0.take("env."@.len() as int) + p.0.skip("env."@.len() as int));
        assert(p == whole);
    }
}

/// The variables of a list of options are set in the order of the options.
pub proof fn law_env_options_keep_order(
    front: Seq<(Seq<char>, Seq<char>)>,
    back: Seq<(Seq<char>, Seq<char>)>,
)
    ensures
        env_assignments(front + back) == env_assignments(front) + env_assignments(back),
{
    Seq::filter_distributes_over_add(front, back, |p: (Seq<char>, Seq<char>)| is_env_key(p.0));
}

/// Options are seen as the characters of each key and value, pair for pair.
pub proof fn law_pairs_keep_keys_and_values(opts: Seq<(String, String)>, i: int)
    requires
        0 <= i < opts.len(),
    ensures
        pairs(opts).len() == opts.len(),
        pairs(opts)[i].0 == opts[i].0@,
        pairs(opts)[i].1 == opts[i].1@,
{
}

/// A look-up gives the value of a pair that has the key and that no pair with the key
/// precedes, or nothing where no pair has it.
pub proof fn law_lookup_gives_value_of_first_pair(
    opts: &[(String, String)],
    key: &str,
    r: Option<String>,
)
    requires
        call_ensures(lookup, (opts, key), r),
    ensures
        match r {
            Some(value) => exists|i: int|
                0 <= i < opts@.len() && (#[trigger] opts@[i]).0@ == key@ && opts@[i].1@ == value@
                    && forall|j: int| 0 <= j < i ==> (#[trigger] opts@[j]).0@ != key@,
            None => forall|j: int| 0 <= j < opts@.len() ==> (#[trigger] opts@[j]).0@ != key@,
        },
{
    let all = pairs(opts@);
    law_lookup_misses_absent(all, key@);
    match r {
        Some(value) => {
            let i = lemma_first_pair(all, key@);
            law_lookup_finds_first(all, key@, i);
            assert(opts@[i].0@ == key@ && opts@[i].1@ == value@);
            assert forall|j: int| 0 <= j < i implies (#[trigger] opts@[j]).0@ != key@ by {
                assert(all[j].0 == opts@[j].0@);
            }
        },
        None => {
            assert forall|j: int| 0 <= j < opts@.len() implies (#[trigger] opts@[j]).0@
                != key@ by {
                assert(all[j].0 == opts@[j].0@);
            }
        },
    }
}

/// Where some pair has a key, there is a first one.
proof fn lemma_first_pair(opts: Seq<(Seq<char>, Seq<char>)>, key: Seq<char>) -> (i: int)
    requires
        exists|i: int| 0 <= i < opts.len() && (#[trigger] opts[i]).0 == key,
    ensures
        0 <= i < opts.len(),
        opts[i].0 == key,
        forall|j: int| 0 <= j < i ==> (#[trigger] opts[j]).0 != key,
    decreases opts.len(),
{
    if opts[0].0 == key {
        0
    } else {
        let rest = opts.drop_first();
        let k = choose|k: int| 0 <= k < opts.len() && (#[trigger] opts[k]).0 == key;
        assert(rest[k - 1].0 == key);
        let i = lemma_first_pair(rest, key);
        assert forall|j: int| 0 <= j < i + 1 implies (#[trigger] opts[j]).0 != key by {
            if j > 0 {
                assert(rest[j - 1] == opts[j]);
            }
        }
        i + 1
    }
}

/// A truth value is read from eight words and from no other text.
pub proof fn law_truth_values_have_their_words(key: &str, value: &str, r: Result<bool, Error>)
    requires
        call_ensures(parse_bool, (key, value), r),
    ensures
        r == Ok::<bool, Error>(true) <==> seq!["1"@, "true"@, "yes"@, "on"@].contains(value@),
        r == Ok::<bool, Error>(false) <==> seq!["0"@, "false"@, "no"@, "off"@].contains(value@),
        r matches Err(e) ==> e.message@ == key@ + " must be a boolean, got "@ + quoted(value@),
{
    let yes = seq!["1"@, "true"@, "yes"@, "on"@];
    let no = seq!["0"@, "false"@, "no"@, "off"@];
    assert(yes[0] == "1"@ && yes[1] == "true"@ && yes[2] == "yes"@ && yes[3] == "on"@);
    assert(no[0] == "0"@ && no[1] == "false"@ && no[2] == "no"@ && no[3] == "off"@);
    lemma_truth_words_differ();
}

/// No word stands for both truth values.
proof fn lemma_truth_words_differ()
    ensures
        forall|s: Seq<char>|
            #![trigger bool_denoted(s)]
            s == "0"@ || s == "false"@ || s == "no"@ || s == "off"@ ==> s != "1"@ && s != "true"@
                && s != "yes"@ && s != "on"@,
{
    reveal_strlit("1");
    reveal_strlit("true");
    reveal_strlit("yes");
    reveal_strlit("on");
    reveal_strlit("0");
    reveal_strlit("false");
    reveal_strlit("no");
    reveal_strlit("off");
    assert("1"@[0] == '1' && "0"@[0] == '0');
    assert("true"@[0] == 't' && "yes"@[0] == 'y' && "no"@[0] == 'n' && "on"@[0] == 'o');
    assert("false"@.len() == 5 && "off"@.len() == 3);
}

/// Eight words denote truth values, four each, and no other text does.
pub proof fn law_truth_words_denote(s: Seq<char>)
    ensures
        bool_denoted(s) == Some(true) <==> seq!["1"@, "true"@, "yes"@, "on"@].contains(s),
        bool_denoted(s) == Some(false) <==> seq!["0"@, "false"@, "no"@, "off"@].contains(s),
{
    let yes = seq!["1"@, "true"@, "yes"@, "on"@];
    let no = seq!["0"@, "false"@, "no"@, "off"@];
    assert(yes[0] == "1"@ && yes[1] == "true"@ && yes[2] == "yes"@ && yes[3] == "on"@);
    assert(no[0] == "0"@ && no[1] == "false"@ && no[2] == "no"@ && no[3] == "off"@);
    lemma_truth_words_differ();
}

/// A number is read from a value exactly where the value is a numeral of it; other values are
/// refused with their key and the value, quoted.
pub proof fn law_numbers_are_read_or_refused(
    key: &str,
    value: &str,
    n: usize,
    r: Result<usize, Error>,
)
    requires
        call_ensures(parse_usize, (key, value), r),
    ensures
        r == Ok::<usize, Error>(n) <==> exists|zeros: Seq<char>|
            (forall|i: int| 0 <= i < zeros.len() ==> zeros[i] == '0') && (value@ == #[trigger] (
            zeros + numeral(n as nat)) || value@ == seq!['+'] + (zeros + numeral(n as nat))),
        r matches Err(e) ==> e.message@ == key@ + " must be a non-negative integer, got "@
            + quoted(value@),
{
    law_numbers_are_read_from_numerals(value@, n);
}

/// The refusals of values that are no numbers or truth values name the key and show the value.
pub proof fn law_refusals_name_key_and_value(key: &str, shown: &str, r: Error)
    ensures
        call_ensures(not_an_integer, (key, shown), r) ==> r.message@ == key@
            + " must be a non-negative integer, got "@ + shown@,
        call_ensures(not_a_boolean, (key, shown), r) ==> r.message@ == key@
            + " must be a boolean, got "@ + shown@,
{
}

/// Seven keys are reserved, and no others.
pub proof fn law_reserved_keys_are_seven(key: &str, r: bool)
    requires
        call_ensures(is_reserved, (key,), r),
    ensures
        r == seq![
            "backend_path"@,
            "provider_path"@,
            "trace_path"@,
            "intra_threads"@,
            "inter_threads"@,
            "intra_op_spinning"@,
            "inter_op_spinning"@,
        ].contains(key@),
        r == is_reserved_key(key@),
{
    lemma_reserved_keys(key@);
}

/// Seven keys are reserved, and no others.
proof fn lemma_reserved_keys(key: Seq<char>)
    ensures
        is_reserved_key(key) <==> seq![
            "backend_path"@,
            "provider_path"@,
            "trace_path"@,
            "intra_threads"@,
            "inter_threads"@,
            "intra_op_spinning"@,
            "inter_op_spinning"@,
        ].contains(key),
{
    let all = seq![
        "backend_path"@,
        "provider_path"@,
        "trace_path"@,
        "intra_threads"@,
        "inter_threads"@,
        "intra_op_spinning"@,
        "inter_op_spinning"@,
    ];
    assert(all[0] == "backend_path"@ && all[1] == "provider_path"@ && all[2] == "trace_path"@);
    assert(all[3] == "intra_threads"@ && all[4] == "inter_threads"@);
    assert(all[5] == "intra_op_spinning"@ && all[6] == "inter_op_spinning"@);
}

/// A key names an environment variable exactly where it is `env.` and the variable's name.
pub proof fn law_env_keys_begin_with_env(key: Seq<char>)
    ensures
        is_env_key(key) <==> exists|var: Seq<char>| key == #[trigger] ("env."@ + var),
{
    law_prefix_stands_first(key, "env."@);
}

/// A pair under `env.` and a name sets the variable of that name to its value, once; any other
/// pair sets nothing.
pub proof fn law_each_env_option_sets_one_variable(key: Seq<char>, value: Seq<char>)
    ensures
        forall|var: Seq<char>|
            key == #[trigger] ("env."@ + var) ==> env_assignments(seq![(key, value)]) == seq![
                (var, value),
            ],
        (forall|var: Seq<char>| key != #[trigger] ("env."@ + var)) ==> env_assignments(
            seq![(key, value)],
        ).len() == 0,
{
    let one = seq![(key, value)];
    reveal(Seq::filter);
    assert(one.drop_last() == Seq::<(Seq<char>, Seq<char>)>::empty());
    law_env_keys_begin_with_env(key);
    assert forall|var: Seq<char>| key == #[trigger] ("env."@ + var) implies env_assignments(one)
        == seq![(var, value)] by {
        assert(key.skip("env."@.len() as int) == var);
        assert(is_env_key(key));
        assert(env_assignments(one) == seq![(key.skip("env."@.len() as int), value)]);
    }
    if !is_env_key(key) {
        assert(one.last() == (key, value));
        let keep = |p: (Seq<char>, Seq<char>)| is_env_key(p.0);
        assert(one.drop_last().filter(keep).len() == 0);
        assert(one.filter(keep).len() == 0);
    }
}

/// Environment variables are handed over just as the options hold them: without `env.`, in
/// order, with their values unchanged.
pub proof fn law_env_settings_follow_options(
    opts: &[(String, String)],
    r: Vec<(String, String)>,
)
    requires
        call_ensures(env_settings, (opts,), r),
    ensures
        ({
            let env = opts@.filter(
                |p: (String, String)| exists|v: Seq<char>| p.0@ == #[trigger] ("env."@ + v),
            );
            &&& r@.len() == env.len()
            &&& forall|k: int|
                0 <= k < env.len() ==> (#[trigger] env[k]).0@ == "env."@ + r@[k].0@ && env[k].1@
                    == r@[k].1@
        }),
{
    let named = |p: (String, String)| exists|v: Seq<char>| p.0@ == #[trigger] ("env."@ + v);
    let keep = |p: (Seq<char>, Seq<char>)| is_env_key(p.0);
    let env = opts@.filter(named);
    let see = |p: (String, String)| (p.0@, p.1@);
    assert forall|p: (String, String)| #[trigger] named(p) == keep(see(p)) by {
        law_env_keys_begin_with_env(p.0@);
    }
    lemma_filter_through_map(opts@, see, named, keep);
    let kept = pairs(opts@).filter(keep);
    assert(pairs(opts@) == opts@.map_values(see));
    assert(env.map_values(see) == kept);
    assert(pairs(r@).len() == kept.len());
    assert forall|k: int| 0 <= k < env.len() implies (#[trigger] env[k]).0@ == "env."@ + r@[k].0@
        && env[k].1@ == r@[k].1@ by {
        assert(kept[k] == see(env[k]));
        broadcast use vstd::seq_lib::group_filter_ensures;

        assert(keep(kept[k]));
        assert(pairs(r@)[k] == (kept[k].0.skip("env."@.len() as int), kept[k].1));
        let key = env[k].0@;
        let n = "env."@.len() as int;
        assert(key == key.take(n) + key.skip(n));
        assert(pairs(r@)[k] == (r@[k].0@, r@[k].1@));
    }
}

} // verus!
