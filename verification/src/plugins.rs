//! The plugins: each turns a decoded request and the configuration into
//! the command line of the player, and passes on what the start of the
//! player came to.
//!
//! The `play` plugin hands the target to the player as it is.  Its options
//! are the configured defaults, over which the options of the request are
//! set: where both name a key, the request's value stands.  Each option
//! becomes one argument `--key=value`, the defaults first in their own
//! order, then the request's new keys in theirs; the target is the last
//! argument.

use vstd::prelude::*;
use crate::config::{ConfigView, Configuration};
use crate::invoker::{spawn_result, spec_spawn_result, ExecError, InvocationView, PluginInvocation,
    SpawnOutcome};
use crate::options::{distinct_keys, is_position, lemma_position_exists, lemma_position_unique,
    lemma_set, position, spec_lookup, spec_set_all, Entries, Options};
use crate::protocol::{DecodedRequest, Plugin, RequestView, EQUALS};

verus! {

/// `-`, two of which start an option of the player.
pub const DASH: u8 = 0x2d;

/// The argument that gives the player one option: `--key=value`.
pub open spec fn spec_flag(key: Seq<u8>, value: Seq<u8>) -> Seq<u8> {
    seq![DASH, DASH] + key + seq![EQUALS] + value
}

/// The defaults with the options of the request set over them.
pub open spec fn spec_merge(defaults: Entries, request: Entries) -> Entries {
    spec_set_all(defaults, request, request.len() as int)
}

/// The arguments of the `play` plugin: one per option, then the target.
pub open spec fn spec_play_args(options: Entries, target: Seq<u8>) -> Seq<Seq<u8>> {
    Seq::new(options.len(), |i: int| spec_flag(options[i].0, options[i].1)).push(target)
}

/// The command line that a request and a configuration amount to.
pub open spec fn spec_invocation(request: RequestView, config: ConfigView) -> InvocationView {
    match request.plugin {
        Plugin::Play => InvocationView {
            program: config.player,
            args: spec_play_args(spec_merge(config.defaults, request.options), request.target),
        },
    }
}

/// What a plugin returns for an outcome of the start: the invoker's
/// failure, wrapped and never dropped.
pub open spec fn spec_conclude(outcome: SpawnOutcome) -> Result<(), ExecError> {
    match spec_spawn_result(outcome) {
        Ok(()) => Ok(()),
        Err(e) => Err(ExecError::Spawn(e)),
    }
}

/// Writes one option as an argument.
pub fn flag(key: &[u8], value: &[u8]) -> (r: Vec<u8>)
    ensures
        r@ == spec_flag(key@, value@),
{
    let mut r: Vec<u8> = Vec::new();
    r.push(DASH);
    r.push(DASH);
    r.extend_from_slice(key);
    r.push(EQUALS);
    r.extend_from_slice(value);
    assert(r@ =~= spec_flag(key@, value@));
    r
}

/// The defaults with the options of the request set over them.
pub fn merge(defaults: &Options, request: &Options) -> (r: Options)
    requires
        defaults.wf(),
    ensures
        r@ == spec_merge(defaults@, request@),
        r.wf(),
{
    let mut merged = defaults.duplicate();
    merged.set_all(request);
    merged
}

/// Assembles the command line of the `play` plugin.
pub fn play(request: &DecodedRequest, config: &Configuration) -> (r: PluginInvocation)
    requires
        config.wf(),
    ensures
        r@.program == config@.player,
        r@.args == spec_play_args(
            spec_merge(config@.defaults, request@.options),
            request@.target,
        ),
{
    let merged = merge(config.defaults(), request.options());
    let mut args: Vec<Vec<u8>> = Vec::new();
    let mut i: usize = 0;
    while i < merged.len()
        invariant
            i <= merged@.len(),
            args@.len() == i,
            forall|j: int|
                0 <= j < i ==> (#[trigger] args@[j])@ == spec_flag(merged@[j].0, merged@[j].1),
        decreases merged@.len() - i,
    {
        let one = flag(merged.key_at(i).as_slice(), merged.value_at(i).as_slice());
        args.push(one);
        i += 1;
    }
    args.push(request.target().clone());
    let r = PluginInvocation { program: config.player().clone(), args };
    assert(r@.args =~= spec_play_args(merged@, request@.target));
    r
}

/// Selects the plugin that the request names and has it assemble the
/// command line.
pub fn prepare(request: &DecodedRequest, config: &Configuration) -> (r: PluginInvocation)
    requires
        config.wf(),
    ensures
        r@ == spec_invocation(request@, config@),
{
    match request.plugin() {
        Plugin::Play => play(request, config),
    }
}

/// Turns the outcome of the start into the plugin's result.
pub fn conclude(outcome: SpawnOutcome) -> (r: Result<(), ExecError>)
    ensures
        r == spec_conclude(outcome),
        r is Ok <==> outcome == SpawnOutcome::Started,
{
    match spawn_result(outcome) {
        Ok(()) => Ok(()),
        Err(e) => Err(ExecError::Spawn(e)),
    }
}

/// Setting the first `n` entries of `extra` gives each of their keys its
/// value from `extra` and leaves every other key as it was.
pub proof fn lemma_set_all_lookup(entries: Entries, extra: Entries, n: int, key: Seq<u8>)
    requires
        0 <= n <= extra.len(),
        distinct_keys(entries),
        distinct_keys(extra),
    ensures
        distinct_keys(spec_set_all(entries, extra, n)),
        spec_lookup(spec_set_all(entries, extra, n), key) == if position(extra, key) < n {
            Some(extra[position(extra, key)].1)
        } else {
            spec_lookup(entries, key)
        },
    decreases n,
{
    lemma_position_exists(extra, key);
    if n > 0 {
        let sofar = spec_set_all(entries, extra, n - 1);
        lemma_set_all_lookup(entries, extra, n - 1, key);
        lemma_set(sofar, extra[n - 1].0, extra[n - 1].1);
        if extra[n - 1].0 == key {
            assert(is_position(extra, key, n - 1));
            lemma_position_unique(extra, key, n - 1);
        }
    }
}

/// Precedence: in the merged options a key has the request's value where
/// the request names it, and the configured default where it does not.
pub proof fn lemma_merge_precedence(defaults: Entries, request: Entries, key: Seq<u8>)
    requires
        distinct_keys(defaults),
        distinct_keys(request),
    ensures
        distinct_keys(spec_merge(defaults, request)),
        spec_lookup(spec_merge(defaults, request), key) == match spec_lookup(request, key) {
            Some(value) => Some(value),
            None => spec_lookup(defaults, key),
        },
{
    lemma_position_exists(request, key);
    lemma_set_all_lookup(defaults, request, request.len() as int, key);
}

} // verus!
