//! The URL grammar: `handler://<plugin>/<target>?<key>=<value>&...`.
//!
//! The raw argument is cut at its first literal `?`; what stands before it
//! is the path, what follows it the query.  The path is cut at its first
//! `/` into the plugin's name and the percent-encoded target.  The query is
//! a list of `key=value` pairs joined by `&`, key and value percent-encoded
//! each on its own.  A `?` that belongs to the target is written `%3F` and
//! so never read as the start of the query.  Where a key is given more than
//! once, its last value stands.

use vstd::prelude::*;
use vstd::utf8::valid_utf8;
use crate::options::{all_text, distinct_keys, lemma_set, lemma_set_text, spec_lookup, spec_set,
    Entries, Options};
use crate::percent::{decode, lemma_decode_encode, lemma_encode_alphabet, spec_decode, spec_encode};
use crate::scan::{after_first, before_first, first_index, has_prefix, is_first_index,
    lemma_first_index_exists, lemma_first_index_unique, same_bytes, split_first, starts_with};

verus! {

/// `?`, which ends the path and starts the query.
pub const QUESTION: u8 = 0x3f;

/// `&`, which stands between two pairs of the query.
pub const AMPERSAND: u8 = 0x26;

/// `=`, which stands between a key and its value.
pub const EQUALS: u8 = 0x3d;

/// `/`, which ends the plugin's name and starts the target.
pub const SLASH: u8 = 0x2f;

/// The playback strategies that a URL can select.
#[derive(Clone, Copy, Debug, PartialEq, Eq, Structural)]
pub enum Plugin {
    /// Hand the target to the player as it is.
    Play,
}

/// Why a raw argument was not accepted.
#[derive(Clone, Copy, Debug, PartialEq, Eq, Structural)]
pub enum DecodeError {
    /// The argument does not begin with `handler://`.
    InvalidScheme,
    /// The first component of the path names no plugin.
    UnknownPlugin,
    /// The target is empty or is not text.
    InvalidTarget,
    /// A `%` is not followed by two hexadecimal digits, or an option's key
    /// or value is not text.
    DecodeFailure,
}

/// The bytes of `handler://`.
pub open spec fn scheme_prefix() -> Seq<u8> {
    seq![0x68u8, 0x61u8, 0x6eu8, 0x64u8, 0x6cu8, 0x65u8, 0x72u8, 0x3au8, 0x2fu8, 0x2fu8]
}

/// The bytes of `play`.
pub open spec fn play_name() -> Seq<u8> {
    seq![0x70u8, 0x6cu8, 0x61u8, 0x79u8]
}

/// The name under which a URL selects a plugin.
pub open spec fn spec_plugin_name(plugin: Plugin) -> Seq<u8> {
    match plugin {
        Plugin::Play => play_name(),
    }
}

/// The plugin that a path component names, if it names one.
pub open spec fn spec_plugin_from(segment: Seq<u8>) -> Option<Plugin> {
    if segment == play_name() {
        Some(Plugin::Play)
    } else {
        None
    }
}

/// The mathematical model of a decoded request.
pub ghost struct RequestView {
    pub plugin: Plugin,
    pub target: Seq<u8>,
    pub options: Entries,
}

/// What remains of a raw argument after `handler://`.
pub open spec fn spec_rest(raw: Seq<u8>) -> Seq<u8> {
    raw.subrange(scheme_prefix().len() as int, raw.len() as int)
}

/// The path of a raw argument that begins with `handler://`.
pub open spec fn spec_path(raw: Seq<u8>) -> Seq<u8> {
    before_first(spec_rest(raw), QUESTION)
}

/// The query of a raw argument that begins with `handler://`.
pub open spec fn spec_query(raw: Seq<u8>) -> Seq<u8> {
    after_first(spec_rest(raw), QUESTION)
}

/// The component of the path that selects the plugin.
pub open spec fn spec_plugin_segment(raw: Seq<u8>) -> Seq<u8> {
    before_first(spec_path(raw), SLASH)
}

/// The component of the path that holds the encoded target.
pub open spec fn spec_target_segment(raw: Seq<u8>) -> Seq<u8> {
    after_first(spec_path(raw), SLASH)
}

/// The options after one `key=value` pair has been read into them.  An
/// empty pair changes nothing; a pair without `=` is a key with an empty
/// value.  `None` where the key or the value cannot be decoded to text.
pub open spec fn spec_apply_pair(acc: Entries, pair: Seq<u8>) -> Option<Entries> {
    if pair.len() == 0 {
        Some(acc)
    } else {
        match (spec_decode(before_first(pair, EQUALS)), spec_decode(after_first(pair, EQUALS))) {
            (Some(key), Some(value)) => if valid_utf8(key) && valid_utf8(value) {
                Some(spec_set(acc, key, value))
            } else {
                None
            },
            _ => None,
        }
    }
}

/// The options after every pair of `query` has been read into them, from
/// left to right.
pub open spec fn spec_fold_query(acc: Entries, query: Seq<u8>) -> Option<Entries>
    decreases query.len(),
    via fold_query_decreases
{
    if query.len() == 0 {
        Some(acc)
    } else {
        match spec_apply_pair(acc, before_first(query, AMPERSAND)) {
            Some(next) => spec_fold_query(next, after_first(query, AMPERSAND)),
            None => None,
        }
    }
}

#[via_fn]
proof fn fold_query_decreases(acc: Entries, query: Seq<u8>) {
    lemma_first_index_exists(query, AMPERSAND);
}

/// The options that a query holds.
pub open spec fn spec_options(query: Seq<u8>) -> Option<Entries> {
    spec_fold_query(Entries::empty(), query)
}

/// What a raw argument decodes to.
pub open spec fn spec_parse(raw: Seq<u8>) -> Result<RequestView, DecodeError> {
    if !has_prefix(raw, scheme_prefix()) {
        Err(DecodeError::InvalidScheme)
    } else {
        match spec_plugin_from(spec_plugin_segment(raw)) {
            None => Err(DecodeError::UnknownPlugin),
            Some(plugin) => match spec_decode(spec_target_segment(raw)) {
                None => Err(DecodeError::DecodeFailure),
                Some(target) => if target.len() == 0 || !valid_utf8(target) {
                    Err(DecodeError::InvalidTarget)
                } else {
                    match spec_options(spec_query(raw)) {
                        None => Err(DecodeError::DecodeFailure),
                        Some(options) => Ok(RequestView { plugin, target, options }),
                    }
                },
            },
        }
    }
}

/// Calls `core::str::from_utf8` and reports whether it accepted the bytes.
/// The contract claims what its documentation says: the call succeeds
/// exactly on well-formed UTF-8.
#[verifier::external_body]
fn is_utf8(bytes: &[u8]) -> (ok: bool)
    ensures
        ok == valid_utf8(bytes@),
{
    core::str::from_utf8(bytes).is_ok()
}

/// `handler://` as bytes.
pub fn scheme() -> (r: Vec<u8>)
    ensures
        r@ == scheme_prefix(),
{
    let r: Vec<u8> = vec![0x68u8, 0x61u8, 0x6eu8, 0x64u8, 0x6cu8, 0x65u8, 0x72u8, 0x3au8, 0x2fu8, 0x2fu8];
    assert(r@ =~= scheme_prefix());
    r
}

impl Plugin {
    /// The name under which a URL selects this plugin.
    pub fn name(&self) -> (r: Vec<u8>)
        ensures
            r@ == spec_plugin_name(*self),
    {
        match self {
            Plugin::Play => {
                let r: Vec<u8> = vec![0x70u8, 0x6cu8, 0x61u8, 0x79u8];
                assert(r@ =~= play_name());
                r
            },
        }
    }

    /// The plugin that a path component names, if it names one.
    pub fn from_segment(segment: &[u8]) -> (r: Option<Plugin>)
        ensures
            r == spec_plugin_from(segment@),
    {
        let play = Plugin::Play.name();
        if same_bytes(segment, play.as_slice()) {
            Some(Plugin::Play)
        } else {
            None
        }
    }
}

/// A decoded request: the plugin, the target to play and the options.
#[derive(Debug)]
pub struct DecodedRequest {
    plugin: Plugin,
    target: Vec<u8>,
    options: Options,
}

impl View for DecodedRequest {
    type V = RequestView;

    closed spec fn view(&self) -> RequestView {
        RequestView { plugin: self.plugin, target: self.target@, options: self.options@ }
    }
}

impl DecodedRequest {
    /// The request is well formed: its target is text and not empty, no
    /// option is named twice, and every option's key and value are text.
    pub open spec fn wf(&self) -> bool {
        &&& self@.target.len() > 0
        &&& valid_utf8(self@.target)
        &&& distinct_keys(self@.options)
        &&& all_text(self@.options)
    }

    /// The plugin that the request selects.
    pub fn plugin(&self) -> (r: Plugin)
        ensures
            r == self@.plugin,
    {
        self.plugin
    }

    /// The media reference, decoded.
    pub fn target(&self) -> (r: &Vec<u8>)
        ensures
            r@ == self@.target,
    {
        &self.target
    }

    /// The options, decoded.
    pub fn options(&self) -> (r: &Options)
        ensures
            r@ == self@.options,
    {
        &self.options
    }
}

/// Reads one `key=value` pair into `acc`.  Returns whether the pair could
/// be decoded; where it could not, `acc` is as it was.
pub fn apply_pair(acc: &mut Options, pair: &[u8]) -> (ok: bool)
    requires
        old(acc).wf(),
    ensures
        final(acc).wf(),
        ok == spec_apply_pair(old(acc)@, pair@) is Some,
        ok ==> final(acc)@ == spec_apply_pair(old(acc)@, pair@).unwrap(),
        !ok ==> final(acc)@ == old(acc)@,
        all_text(old(acc)@) ==> all_text(final(acc)@),
{
    if pair.len() == 0 {
        return true;
    }
    let (raw_key, raw_value) = split_first(pair, EQUALS);
    match (decode(raw_key), decode(raw_value)) {
        (Some(key), Some(value)) => {
            if is_utf8(key.as_slice()) && is_utf8(value.as_slice()) {
                proof {
                    if all_text(acc@) {
                        lemma_set_text(acc@, key@, value@);
                    }
                }
                acc.set(key, value);
                true
            } else {
                false
            }
        },
        _ => false,
    }
}

/// Reads the options of a query.  `None` exactly where some key or value
/// cannot be decoded to text.
pub fn parse_options(query: &[u8]) -> (r: Option<Options>)
    ensures
        r is Some <==> spec_options(query@) is Some,
        r is Some ==> r.unwrap()@ == spec_options(query@).unwrap() && r.unwrap().wf() && all_text(
            r.unwrap()@,
        ),
{
    let mut acc = Options::new();
    let mut rest: &[u8] = query;
    while rest.len() > 0
        invariant
            acc.wf(),
            all_text(acc@),
            spec_options(query@) == spec_fold_query(acc@, rest@),
        decreases rest@.len(),
    {
        let (pair, tail) = split_first(rest, AMPERSAND);
        if !apply_pair(&mut acc, pair) {
            return None;
        }
        rest = tail;
    }
    Some(acc)
}

/// Decodes a raw argument.  Every input gives either a well-formed request
/// or exactly one error: the scheme is looked at first, then the plugin,
/// then the target, then the options.
pub fn parse(raw: &[u8]) -> (r: Result<DecodedRequest, DecodeError>)
    ensures
        match r {
            Ok(request) => spec_parse(raw@) == Ok::<RequestView, DecodeError>(request@)
                && request.wf(),
            Err(e) => spec_parse(raw@) == Err::<RequestView, DecodeError>(e),
        },
        !has_prefix(raw@, scheme_prefix()) ==> r is Err && r->Err_0 == DecodeError::InvalidScheme,
        has_prefix(raw@, scheme_prefix()) && spec_plugin_from(spec_plugin_segment(raw@)) is None
            ==> r is Err && r->Err_0 == DecodeError::UnknownPlugin,
{
    let prefix = scheme();
    if !starts_with(raw, prefix.as_slice()) {
        return Err(DecodeError::InvalidScheme);
    }
    let rest = vstd::slice::slice_subrange(raw, prefix.len(), raw.len());
    let (path, query) = split_first(rest, QUESTION);
    let (segment, encoded) = split_first(path, SLASH);
    let plugin = match Plugin::from_segment(segment) {
        Some(plugin) => plugin,
        None => {
            return Err(DecodeError::UnknownPlugin);
        },
    };
    let target = match decode(encoded) {
        Some(target) => target,
        None => {
            return Err(DecodeError::DecodeFailure);
        },
    };
    if target.len() == 0 || !is_utf8(target.as_slice()) {
        return Err(DecodeError::InvalidTarget);
    }
    match parse_options(query) {
        Some(options) => Ok(DecodedRequest { plugin, target, options }),
        None => Err(DecodeError::DecodeFailure),
    }
}

/// The raw argument that selects `plugin` and carries `encoded` as its
/// encoded target, followed by `tail`.
pub open spec fn spec_compose(plugin: Plugin, encoded: Seq<u8>, tail: Seq<u8>) -> Seq<u8> {
    scheme_prefix() + spec_plugin_name(plugin) + seq![SLASH] + encoded + tail
}

/// Where a composed argument is cut: the encoded target of `target` holds
/// neither `?` nor `/` that could end the path or the plugin's name early.
proof fn lemma_compose_parts(plugin: Plugin, target: Seq<u8>, tail: Seq<u8>)
    requires
        tail.len() == 0 || tail[0] == QUESTION,
    ensures
        has_prefix(spec_compose(plugin, spec_encode(target), tail), scheme_prefix()),
        spec_plugin_segment(spec_compose(plugin, spec_encode(target), tail)) == spec_plugin_name(
            plugin,
        ),
        spec_target_segment(spec_compose(plugin, spec_encode(target), tail)) == spec_encode(
            target,
        ),
        spec_query(spec_compose(plugin, spec_encode(target), tail)) == if tail.len() == 0 {
            tail
        } else {
            tail.skip(1)
        },
{
    let name = spec_plugin_name(plugin);
    let encoded = spec_encode(target);
    let raw = spec_compose(plugin, encoded, tail);
    let path = name + seq![SLASH] + encoded;
    let rest = spec_rest(raw);
    lemma_encode_alphabet(target);
    assert(name == play_name());
    assert(raw.subrange(0, scheme_prefix().len() as int) =~= scheme_prefix());
    assert(rest =~= path + tail);
    let cut = path.len() as int;
    assert forall|j: int| 0 <= j < cut implies rest[j] != QUESTION by {
        if j > name.len() {
            assert(rest[j] == encoded[j - name.len() - 1]);
        }
    }
    assert(is_first_index(rest, QUESTION, cut));
    lemma_first_index_unique(rest, QUESTION, cut);
    assert(spec_path(raw) =~= path);
    if tail.len() == 0 {
        assert(spec_query(raw) =~= tail);
    } else {
        assert(spec_query(raw) =~= tail.skip(1));
    }
    assert(is_first_index(path, SLASH, name.len() as int));
    lemma_first_index_unique(path, SLASH, name.len() as int);
    assert(spec_plugin_segment(raw) =~= name);
    assert(spec_target_segment(raw) =~= encoded);
}

/// Round trip: a target that is text and not empty, percent-encoded and
/// put behind the scheme and a plugin's name, decodes to that plugin, that
/// very target and no options.
pub proof fn lemma_parse_encoded_target(plugin: Plugin, target: Seq<u8>)
    requires
        target.len() > 0,
        valid_utf8(target),
    ensures
        spec_parse(spec_compose(plugin, spec_encode(target), Seq::empty())) == Ok::<
            RequestView,
            DecodeError,
        >(RequestView { plugin, target, options: Entries::empty() }),
{
    lemma_compose_parts(plugin, target, Seq::empty());
    lemma_decode_encode(target);
}

/// The same with a query behind the target: whatever the target holds, the
/// `?` that starts the query is the one written after it, and the options
/// are those of the query alone.
pub proof fn lemma_parse_encoded_target_with_query(
    plugin: Plugin,
    target: Seq<u8>,
    query: Seq<u8>,
)
    requires
        target.len() > 0,
        valid_utf8(target),
    ensures
        spec_parse(spec_compose(plugin, spec_encode(target), seq![QUESTION] + query)) == match spec_options(
            query,
        ) {
            Some(options) => Ok::<RequestView, DecodeError>(
                RequestView { plugin, target, options },
            ),
            None => Err::<RequestView, DecodeError>(DecodeError::DecodeFailure),
        },
{
    let tail = seq![QUESTION] + query;
    lemma_compose_parts(plugin, target, tail);
    lemma_decode_encode(target);
    assert(tail.skip(1) =~= query);
}

/// A query that holds no `&` is one pair.
pub proof fn lemma_fold_single_pair(acc: Entries, pair: Seq<u8>)
    requires
        first_index(pair, AMPERSAND) == pair.len(),
    ensures
        spec_fold_query(acc, pair) == spec_apply_pair(acc, pair),
{
    if pair.len() > 0 {
        assert(before_first(pair, AMPERSAND) =~= pair);
        match spec_apply_pair(acc, pair) {
            Some(next) => {
                assert(spec_fold_query(next, Seq::empty()) == Some(next));
            },
            None => {},
        }
    }
}

/// A pair that is joined to the end of a query is read last, into the
/// options that the query before it has yielded.
pub proof fn lemma_fold_query_append(acc: Entries, query: Seq<u8>, pair: Seq<u8>)
    requires
        first_index(pair, AMPERSAND) == pair.len(),
    ensures
        spec_fold_query(acc, query + seq![AMPERSAND] + pair) == match spec_fold_query(acc, query) {
            Some(sofar) => spec_apply_pair(sofar, pair),
            None => None,
        },
    decreases query.len(),
{
    let whole = query + seq![AMPERSAND] + pair;
    lemma_first_index_exists(query, AMPERSAND);
    let cut = first_index(query, AMPERSAND);
    assert forall|j: int| 0 <= j < cut implies whole[j] != AMPERSAND by {
        assert(whole[j] == query[j]);
    }
    assert(whole[cut] == AMPERSAND);
    assert(is_first_index(whole, AMPERSAND, cut));
    lemma_first_index_unique(whole, AMPERSAND, cut);
    assert(before_first(whole, AMPERSAND) =~= before_first(query, AMPERSAND));
    if query.len() == 0 {
        assert(after_first(whole, AMPERSAND) =~= pair);
        lemma_fold_single_pair(acc, pair);
    } else if cut < query.len() {
        let tail = after_first(query, AMPERSAND);
        assert(after_first(whole, AMPERSAND) =~= tail + seq![AMPERSAND] + pair);
        match spec_apply_pair(acc, before_first(query, AMPERSAND)) {
            Some(next) => {
                lemma_fold_query_append(next, tail, pair);
            },
            None => {},
        }
    } else {
        assert(after_first(whole, AMPERSAND) =~= pair);
        assert(after_first(query, AMPERSAND) =~= Seq::<u8>::empty());
        match spec_apply_pair(acc, before_first(query, AMPERSAND)) {
            Some(next) => {
                lemma_fold_single_pair(next, pair);
                assert(spec_fold_query(next, Seq::empty()) == Some(next));
            },
            None => {},
        }
    }
}

/// The last occurrence wins: where a query ends in a pair that gives `key`
/// the value `value`, the options hold exactly that value under `key`,
/// whatever the pairs before it gave.
pub proof fn lemma_last_pair_wins(query: Seq<u8>, pair: Seq<u8>, key: Seq<u8>, value: Seq<u8>)
    requires
        pair.len() > 0,
        first_index(pair, AMPERSAND) == pair.len(),
        spec_decode(before_first(pair, EQUALS)) == Some(key),
        spec_decode(after_first(pair, EQUALS)) == Some(value),
        spec_options(query + seq![AMPERSAND] + pair) is Some,
    ensures
        spec_lookup(spec_options(query + seq![AMPERSAND] + pair).unwrap(), key) == Some(value),
        distinct_keys(spec_options(query + seq![AMPERSAND] + pair).unwrap()),
{
    lemma_fold_query_append(Entries::empty(), query, pair);
    lemma_fold_query_distinct(Entries::empty(), query);
    let sofar = spec_fold_query(Entries::empty(), query).unwrap();
    lemma_set(sofar, key, value);
}

/// The options that a query yields never name a key twice.
pub proof fn lemma_fold_query_distinct(acc: Entries, query: Seq<u8>)
    requires
        distinct_keys(acc),
    ensures
        spec_fold_query(acc, query) is Some ==> distinct_keys(spec_fold_query(acc, query).unwrap()),
    decreases query.len(),
{
    if query.len() > 0 {
        lemma_first_index_exists(query, AMPERSAND);
        let pair = before_first(query, AMPERSAND);
        match spec_apply_pair(acc, pair) {
            Some(next) => {
                if pair.len() > 0 {
                    lemma_set(
                        acc,
                        spec_decode(before_first(pair, EQUALS)).unwrap(),
                        spec_decode(after_first(pair, EQUALS)).unwrap(),
                    );
                }
                lemma_fold_query_distinct(next, after_first(query, AMPERSAND));
            },
            None => {},
        }
    }
}

} // verus!
