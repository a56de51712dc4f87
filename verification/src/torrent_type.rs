//! Privacy classes of torrents and how indexers report them.
use vstd::prelude::*;
use vstd::string::StrSliceExecFns;
use vstd::utf8::is_ascii_chars;
use crate::text::{
    ascii_lowercase, chars_eq_ignore_ascii_case, chars_equal, chars_of, eq_ignore_ascii_case, lowercased,
    remove_dashes, to_lowercase, trim_end_index, trim_range, trim_start_index, trimmed,
    without_dashes,
};

verus! {

/// The privacy class of a torrent.
#[derive(Clone, Copy, Debug, PartialEq, Eq, Structural)]
pub enum TorrentType {
    Public,
    Private,
    SemiPrivate,
    WebSeed,
}

/// `semiprivate`
pub open spec fn semiprivate_word() -> Seq<char> {
    seq!['s', 'e', 'm', 'i', 'p', 'r', 'i', 'v', 'a', 't', 'e']
}

/// `private`
pub open spec fn private_word() -> Seq<char> {
    seq!['p', 'r', 'i', 'v', 'a', 't', 'e']
}

/// `webseed`
pub open spec fn webseed_word() -> Seq<char> {
    seq!['w', 'e', 'b', 's', 'e', 'e', 'd']
}

/// The class named by an already trimmed and lower-cased text: dashes are
/// ignored, and anything unknown is public.
pub open spec fn type_from_lowercase(t: Seq<char>) -> TorrentType {
    let w = without_dashes(t);
    if w == semiprivate_word() {
        TorrentType::SemiPrivate
    } else if w == private_word() {
        TorrentType::Private
    } else if w == webseed_word() {
        TorrentType::WebSeed
    } else {
        TorrentType::Public
    }
}

/// The class named by a free-form text: trimmed, lower-cased, dashes removed.
pub open spec fn type_of_text(s: Seq<char>) -> TorrentType {
    type_from_lowercase(lowercased(trimmed(s)))
}

/// The class named by an already trimmed and lower-cased text.
pub fn torrent_type_from_lowercase(lowered: &str) -> (r: TorrentType)
    ensures
        r == type_from_lowercase(lowered@),
{
    let cs = chars_of(lowered);
    let w = remove_dashes(&cs);
    let n = w.len();
    if chars_equal(&w, 0, n, &['s', 'e', 'm', 'i', 'p', 'r', 'i', 'v', 'a', 't', 'e']) {
        proof {
            assert(w@.subrange(0, n as int) =~= w@);
        }
        TorrentType::SemiPrivate
    } else if chars_equal(&w, 0, n, &['p', 'r', 'i', 'v', 'a', 't', 'e']) {
        proof {
            assert(w@.subrange(0, n as int) =~= w@);
        }
        TorrentType::Private
    } else if chars_equal(&w, 0, n, &['w', 'e', 'b', 's', 'e', 'e', 'd']) {
        proof {
            assert(w@.subrange(0, n as int) =~= w@);
        }
        TorrentType::WebSeed
    } else {
        proof {
            assert(w@.subrange(0, n as int) =~= w@);
        }
        TorrentType::Public
    }
}

/// Reads a torrent class from text such as `"semi-private"` or `" Private "`:
/// surrounding white space, letter case and dashes do not matter; anything
/// else is public.
pub fn parse_torrent_type_str(s: &str) -> (r: TorrentType)
    ensures
        r == type_of_text(s@),
        is_ascii_chars(s@) ==> r == type_from_lowercase(ascii_lowercase(trimmed(s@))),
{
    let cs = chars_of(s);
    let (a, b) = trim_range(&cs);
    let t = s.substring_char(a, b);
    assert(is_ascii_chars(s@) ==> is_ascii_chars(t@));
    let lower = to_lowercase(t);
    torrent_type_from_lowercase(lower.as_str())
}

/// `semiPrivate`, the indexer flag of semi-private trackers.
pub open spec fn semi_private_flag() -> Seq<char> {
    seq!['s', 'e', 'm', 'i', 'P', 'r', 'i', 'v', 'a', 't', 'e']
}

/// `freeleech`
pub open spec fn freeleech_flag() -> Seq<char> {
    seq!['f', 'r', 'e', 'e', 'l', 'e', 'e', 'c', 'h']
}

/// The class given by the first flag, from `i` on, that names a private or
/// semi-private tracker (ASCII letter case ignored).
pub open spec fn first_private_flag(flags: Seq<String>, i: int) -> Option<TorrentType>
    decreases flags.len() - i,
{
    if i < 0 || i >= flags.len() {
        None
    } else if eq_ignore_ascii_case(flags[i]@, semi_private_flag()) {
        Some(TorrentType::SemiPrivate)
    } else if eq_ignore_ascii_case(flags[i]@, private_word()) {
        Some(TorrentType::Private)
    } else {
        first_private_flag(flags, i + 1)
    }
}

/// Some flag is `freeleech` (ASCII letter case ignored).
pub open spec fn has_freeleech_flag(flags: Seq<String>) -> bool {
    exists|i: int| 0 <= i < flags.len() && eq_ignore_ascii_case(flags[i]@, freeleech_flag())
}

/// The class of a Prowlarr result: a private or semi-private flag wins (the
/// first such flag); otherwise a freeleech flag makes it public; otherwise the
/// first flag, or the privacy text when there are no flags, names it.
pub open spec fn prowlarr_type(flags: Seq<String>, privacy: Seq<char>) -> TorrentType {
    match first_private_flag(flags, 0) {
        Some(t) => t,
        None => if has_freeleech_flag(flags) {
            TorrentType::Public
        } else if flags.len() > 0 {
            type_of_text(flags[0]@)
        } else {
            type_of_text(privacy)
        },
    }
}

/// Maps Prowlarr indexer flags and its privacy string to a torrent class.
pub fn prowlarr_torrent_type(indexer_flags: &[String], indexer_privacy: &str) -> (r: TorrentType)
    ensures
        r == prowlarr_type(indexer_flags@, indexer_privacy@),
{
    let mut i: usize = 0;
    while i < indexer_flags.len()
        invariant
            i <= indexer_flags@.len(),
            first_private_flag(indexer_flags@, 0) == first_private_flag(indexer_flags@, i as int),
        decreases indexer_flags@.len() - i,
    {
        let f = chars_of(indexer_flags[i].as_str());
        if chars_eq_ignore_ascii_case(&f, &['s', 'e', 'm', 'i', 'P', 'r', 'i', 'v', 'a', 't', 'e']) {
            return TorrentType::SemiPrivate;
        }
        if chars_eq_ignore_ascii_case(&f, &['p', 'r', 'i', 'v', 'a', 't', 'e']) {
            return TorrentType::Private;
        }
        i = i + 1;
    }
    let mut j: usize = 0;
    while j < indexer_flags.len()
        invariant
            j <= indexer_flags@.len(),
            first_private_flag(indexer_flags@, 0) is None,
            forall|k: int| 0 <= k < j ==> !eq_ignore_ascii_case(
                #[trigger] indexer_flags@[k]@,
                freeleech_flag(),
            ),
        decreases indexer_flags@.len() - j,
    {
        let f = chars_of(indexer_flags[j].as_str());
        if chars_eq_ignore_ascii_case(&f, &['f', 'r', 'e', 'e', 'l', 'e', 'e', 'c', 'h']) {
            assert(eq_ignore_ascii_case(indexer_flags@[j as int]@, freeleech_flag()));
            return TorrentType::Public;
        }
        j = j + 1;
    }
    if indexer_flags.len() > 0 {
        parse_torrent_type_str(indexer_flags[0].as_str())
    } else {
        parse_torrent_type_str(indexer_privacy)
    }
}

/// `public`
pub open spec fn public_word() -> Seq<char> {
    seq!['p', 'u', 'b', 'l', 'i', 'c']
}

/// Maps Jackett's `TrackerType` field to a torrent class; a missing field is public.
pub fn jackett_torrent_type(tracker_type: Option<&str>) -> (r: TorrentType)
    ensures
        r == match tracker_type {
            Some(t) => type_of_text(t@),
            None => type_of_text(public_word()),
        },
        tracker_type is None ==> r == TorrentType::Public,
{
    match tracker_type {
        Some(t) => parse_torrent_type_str(t),
        None => {
            let p = "public";
            proof {
                reveal_strlit("public");
                assert(p@ =~= public_word());
            }
            let r = parse_torrent_type_str(p);
            proof {
                assert(is_ascii_chars(p@));
                let w = public_word();
                assert(trim_start_index(w, 0) == 0);
                assert(trim_end_index(w, 0, 6) == 6);
                assert(trimmed(w) =~= w);
                assert(ascii_lowercase(w) =~= w);
                assert(without_dashes(w) =~= w) by {
                    reveal_with_fuel(without_dashes, 7);
                }
                assert(w != semiprivate_word());
                assert(w[1] != private_word()[1]);
                assert(w[0] != webseed_word()[0]);
            }
            r
        },
    }
}

/// Private and semi-private torrents are the private classes.
pub open spec fn is_private_type(t: TorrentType) -> bool {
    t == TorrentType::Private || t == TorrentType::SemiPrivate
}

/// Whether `t` is a private class (private or semi-private).
pub fn is_private_torrent_type(t: TorrentType) -> (r: bool)
    ensures
        r == is_private_type(t),
{
    match t {
        TorrentType::Private | TorrentType::SemiPrivate => true,
        _ => false,
    }
}

/// Whether raw `.torrent` bytes should be kept for a torrent of class `t`:
/// exactly for the private classes.
pub fn should_persist_torrent_file(t: TorrentType) -> (r: bool)
    ensures
        r == is_private_type(t),
{
    is_private_torrent_type(t)
}

/// The providers that may show torrents from private trackers:
/// `debridlink`, `qbittorrent` and `torbox`.
pub open spec fn is_private_tracker_provider(service: Seq<char>) -> bool {
    ||| service == seq!['d', 'e', 'b', 'r', 'i', 'd', 'l', 'i', 'n', 'k']
    ||| service == seq!['q', 'b', 'i', 't', 't', 'o', 'r', 'r', 'e', 'n', 't']
    ||| service == seq!['t', 'o', 'r', 'b', 'o', 'x']
}

/// Whether the provider `service` may show torrents from private trackers.
pub fn provider_supports_private_trackers(service: &str) -> (r: bool)
    ensures
        r == is_private_tracker_provider(service@),
{
    let cs = chars_of(service);
    let n = cs.len();
    let r = chars_equal(&cs, 0, n, &['d', 'e', 'b', 'r', 'i', 'd', 'l', 'i', 'n', 'k'])
        || chars_equal(&cs, 0, n, &['q', 'b', 'i', 't', 't', 'o', 'r', 'r', 'e', 'n', 't'])
        || chars_equal(&cs, 0, n, &['t', 'o', 'r', 'b', 'o', 'x']);
    proof {
        assert(cs@.subrange(0, n as int) =~= cs@);
    }
    r
}

/// Whether a torrent of class `t` is shown to a user of `provider_service`:
/// public classes always; private classes only when torrent providers are
/// configured and the provider supports private trackers.
pub open spec fn visible_for_provider(
    t: TorrentType,
    provider_service: Seq<char>,
    has_torrent_providers: bool,
) -> bool {
    !is_private_type(t) || (has_torrent_providers && is_private_tracker_provider(provider_service))
}

/// Whether a torrent row should be shown for the given provider (catalog filter).
pub fn private_torrent_visible_for_provider(
    torrent_type: TorrentType,
    provider_service: &str,
    has_torrent_providers: bool,
) -> (r: bool)
    ensures
        r == visible_for_provider(torrent_type, provider_service@, has_torrent_providers),
{
    if !is_private_torrent_type(torrent_type) {
        return true;
    }
    if !has_torrent_providers {
        return false;
    }
    provider_supports_private_trackers(provider_service)
}

/// A JSON document as the catalog reads it. Numbers are kept as their text.
#[derive(Debug)]
pub enum JsonValue {
    Null,
    Bool(bool),
    Number(String),
    String(String),
    Array(Vec<JsonValue>),
    /// The members of an object, in order. A lookup by key takes the first
    /// member with that key.
    Object(Vec<(String, JsonValue)>),
}

/// The value of the first member of `entries`, from `i` on, whose key is `key`.
pub open spec fn member_value(entries: Seq<(String, JsonValue)>, key: Seq<char>, i: int) -> Option<
    JsonValue,
>
    decreases entries.len() - i,
{
    if i < 0 || i >= entries.len() {
        None
    } else if entries[i].0@ == key {
        Some(entries[i].1)
    } else {
        member_value(entries, key, i + 1)
    }
}

/// `v.get(key).and_then(|f| f.as_str())`: the text of the string member `key`
/// of an object.
pub open spec fn string_member(v: JsonValue, key: Seq<char>) -> Option<Seq<char>> {
    match v {
        JsonValue::Object(entries) => match member_value(entries@, key, 0) {
            Some(JsonValue::String(t)) => Some(t@),
            _ => None,
        },
        _ => None,
    }
}

/// `torrent_type`
pub open spec fn torrent_type_key() -> Seq<char> {
    seq!['t', 'o', 'r', 'r', 'e', 'n', 't', '_', 't', 'y', 'p', 'e']
}

/// The class recorded in the `torrent_type` string member of a JSON object;
/// public when there is none.
pub open spec fn json_torrent_type(v: JsonValue) -> TorrentType {
    match string_member(v, torrent_type_key()) {
        Some(t) => type_of_text(t),
        None => TorrentType::Public,
    }
}

/// Reads the torrent class from the `torrent_type` member of a JSON object.
#[verifier::loop_isolation(false)]
pub fn torrent_type_from_json_value(t: &JsonValue) -> (r: TorrentType)
    ensures
        r == json_torrent_type(*t),
{
    match t {
        JsonValue::Object(entries) => {
            let mut i: usize = 0;
            while i < entries.len()
                invariant
                    i <= entries@.len(),
                    member_value(entries@, torrent_type_key(), 0) == member_value(
                        entries@,
                        torrent_type_key(),
                        i as int,
                    ),
                decreases entries@.len() - i,
            {
                let key = chars_of(entries[i].0.as_str());
                let n = key.len();
                if chars_equal(
                    &key,
                    0,
                    n,
                    &['t', 'o', 'r', 'r', 'e', 'n', 't', '_', 't', 'y', 'p', 'e'],
                ) {
                    proof {
                        assert(key@.subrange(0, n as int) =~= key@);
                    }
                    return match &entries[i].1 {
                        JsonValue::String(v) => parse_torrent_type_str(v.as_str()),
                        _ => TorrentType::Public,
                    };
                }
                proof {
                    assert(key@.subrange(0, n as int) =~= key@);
                }
                i = i + 1;
            }
            TorrentType::Public
        },
        _ => TorrentType::Public,
    }
}

// ---------------------------------------------------------------------------
// Laws
// ---------------------------------------------------------------------------

/// Some flag names a private or semi-private tracker.
pub open spec fn has_private_flag(flags: Seq<String>) -> bool {
    exists|i: int|
        0 <= i < flags.len() && (eq_ignore_ascii_case(#[trigger] flags[i]@, private_word())
            || eq_ignore_ascii_case(flags[i]@, semi_private_flag()))
}

proof fn lemma_first_private_flag_found(flags: Seq<String>, i: int, w: int)
    requires
        0 <= i <= w < flags.len(),
        eq_ignore_ascii_case(flags[w]@, private_word()) || eq_ignore_ascii_case(
            flags[w]@,
            semi_private_flag(),
        ),
    ensures
        first_private_flag(flags, i) matches Some(t) && is_private_type(t),
    decreases w - i,
{
    if i < w && !eq_ignore_ascii_case(flags[i]@, semi_private_flag()) && !eq_ignore_ascii_case(
        flags[i]@,
        private_word(),
    ) {
        lemma_first_private_flag_found(flags, i + 1, w);
    }
}

/// Law: a private or semi-private flag wins over every other flag, freeleech
/// included: the Prowlarr class is then a private class.
pub proof fn lemma_private_flag_wins(flags: Seq<String>, privacy: Seq<char>)
    requires
        has_private_flag(flags),
    ensures
        is_private_type(prowlarr_type(flags, privacy)),
{
    let w = choose|i: int|
        0 <= i < flags.len() && (eq_ignore_ascii_case(#[trigger] flags[i]@, private_word())
            || eq_ignore_ascii_case(flags[i]@, semi_private_flag()));
    lemma_first_private_flag_found(flags, 0, w);
}

/// Law: a torrent of a public class is visible for every provider, and a
/// private one is never visible when no torrent provider is configured.
pub proof fn lemma_visibility(t: TorrentType, provider: Seq<char>, has_providers: bool)
    ensures
        !is_private_type(t) ==> visible_for_provider(t, provider, has_providers),
        is_private_type(t) && !has_providers ==> !visible_for_provider(t, provider, has_providers),
{
}

proof fn lemma_without_dashes_idempotent(t: Seq<char>)
    ensures
        without_dashes(without_dashes(t)) == without_dashes(t),
    decreases t.len(),
{
    if t.len() > 0 {
        lemma_without_dashes_idempotent(t.drop_last());
        let w = without_dashes(t.drop_last());
        if t.last() != '-' {
            assert(w.push(t.last()).drop_last() =~= w);
        }
    }
}

/// Law: dashes do not matter in a class name; removing them leaves the class
/// unchanged.
pub proof fn lemma_dashes_ignored(t: Seq<char>)
    ensures
        type_from_lowercase(without_dashes(t)) == type_from_lowercase(t),
{
    lemma_without_dashes_idempotent(t);
}

/// Law: a trimmed, lower-cased class name reads, dashes aside, as
/// semi-private for `semiprivate`, private for `private`, web seed for
/// `webseed`, and public for anything else; only private and semi-private are
/// private classes.
pub proof fn lemma_class_words(t: Seq<char>, c: TorrentType)
    ensures
        without_dashes(t) =~= seq!['s', 'e', 'm', 'i', 'p', 'r', 'i', 'v', 'a', 't', 'e']
            ==> type_from_lowercase(t) == TorrentType::SemiPrivate,
        without_dashes(t) =~= seq!['p', 'r', 'i', 'v', 'a', 't', 'e'] ==> type_from_lowercase(t)
            == TorrentType::Private,
        without_dashes(t) =~= seq!['w', 'e', 'b', 's', 'e', 'e', 'd'] ==> type_from_lowercase(t)
            == TorrentType::WebSeed,
        !(without_dashes(t) =~= seq!['s', 'e', 'm', 'i', 'p', 'r', 'i', 'v', 'a', 't', 'e'])
            && !(without_dashes(t) =~= seq!['p', 'r', 'i', 'v', 'a', 't', 'e']) && !(without_dashes(
            t,
        ) =~= seq!['w', 'e', 'b', 's', 'e', 'e', 'd']) ==> type_from_lowercase(t)
            == TorrentType::Public,
        is_private_type(c) <==> (c == TorrentType::Private || c == TorrentType::SemiPrivate),
{
}

proof fn lemma_first_private_flag_none(flags: Seq<String>, i: int)
    requires
        0 <= i,
        forall|k: int|
            i <= k < flags.len() ==> !eq_ignore_ascii_case(#[trigger] flags[k]@, private_word())
                && !eq_ignore_ascii_case(flags[k]@, semi_private_flag()),
    ensures
        first_private_flag(flags, i) is None,
    decreases flags.len() - i,
{
    if i < flags.len() {
        lemma_first_private_flag_none(flags, i + 1);
    }
}

proof fn lemma_first_private_flag_at(flags: Seq<String>, i: int, w: int)
    requires
        0 <= i <= w < flags.len(),
        forall|k: int|
            i <= k < w ==> !eq_ignore_ascii_case(#[trigger] flags[k]@, private_word())
                && !eq_ignore_ascii_case(flags[k]@, semi_private_flag()),
    ensures
        first_private_flag(flags, i) == first_private_flag(flags, w),
    decreases w - i,
{
    if i < w {
        lemma_first_private_flag_at(flags, i + 1, w);
    }
}

/// Law: the Prowlarr class. The first flag equal (ASCII case ignored) to
/// `semiPrivate` or `private` decides it; with no such flag, any `freeleech`
/// flag makes it public; otherwise the first flag names it, or the privacy
/// text when there is no flag.
pub proof fn lemma_prowlarr_rules(flags: Seq<String>, privacy: Seq<char>, w: int)
    ensures
        0 <= w < flags.len() && (eq_ignore_ascii_case(flags[w]@, semi_private_flag())
            || eq_ignore_ascii_case(flags[w]@, private_word())) && (forall|k: int|
            0 <= k < w ==> !eq_ignore_ascii_case(#[trigger] flags[k]@, private_word())
                && !eq_ignore_ascii_case(flags[k]@, semi_private_flag())) ==> prowlarr_type(
            flags,
            privacy,
        ) == (if eq_ignore_ascii_case(flags[w]@, semi_private_flag()) {
            TorrentType::SemiPrivate
        } else {
            TorrentType::Private
        }),
        (forall|k: int|
            0 <= k < flags.len() ==> !eq_ignore_ascii_case(#[trigger] flags[k]@, private_word())
                && !eq_ignore_ascii_case(flags[k]@, semi_private_flag())) ==> prowlarr_type(
            flags,
            privacy,
        ) == (if exists|k: int|
            0 <= k < flags.len() && eq_ignore_ascii_case(
                #[trigger] flags[k]@,
                seq!['f', 'r', 'e', 'e', 'l', 'e', 'e', 'c', 'h'],
            ) {
            TorrentType::Public
        } else if flags.len() > 0 {
            type_of_text(flags[0]@)
        } else {
            type_of_text(privacy)
        }),
{
    if 0 <= w < flags.len() && (eq_ignore_ascii_case(flags[w]@, semi_private_flag())
        || eq_ignore_ascii_case(flags[w]@, private_word())) && (forall|k: int|
        0 <= k < w ==> !eq_ignore_ascii_case(#[trigger] flags[k]@, private_word())
            && !eq_ignore_ascii_case(flags[k]@, semi_private_flag())) {
        lemma_first_private_flag_at(flags, 0, w);
    }
    if forall|k: int|
        0 <= k < flags.len() ==> !eq_ignore_ascii_case(#[trigger] flags[k]@, private_word())
            && !eq_ignore_ascii_case(flags[k]@, semi_private_flag()) {
        lemma_first_private_flag_none(flags, 0);
        assert(freeleech_flag() =~= seq!['f', 'r', 'e', 'e', 'l', 'e', 'e', 'c', 'h']);
    }
}

/// Law: a torrent is visible for a provider exactly when its class is not
/// private, or torrent providers are configured and the provider is
/// `debridlink`, `qbittorrent` or `torbox`.
pub proof fn lemma_visibility_exact(t: TorrentType, provider: Seq<char>, has_providers: bool)
    ensures
        visible_for_provider(t, provider, has_providers) <==> (!is_private_type(t) || (
        has_providers && (provider =~= seq!['d', 'e', 'b', 'r', 'i', 'd', 'l', 'i', 'n', 'k']
            || provider =~= seq!['q', 'b', 'i', 't', 't', 'o', 'r', 'r', 'e', 'n', 't']
            || provider =~= seq!['t', 'o', 'r', 'b', 'o', 'x']))),
{
}

proof fn lemma_member_value_first(entries: Seq<(String, JsonValue)>, key: Seq<char>, i: int, k: int)
    requires
        0 <= i <= k < entries.len(),
        entries[k].0@ == key,
        forall|j: int| i <= j < k ==> (#[trigger] entries[j]).0@ != key,
    ensures
        member_value(entries, key, i) == Some(entries[k].1),
    decreases k - i,
{
    if i < k {
        lemma_member_value_first(entries, key, i + 1, k);
    }
}

proof fn lemma_member_value_absent(entries: Seq<(String, JsonValue)>, key: Seq<char>, i: int)
    requires
        0 <= i,
        forall|j: int| i <= j < entries.len() ==> (#[trigger] entries[j]).0@ != key,
    ensures
        member_value(entries, key, i) is None,
    decreases entries.len() - i,
{
    if i < entries.len() {
        lemma_member_value_absent(entries, key, i + 1);
    }
}

/// Law: the class of a JSON document comes from the first `torrent_type`
/// member of an object: the class its text names when it is a string, and
/// public when it is not, when there is no such member, or when the document
/// is not an object.
pub proof fn lemma_json_class(v: JsonValue, k: int)
    ensures
        match v {
            JsonValue::Object(entries) => {
                &&& (0 <= k < entries@.len() && entries@[k].0@ =~= seq![
                    't',
                    'o',
                    'r',
                    'r',
                    'e',
                    'n',
                    't',
                    '_',
                    't',
                    'y',
                    'p',
                    'e',
                ] && (forall|j: int| 0 <= j < k ==> (#[trigger] entries@[j]).0@ != torrent_type_key()))
                    ==> json_torrent_type(v) == match entries@[k].1 {
                    JsonValue::String(t) => type_of_text(t@),
                    _ => TorrentType::Public,
                }
                &&& (forall|j: int| 0 <= j < entries@.len() ==> (#[trigger] entries@[j]).0@ != torrent_type_key())
                    ==> json_torrent_type(v) == TorrentType::Public
            },
            _ => json_torrent_type(v) == TorrentType::Public,
        },
{
    match v {
        JsonValue::Object(entries) => {
            if 0 <= k < entries@.len() && entries@[k].0@ =~= torrent_type_key() && (forall|j: int|
                0 <= j < k ==> (#[trigger] entries@[j]).0@ != torrent_type_key()) {
                lemma_member_value_first(entries@, torrent_type_key(), 0, k);
            }
            if forall|j: int| 0 <= j < entries@.len() ==> (#[trigger] entries@[j]).0@ != torrent_type_key() {
                lemma_member_value_absent(entries@, torrent_type_key(), 0);
            }
        },
        _ => {},
    }
}

} // verus!
