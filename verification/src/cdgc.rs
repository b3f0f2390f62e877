//! Deterministic helpers of the catalog client: request-target encoding, the path resolver and the
//! cached types.

use crate::clock::{clock_nanos, unix_epoch};
use crate::fields::{header_texts, Fields};
use crate::json::{items_view, items_view_is_itemwise, Json, JsonView};
use crate::number::{decimal, decimal_text, index_value, parse_index};
use crate::ordered::keys_ascend;
use crate::text::{keep_non_empty, non_empty, split, split_on, texts, trim, trimmed};
use std::collections::BTreeMap;
use std::time::SystemTime;
use vstd::prelude::*;
use vstd::string::*;
use vstd::utf8::encode_utf8;

verus! {

/// Cached, extracted metadata for one asset: header names with the values to stamp.
#[derive(Debug, PartialEq)]
pub struct CachedMeta {
    pub fields: Fields,
    /// Unix seconds when fetched; drives the refresh time.
    pub timestamp: i64,
}

impl Clone for CachedMeta {
    fn clone(&self) -> (r: Self)
        ensures
            r.fields@ == self.fields@,
            r.timestamp == self.timestamp,
    {
        CachedMeta { fields: self.fields.clone(), timestamp: self.timestamp }
    }
}

impl Default for CachedMeta {
    fn default() -> (r: Self)
        ensures
            r.fields@ == Map::<Seq<char>, Seq<char>>::empty(),
            r.timestamp == 0,
    {
        CachedMeta { fields: Fields::new(), timestamp: 0 }
    }
}

/// Entry of the refresh lock, by which a single request initiates a refresh.
#[derive(Clone, Copy, Debug)]
pub struct RefreshLock {
    pub acquired_at: i64,
}

/// The byte stands for itself in a request target: a letter, a digit, or one of `-._~`.
pub open spec fn unreserved(b: u8) -> bool {
    ||| 65 <= b <= 90
    ||| 97 <= b <= 122
    ||| 48 <= b <= 57
    ||| b == 45
    ||| b == 95
    ||| b == 46
    ||| b == 126
}

/// The capital hexadecimal digit of a number below sixteen.
pub open spec fn hex_digit(d: int) -> char {
    if d < 10 {
        (48 + d) as char
    } else {
        (55 + d) as char
    }
}

/// A byte as it is written in a request target.
pub open spec fn encoded_byte(b: u8) -> Seq<char> {
    if unreserved(b) {
        seq![b as char]
    } else {
        seq!['%', hex_digit(b as int / 16), hex_digit(b as int % 16)]
    }
}

/// Bytes as they are written in a request target.
pub open spec fn percent_encoded(bytes: Seq<u8>) -> Seq<char>
    decreases bytes.len(),
{
    if bytes.len() == 0 {
        Seq::empty()
    } else {
        encoded_byte(bytes[0]) + percent_encoded(bytes.drop_first())
    }
}

fn hex_char(d: u8) -> (r: char)
    requires
        d < 16,
    ensures
        r == hex_digit(d as int),
{
    if d < 10 {
        (48 + d) as char
    } else {
        (55 + d) as char
    }
}

/// Percent-encodes a value for a request path or query. The request builder takes a target as it
/// is, so that an asset id with `?`, `#`, `/`, `&`, `=` or white space in it could otherwise alter
/// the target or add parameters.
pub fn percent_encode(value: &str) -> (r: String)
    ensures
        r@ == percent_encoded(encode_utf8(value@)),
{
    let bytes: &[u8] = value.as_bytes();
    let mut out: String = String::new();
    let mut i: usize = 0;
    assert(bytes@.skip(0) =~= bytes@);
    while i < bytes.len()
        invariant
            i <= bytes@.len(),
            percent_encoded(bytes@) == out@ + percent_encoded(bytes@.skip(i as int)),
        decreases bytes@.len() - i,
    {
        let b: u8 = bytes[i];
        let ghost before = out@;
        proof {
            assert(bytes@.skip(i as int)[0] == b);
            assert(bytes@.skip(i as int).drop_first() =~= bytes@.skip(i + 1));
        }
        if (65 <= b && b <= 90) || (97 <= b && b <= 122) || (48 <= b && b <= 57) || b == 45 || b
            == 95 || b == 46 || b == 126 {
            out.push(b as char);
        } else {
            out.push('%');
            out.push(hex_char(b / 16));
            out.push(hex_char(b % 16));
        }
        assert(out@ =~= before + encoded_byte(b));
        assert(percent_encoded(bytes@) =~= out@ + percent_encoded(bytes@.skip(i + 1)));
        i += 1;
    }
    assert(bytes@.skip(i as int) =~= Seq::<u8>::empty());
    assert(out@ + percent_encoded(bytes@.skip(i as int)) =~= out@);
    out
}

/// The nonce of a point in time: its nanoseconds since the Unix epoch in decimal, or `0` before
/// the epoch.
pub open spec fn time_nonce(now: SystemTime) -> Seq<char> {
    if clock_nanos(now) >= 0 {
        decimal(clock_nanos(now) as nat)
    } else {
        decimal(0)
    }
}

/// The nonce of a token request.
pub fn nonce_from_time(now: SystemTime) -> (r: String)
    ensures
        r@ == time_nonce(now),
{
    match now.duration_since(unix_epoch()) {
        Ok(span) => decimal_text(span.as_nanos()),
        Err(_) => decimal_text(0),
    }
}

/// The segments of a path: its pieces between slashes that are not empty.
pub open spec fn segments(path: Seq<char>) -> Seq<Seq<char>> {
    non_empty(split_on(path, '/'))
}

/// The value that a segment leads to: the member of an object with that name, or the item of an
/// array at that index.
pub open spec fn child(value: JsonView, segment: Seq<char>) -> Option<JsonView> {
    match value {
        JsonView::Object(members) => if members.dom().contains(segment) {
            Some(members[segment])
        } else {
            None
        },
        JsonView::Array(items) => match index_value(segment) {
            Some(i) => if i < items.len() {
                Some(items[i as int])
            } else {
                None
            },
            None => None,
        },
        _ => None,
    }
}

/// The value that some segments lead to, one after the other.
pub open spec fn descend(value: JsonView, path: Seq<Seq<char>>) -> Option<JsonView>
    decreases path.len(),
{
    if path.len() == 0 {
        Some(value)
    } else {
        match child(value, path[0]) {
            Some(next) => descend(next, path.drop_first()),
            None => None,
        }
    }
}

/// The text of a scalar: of a text itself, of a number as it is written, and `true` or `false`.
pub open spec fn leaf_text(value: JsonView) -> Option<Seq<char>> {
    match value {
        JsonView::Text(text) => Some(text),
        JsonView::Number(text) => Some(text),
        JsonView::Bool(b) => Some(
            if b {
                "true"@
            } else {
                "false"@
            },
        ),
        _ => None,
    }
}

/// The text that a path resolves to.
pub open spec fn resolved(root: JsonView, path: Seq<char>) -> Option<Seq<char>> {
    match descend(root, segments(path)) {
        Some(value) => leaf_text(value),
        None => None,
    }
}

/// An optional string holds an optional text.
pub open spec fn holds_text(r: Option<String>, text: Option<Seq<char>>) -> bool {
    match r {
        Some(s) => text == Some(s@),
        None => text is None,
    }
}

/// The value that a segment leads to.
fn child_of<'a>(value: &'a Json, segment: &str) -> (r: Option<&'a Json>)
    ensures
        match r {
            Some(next) => child(value.view(), segment@) == Some(next.view()),
            None => child(value.view(), segment@) is None,
        },
{
    match value {
        Json::Object(_) => value.get(segment),
        Json::Array(items) => {
            proof {
                items_view_is_itemwise(items@);
            }
            match parse_index(segment) {
                Some(i) => if i < items.len() {
                    assert(items_view(items@)[i as int] == items@[i as int].view());
                    Some(&items[i])
                } else {
                    None
                },
                None => None,
            }
        },
        _ => None,
    }
}

/// Resolves a path into a JSON value and gives the leaf as text.
///
/// A segment is an object key, which may itself hold dots since only slashes separate, or the
/// index of an array item. Only a scalar stamps cleanly into a header: an object, an array or null
/// gives `None`.
pub fn resolve_path(root: &Json, path: &str) -> (r: Option<String>)
    ensures
        holds_text(r, resolved(root.view(), path@)),
{
    let steps = keep_non_empty(split(path, '/'));
    let ghost all = texts(steps@);
    let mut cur: &Json = root;
    let mut i: usize = 0;
    assert(all.skip(0) =~= all);
    while i < steps.len()
        invariant
            i <= steps@.len(),
            all == texts(steps@),
            all == segments(path@),
            descend(root.view(), all) == descend(cur.view(), all.skip(i as int)),
        decreases steps@.len() - i,
    {
        proof {
            assert(all.skip(i as int)[0] == steps@[i as int]@);
            assert(all.skip(i as int).drop_first() =~= all.skip(i + 1));
        }
        match child_of(cur, steps[i].as_str()) {
            Some(next) => {
                cur = next;
            },
            None => {
                return None;
            },
        }
        i += 1;
    }
    assert(all.skip(i as int).len() == 0);
    match cur {
        Json::Text(text) => Some(text.clone()),
        Json::Number(text) => Some(text.clone()),
        Json::Bool(b) => Some(
            if *b {
                "true".to_string()
            } else {
                "false".to_string()
            },
        ),
        _ => None,
    }
}

/// What `serde_json::from_str` reads from a text as an object whose members are all texts, in
/// ascending order of their names; `None` where it reports an error.
pub uninterp spec fn json_string_map(text: Seq<char>) -> Option<Seq<(Seq<char>, Seq<char>)>>;

/// `serde_json::from_str` into a `BTreeMap` of strings: an error exactly where the text is no such
/// object, and else the members that [`json_string_map`] names. A `BTreeMap` hands its entries out
/// in ascending order of their keys.
#[verifier::external_body]
fn string_map_from_str(text: &str) -> (r: Result<Vec<(String, String)>, serde_json::Error>)
    ensures
        match r {
            Ok(pairs) => json_string_map(text@) == Some(header_texts(pairs@)) && keys_ascend(
                header_texts(pairs@),
            ),
            Err(_) => json_string_map(text@) is None,
        },
{
    serde_json::from_str::<BTreeMap<String, String>>(text).map(|map| map.into_iter().collect())
}

/// Parses a field map, a JSON object from header names to paths, into pairs in ascending order of
/// the names. Anything else gives no pair.
pub fn parse_field_map(json: &str) -> (r: Vec<(String, String)>)
    ensures
        header_texts(r@) == (match json_string_map(trimmed(json@)) {
            Some(pairs) => pairs,
            None => Seq::empty(),
        }),
        keys_ascend(header_texts(r@)),
{
    let text = trim(json);
    match string_map_from_str(text.as_str()) {
        Ok(pairs) => pairs,
        Err(_) => {
            let none: Vec<(String, String)> = Vec::new();
            assert(header_texts(none@) =~= Seq::empty());
            none
        },
    }
}

/// The fields of a value under a field map: of each pair whose path resolves, the header name with
/// the text. Where a name occurs again and resolves again, the later pair counts.
pub open spec fn mapped_fields(
    detail: JsonView,
    field_map: Seq<(Seq<char>, Seq<char>)>,
) -> Map<Seq<char>, Seq<char>>
    decreases field_map.len(),
{
    if field_map.len() == 0 {
        Map::empty()
    } else {
        let before = mapped_fields(detail, field_map.drop_last());
        match resolved(detail, field_map.last().1) {
            Some(text) => before.insert(field_map.last().0, text),
            None => before,
        }
    }
}

/// Extracts every mapped field that is found. Missing paths are skipped.
pub fn build_fields(detail: &Json, field_map: &[(String, String)]) -> (r: Fields)
    ensures
        r@ == mapped_fields(detail.view(), header_texts(field_map@)),
{
    let mut out = Fields::new();
    let mut i: usize = 0;
    let ghost all = header_texts(field_map@);
    while i < field_map.len()
        invariant
            i <= field_map@.len(),
            all == header_texts(field_map@),
            out@ == mapped_fields(detail.view(), all.take(i as int)),
        decreases field_map@.len() - i,
    {
        proof {
            let seen = all.take(i + 1);
            assert(seen.drop_last() =~= all.take(i as int));
            assert(seen.last() == all[i as int]);
        }
        if let Some(text) = resolve_path(detail, field_map[i].1.as_str()) {
            out.insert(field_map[i].0.clone(), text);
        }
        i += 1;
    }
    assert(all.take(i as int) =~= all);
    out
}

/// The character is a letter, a digit, or one of `-._~`.
pub open spec fn unreserved_char(c: char) -> bool {
    c <= '\u{7f}' && unreserved(c as u8)
}

/// An encoded value holds unreserved characters and percent signs only, so nothing in it can end a
/// path segment, begin a query or a fragment, or separate parameters.
pub proof fn percent_encoding_leaves_no_delimiter(bytes: Seq<u8>)
    ensures
        forall|i: int|
            0 <= i < percent_encoded(bytes).len() ==> {
                let c = #[trigger] percent_encoded(bytes)[i];
                &&& unreserved_char(c) || c == '%'
                &&& c != '?' && c != '#' && c != '/' && c != '&' && c != '='
                &&& !crate::text::white_space(c)
            },
    decreases bytes.len(),
{
    if bytes.len() > 0 {
        let rest = bytes.drop_first();
        percent_encoding_leaves_no_delimiter(rest);
        let head = encoded_byte(bytes[0]);
        let all = percent_encoded(bytes);
        assert forall|i: int| 0 <= i < all.len() implies {
            let c = #[trigger] all[i];
            &&& unreserved_char(c) || c == '%'
            &&& c != '?' && c != '#' && c != '/' && c != '&' && c != '='
            &&& !crate::text::white_space(c)
        } by {
            if i < head.len() {
                assert(all[i] == head[i]);
            } else {
                assert(all[i] == percent_encoded(rest)[i - head.len()]);
            }
        }
    }
}

/// A text of unreserved characters is encoded as itself.
pub proof fn unreserved_text_is_encoded_as_itself(text: Seq<char>)
    requires
        forall|i: int| 0 <= i < text.len() ==> unreserved_char(#[trigger] text[i]),
    ensures
        percent_encoded(encode_utf8(text)) == text,
{
    assert(vstd::utf8::is_ascii_chars(text)) by {
        assert forall|i: int| 0 <= i < text.len() implies '\0' <= #[trigger] text[i] <= '\u{7f}' by {
            assert(unreserved_char(text[i]));
            lemma_char_is_not_negative(text[i]);
        }
    }
    vstd::utf8::is_ascii_chars_encode_utf8(text);
    let bytes = encode_utf8(text);
    assert forall|i: int| 0 <= i < bytes.len() implies unreserved(#[trigger] bytes[i])
        && bytes[i] as char == text[i] by {
        assert(unreserved_char(text[i]));
        assert(text[i] as u8 == bytes[i]);
    }
    lemma_unreserved_bytes(bytes, text);
}

proof fn lemma_char_is_not_negative(c: char)
    ensures
        '\0' <= c,
{
}

proof fn lemma_unreserved_bytes(bytes: Seq<u8>, text: Seq<char>)
    requires
        bytes.len() == text.len(),
        forall|i: int|
            0 <= i < bytes.len() ==> unreserved(#[trigger] bytes[i]) && bytes[i] as char == text[i],
    ensures
        percent_encoded(bytes) == text,
    decreases bytes.len(),
{
    if bytes.len() == 0 {
        assert(percent_encoded(bytes) =~= text);
    } else {
        lemma_unreserved_bytes(bytes.drop_first(), text.drop_first());
        assert(text =~= seq![text[0]] + text.drop_first());
    }
}

/// The number that a capital hexadecimal digit writes.
pub open spec fn hex_value(c: char) -> int {
    if c <= '9' {
        c as int - 48
    } else {
        c as int - 55
    }
}

/// The bytes that an encoded value stands for.
pub open spec fn percent_decoded(text: Seq<char>) -> Seq<u8>
    decreases text.len(),
{
    if text.len() == 0 {
        Seq::empty()
    } else if text[0] == '%' && text.len() >= 3 {
        seq![(16 * hex_value(text[1]) + hex_value(text[2])) as u8] + percent_decoded(text.skip(3))
    } else {
        seq![text[0] as u8] + percent_decoded(text.skip(1))
    }
}

/// Decoding gives back the bytes that were encoded.
pub proof fn percent_decoding_gives_back_the_bytes(bytes: Seq<u8>)
    ensures
        percent_decoded(percent_encoded(bytes)) == bytes,
    decreases bytes.len(),
{
    if bytes.len() == 0 {
        assert(percent_decoded(percent_encoded(bytes)) =~= bytes);
    } else {
        let b = bytes[0];
        let rest = bytes.drop_first();
        let all = percent_encoded(bytes);
        percent_decoding_gives_back_the_bytes(rest);
        assert(bytes =~= seq![b] + rest);
        if unreserved(b) {
            assert(all[0] == b as char);
            assert(all.skip(1) =~= percent_encoded(rest));
        } else {
            assert(all[0] == '%' && all[1] == hex_digit(b as int / 16) && all[2] == hex_digit(
                b as int % 16,
            ));
            assert(all.skip(3) =~= percent_encoded(rest));
            assert(16 * (b as int / 16) + b as int % 16 == b);
        }
    }
}

/// Different texts are encoded differently.
pub proof fn percent_encoding_is_injective(a: Seq<char>, b: Seq<char>)
    requires
        percent_encoded(encode_utf8(a)) == percent_encoded(encode_utf8(b)),
    ensures
        a == b,
{
    percent_decoding_gives_back_the_bytes(encode_utf8(a));
    percent_decoding_gives_back_the_bytes(encode_utf8(b));
    crate::text::utf8_is_injective(a, b);
}

/// From the Unix epoch on, two different points in time have different nonces.
pub proof fn nonces_tell_points_in_time_apart(a: SystemTime, b: SystemTime)
    requires
        clock_nanos(a) >= 0,
        clock_nanos(b) >= 0,
        clock_nanos(a) != clock_nanos(b),
    ensures
        time_nonce(a) != time_nonce(b),
{
    if time_nonce(a) == time_nonce(b) {
        crate::number::decimal_is_injective(clock_nanos(a) as nat, clock_nanos(b) as nat);
    }
}

proof fn lemma_split_at_separator(p: Seq<char>, q: Seq<char>, sep: char)
    ensures
        split_on(p.push(sep) + q, sep) == split_on(p, sep) + split_on(q, sep),
        split_on(q, sep).len() > 0,
{
    crate::text::a_separator_splits(p, q, sep);
}

proof fn lemma_non_empty_of_two_lists(a: Seq<Seq<char>>, b: Seq<Seq<char>>)
    ensures
        non_empty(a + b) == non_empty(a) + non_empty(b),
{
    crate::text::empty_pieces_go(a, b, Seq::empty());
}

/// A slash joins paths: the segments of two paths with a slash between them are those of the first
/// and then those of the second. So slashes at the ends, or several in a row, change nothing.
pub proof fn a_slash_joins_paths(p: Seq<char>, q: Seq<char>)
    ensures
        segments(p.push('/') + q) == segments(p) + segments(q),
        segments(p.push('/')) == segments(p),
        segments(seq!['/'] + q) == segments(q),
{
    let empty = Seq::<char>::empty();
    assert(non_empty(split_on(empty, '/')) =~= Seq::<Seq<char>>::empty()) by {
        reveal_with_fuel(Seq::filter, 2);
        assert(split_on(empty, '/').drop_last() =~= Seq::<Seq<char>>::empty());
        assert(split_on(empty, '/').last() =~= empty);
    }
    lemma_split_at_separator(p, q, '/');
    lemma_non_empty_of_two_lists(split_on(p, '/'), split_on(q, '/'));
    lemma_split_at_separator(p, empty, '/');
    lemma_non_empty_of_two_lists(split_on(p, '/'), split_on(empty, '/'));
    assert(p.push('/') + empty =~= p.push('/'));
    assert(segments(p) + segments(empty) =~= segments(p));
    lemma_split_at_separator(empty, q, '/');
    lemma_non_empty_of_two_lists(split_on(empty, '/'), split_on(q, '/'));
    assert(empty.push('/') + q =~= seq!['/'] + q);
    assert(segments(empty) + segments(q) =~= segments(q));
}

/// Segments lead on from where the segments before them led to.
pub proof fn descent_goes_step_by_step(value: JsonView, first: Seq<Seq<char>>, then_on: Seq<Seq<char>>)
    ensures
        descend(value, first + then_on) == (match descend(value, first) {
            Some(next) => descend(next, then_on),
            None => None,
        }),
    decreases first.len(),
{
    if first.len() == 0 {
        assert(first + then_on =~= then_on);
    } else {
        assert((first + then_on).drop_first() =~= first.drop_first() + then_on);
        assert((first + then_on)[0] == first[0]);
        match child(value, first[0]) {
            Some(next) => descent_goes_step_by_step(next, first.drop_first(), then_on),
            None => {},
        }
    }
}

proof fn lemma_split_without_separator(key: Seq<char>, sep: char)
    requires
        !key.contains(sep),
    ensures
        split_on(key, sep) == seq![key],
{
    crate::text::a_text_without_separator_is_one_piece(key, sep);
}

/// A key without a slash is one segment, whatever dots it holds: it resolves to the member of that
/// very name.
pub proof fn a_key_without_slash_is_one_segment(root: JsonView, key: Seq<char>)
    requires
        key.len() > 0,
        !key.contains('/'),
    ensures
        segments(key) == seq![key],
        root is Object ==> resolved(root, key) == (match crate::json::member(root, key) {
            Some(value) => leaf_text(value),
            None => None,
        }),
{
    lemma_split_without_separator(key, '/');
    reveal(Seq::filter);
    assert(seq![key].drop_last() =~= Seq::<Seq<char>>::empty());
    assert(non_empty(Seq::<Seq<char>>::empty()) =~= Seq::<Seq<char>>::empty());
    assert(segments(key) =~= seq![key]);
    assert(seq![key].drop_first() =~= Seq::<Seq<char>>::empty());
    reveal_with_fuel(descend, 2);
}

/// A path to an object, an array or null resolves to nothing.
pub proof fn only_scalars_resolve(root: JsonView, path: Seq<char>)
    requires
        descend(root, segments(path)) matches Some(value) && (value is Object || value is Array
            || value is Null),
    ensures
        resolved(root, path) is None,
{
}

/// Under a field map whose names ascend, a header is there exactly where its path resolves, with
/// the text that it resolves to; no other header is there.
pub proof fn mapped_fields_are_the_resolved_ones(
    detail: JsonView,
    field_map: Seq<(Seq<char>, Seq<char>)>,
)
    requires
        keys_ascend(field_map),
    ensures
        forall|i: int|
            0 <= i < field_map.len() ==> {
                let pair = #[trigger] field_map[i];
                match resolved(detail, pair.1) {
                    Some(text) => mapped_fields(detail, field_map).dom().contains(pair.0)
                        && mapped_fields(detail, field_map)[pair.0] == text,
                    None => !mapped_fields(detail, field_map).dom().contains(pair.0),
                }
            },
        forall|name: Seq<char>|
            #[trigger] mapped_fields(detail, field_map).dom().contains(name)
                ==> crate::ordered::has_key(field_map, name),
    decreases field_map.len(),
{
    if field_map.len() > 0 {
        let shorter = field_map.drop_last();
        let top = field_map.len() - 1;
        assert(keys_ascend(shorter)) by {
            assert forall|a: int, b: int|
                0 <= a < b < shorter.len() implies crate::text::text_before(
                #[trigger] shorter[a].0,
                #[trigger] shorter[b].0,
            ) by {
                assert(crate::text::text_before(field_map[a].0, field_map[b].0));
            }
        }
        mapped_fields_are_the_resolved_ones(detail, shorter);
        let name = field_map[top].0;
        assert(!crate::ordered::has_key(shorter, name)) by {
            if crate::ordered::has_key(shorter, name) {
                let i = choose|i: int|
                    0 <= i < shorter.len() && (#[trigger] shorter[i]).0 == name;
                assert(crate::text::text_before(field_map[i].0, field_map[top].0));
                crate::text::text_order_is_strict_and_total(name, name, name);
            }
        }
        assert(!mapped_fields(detail, shorter).dom().contains(name));
        assert forall|i: int| 0 <= i < field_map.len() implies {
            let pair = #[trigger] field_map[i];
            match resolved(detail, pair.1) {
                Some(text) => mapped_fields(detail, field_map).dom().contains(pair.0)
                    && mapped_fields(detail, field_map)[pair.0] == text,
                None => !mapped_fields(detail, field_map).dom().contains(pair.0),
            }
        } by {
            if i < top {
                assert(shorter[i] == field_map[i]);
                assert(shorter[i].0 != name);
            }
        }
        assert forall|k: Seq<char>|
            #[trigger] mapped_fields(detail, field_map).dom().contains(k) implies crate::ordered::has_key(
            field_map,
            k,
        ) by {
            if k == name {
                assert(field_map[top].0 == k);
            } else {
                assert(mapped_fields(detail, shorter).dom().contains(k));
                let i = choose|i: int| 0 <= i < shorter.len() && (#[trigger] shorter[i]).0 == k;
                assert(field_map[i].0 == k);
            }
        }
    }
}

/// A letter, a digit, a hyphen, an underscore, a full stop and a tilde stand for themselves in a
/// request target; every other byte becomes a percent sign with its two hexadecimal digits in
/// capitals. What is written for bytes in a row is what is written for each.
pub proof fn each_byte_is_encoded_on_its_own(a: Seq<u8>, b: Seq<u8>, byte: u8)
    ensures
        percent_encoded(Seq::<u8>::empty()) == Seq::<char>::empty(),
        percent_encoded(a + b) == percent_encoded(a) + percent_encoded(b),
        percent_encoded(seq![byte]) == if (0x41 <= byte <= 0x5a) || (0x61 <= byte <= 0x7a) || (0x30
            <= byte <= 0x39) || byte == 0x2d || byte == 0x5f || byte == 0x2e || byte == 0x7e {
            seq![byte as char]
        } else {
            seq![
                '%',
                "0123456789ABCDEF"@[byte as int / 16],
                "0123456789ABCDEF"@[byte as int % 16],
            ]
        },
    decreases a.len(),
{
    reveal_strlit("0123456789ABCDEF");
    assert(seq![byte].drop_first() =~= Seq::<u8>::empty());
    assert(percent_encoded(Seq::<u8>::empty()) =~= Seq::<char>::empty());
    assert(percent_encoded(seq![byte]) == encoded_byte(seq![byte][0]) + percent_encoded(
        seq![byte].drop_first(),
    ));
    assert(percent_encoded(seq![byte]) =~= encoded_byte(byte));
    lemma_hex_digit(byte as int / 16);
    lemma_hex_digit(byte as int % 16);
    if a.len() == 0 {
        assert(a + b =~= b);
        assert(percent_encoded(a) + percent_encoded(b) =~= percent_encoded(b));
    } else {
        each_byte_is_encoded_on_its_own(a.drop_first(), b, byte);
        assert((a + b).drop_first() =~= a.drop_first() + b);
        assert((a + b)[0] == a[0]);
        assert(percent_encoded(a + b) =~= percent_encoded(a) + percent_encoded(b));
    }
}

proof fn lemma_hex_digit(d: int)
    requires
        0 <= d < 16,
    ensures
        hex_digit(d) == "0123456789ABCDEF"@[d],
{
    reveal_strlit("0123456789ABCDEF");
}

/// The nonce of a point in time writes its nanoseconds, and that of a point before the Unix epoch is
/// `0`.
pub proof fn a_nonce_writes_the_nanoseconds(now: SystemTime)
    ensures
        crate::number::all_digits(time_nonce(now)),
        crate::number::digits_value(time_nonce(now)) == if clock_nanos(now) >= 0 {
            clock_nanos(now)
        } else {
            0
        },
        time_nonce(now).len() > 1 ==> time_nonce(now)[0] != '0',
{
    let n = if clock_nanos(now) >= 0 {
        clock_nanos(now) as nat
    } else {
        0
    };
    crate::number::decimal_writes_its_number(n);
    crate::number::a_number_has_one_decimal_text(n, Seq::empty());
}

/// The empty path leads to the value itself, and a key, up to the next slash, to the member with that
/// name or the item with that index. A path behind a key goes on from there, and leads nowhere where
/// the key does.
pub proof fn a_path_goes_through_its_keys(
    root: JsonView,
    key: Seq<char>,
    rest: Seq<char>,
)
    requires
        key.len() > 0,
        !key.contains('/'),
    ensures
        resolved(root, Seq::empty()) == leaf_text(root),
        resolved(root, seq!['/'] + rest) == resolved(root, rest),
        match root {
            JsonView::Object(members) => if members.dom().contains(key) {
                &&& resolved(root, key) == leaf_text(members[key])
                &&& resolved(root, key.push('/') + rest) == resolved(members[key], rest)
            } else {
                &&& resolved(root, key) is None
                &&& resolved(root, key.push('/') + rest) is None
            },
            JsonView::Array(items) => match index_value(key) {
                Some(i) if i < items.len() => {
                    &&& resolved(root, key) == leaf_text(items[i as int])
                    &&& resolved(root, key.push('/') + rest) == resolved(items[i as int], rest)
                },
                _ => {
                    &&& resolved(root, key) is None
                    &&& resolved(root, key.push('/') + rest) is None
                },
            },
            _ => {
                &&& resolved(root, key) is None
                &&& resolved(root, key.push('/') + rest) is None
            },
        },
{
    a_slash_joins_paths(key, rest);
    a_key_without_slash_is_one_segment(root, key);
    assert(segments(Seq::<char>::empty()) =~= Seq::<Seq<char>>::empty()) by {
        a_text_of_slashes_has_no_segment();
    }
    assert(seq![key].drop_first() =~= Seq::<Seq<char>>::empty());
    assert((seq![key] + segments(rest)).drop_first() =~= segments(rest));
    assert((seq![key] + segments(rest))[0] == key);
    reveal_with_fuel(descend, 2);
}

proof fn a_text_of_slashes_has_no_segment()
    ensures
        segments(Seq::<char>::empty()) == Seq::<Seq<char>>::empty(),
{
    let empty = Seq::<char>::empty();
    lemma_split_without_separator(empty, '/');
    crate::text::empty_pieces_go(Seq::empty(), Seq::empty(), empty);
}

/// A text is stamped as it is, a number as it is written, and a truth value as `true` or `false`;
/// nothing else is stamped.
pub proof fn scalars_are_stamped_as_they_are(value: JsonView, text: Seq<char>, b: bool)
    ensures
        leaf_text(JsonView::Text(text)) == Some(text),
        leaf_text(JsonView::Number(text)) == Some(text),
        leaf_text(JsonView::Bool(true)) == Some("true"@),
        leaf_text(JsonView::Bool(false)) == Some("false"@),
        leaf_text(value) is Some <==> value is Text || value is Number || value is Bool,
{
}

/// A header is there exactly where one of its paths resolves, with the text of the last path that
/// does.
pub proof fn the_last_path_that_resolves_counts(
    detail: JsonView,
    field_map: Seq<(Seq<char>, Seq<char>)>,
)
    ensures
        forall|name: Seq<char>| #[trigger]
            mapped_fields(detail, field_map).dom().contains(name) <==> exists|i: int|
                0 <= i < field_map.len() && (#[trigger] field_map[i]).0 == name && resolved(
                    detail,
                    field_map[i].1,
                ) is Some,
        forall|i: int|
            #![trigger field_map[i]]
            0 <= i < field_map.len() && resolved(detail, field_map[i].1) is Some && (forall|j: int|
                i < j < field_map.len() && (#[trigger] field_map[j]).0 == field_map[i].0
                    ==> resolved(detail, field_map[j].1) is None) ==> mapped_fields(
                detail,
                field_map,
            )[field_map[i].0] == resolved(detail, field_map[i].1)->0,
{
    assert forall|name: Seq<char>| #[trigger]
        mapped_fields(detail, field_map).dom().contains(name) == exists|i: int|
            0 <= i < field_map.len() && (#[trigger] field_map[i]).0 == name && resolved(
                detail,
                field_map[i].1,
            ) is Some by {
        lemma_mapped_name(detail, field_map, name);
        if exists|i: int|
            0 <= i < field_map.len() && (#[trigger] field_map[i]).0 == name && resolved(
                detail,
                field_map[i].1,
            ) is Some {
            let i = choose|i: int|
                0 <= i < field_map.len() && (#[trigger] field_map[i]).0 == name && resolved(
                    detail,
                    field_map[i].1,
                ) is Some;
            lemma_mapped_path(detail, field_map, i);
        }
    }
    assert forall|i: int|
        #![trigger field_map[i]]
        0 <= i < field_map.len() && resolved(detail, field_map[i].1) is Some && (forall|j: int|
            i < j < field_map.len() && (#[trigger] field_map[j]).0 == field_map[i].0 ==> resolved(
                detail,
                field_map[j].1,
            ) is None) implies mapped_fields(detail, field_map)[field_map[i].0] == resolved(
        detail,
        field_map[i].1,
    )->0 by {
        lemma_mapped_value(detail, field_map, i);
    }
}

proof fn lemma_mapped_name(
    detail: JsonView,
    field_map: Seq<(Seq<char>, Seq<char>)>,
    name: Seq<char>,
)
    ensures
        mapped_fields(detail, field_map).dom().contains(name) ==> exists|i: int|
            0 <= i < field_map.len() && (#[trigger] field_map[i]).0 == name && resolved(
                detail,
                field_map[i].1,
            ) is Some,
    decreases field_map.len(),
{
    if field_map.len() > 0 && mapped_fields(detail, field_map).dom().contains(name) {
        let shorter = field_map.drop_last();
        let top = field_map.len() - 1;
        if mapped_fields(detail, shorter).dom().contains(name) {
            lemma_mapped_name(detail, shorter, name);
            let i = choose|i: int|
                0 <= i < shorter.len() && (#[trigger] shorter[i]).0 == name && resolved(
                    detail,
                    shorter[i].1,
                ) is Some;
            assert(field_map[i] == shorter[i]);
        } else {
            assert(field_map[top].0 == name);
        }
    }
}

proof fn lemma_mapped_path(detail: JsonView, field_map: Seq<(Seq<char>, Seq<char>)>, i: int)
    requires
        0 <= i < field_map.len(),
        resolved(detail, field_map[i].1) is Some,
    ensures
        mapped_fields(detail, field_map).dom().contains(field_map[i].0),
    decreases field_map.len(),
{
    if i < field_map.len() - 1 {
        assert(field_map.drop_last()[i] == field_map[i]);
        lemma_mapped_path(detail, field_map.drop_last(), i);
    }
}

proof fn lemma_mapped_value(detail: JsonView, field_map: Seq<(Seq<char>, Seq<char>)>, i: int)
    requires
        0 <= i < field_map.len(),
        resolved(detail, field_map[i].1) is Some,
        forall|j: int|
            i < j < field_map.len() && (#[trigger] field_map[j]).0 == field_map[i].0 ==> resolved(
                detail,
                field_map[j].1,
            ) is None,
    ensures
        mapped_fields(detail, field_map)[field_map[i].0] == resolved(detail, field_map[i].1)->0,
    decreases field_map.len(),
{
    let top = field_map.len() - 1;
    if i < top {
        let shorter = field_map.drop_last();
        assert(shorter[i] == field_map[i]);
        assert forall|j: int|
            i < j < shorter.len() && (#[trigger] shorter[j]).0 == shorter[i].0 implies resolved(
            detail,
            shorter[j].1,
        ) is None by {
            assert(field_map[j] == shorter[j]);
        }
        lemma_mapped_value(detail, shorter, i);
        assert(field_map[top].0 == field_map[i].0 ==> resolved(detail, field_map[top].1) is None);
    }
}

/// A resolved path gives its very text, and a path gives nothing only where it resolves to nothing.
pub proof fn a_result_holds_the_very_text(s: String, text: Option<Seq<char>>)
    ensures
        holds_text(Some(s), text) <==> text is Some && text->0 == s@,
        holds_text(None, text) <==> text is None,
{
}

} // verus!
