//! Text primitives: ordering, splitting, trimming, joining and searching.
//!
//! Every contract here speaks of a text as its sequence of characters.

use vstd::prelude::*;
use vstd::string::*;
use vstd::utf8::encode_utf8;

verus! {

/// `String::push` of the standard library: the character goes to the end of the text.
pub assume_specification[ String::push ](s: &mut String, ch: char)
    ensures
        final(s)@ == old(s)@.push(ch),
;

/// What `str::to_lowercase` of the standard library gives for a text.
pub uninterp spec fn lowercase(s: Seq<char>) -> Seq<char>;

/// `str::to_lowercase` of the standard library: the result is the text's Unicode lowercase form,
/// named by [`lowercase`].
#[verifier::external_body]
pub(crate) fn to_lowercase(s: &str) -> (r: String)
    ensures
        r@ == lowercase(s@),
{
    s.to_lowercase()
}

/// The texts that a sequence of strings holds.
pub open spec fn texts(v: Seq<String>) -> Seq<Seq<char>> {
    v.map_values(|s: String| s@)
}

/// The characters of a text.
pub fn chars_of(s: &str) -> (r: Vec<char>)
    ensures
        r@ == s@,
{
    let mut out: Vec<char> = Vec::new();
    for c in it: s.chars()
        invariant
            it.seq() == s@,
            out@ == s@.take(it.index() as int),
    {
        out.push(c);
    }
    out
}

/// The text made of the characters from `from` up to `to`.
pub fn text_of(chars: &Vec<char>, from: usize, to: usize) -> (r: String)
    requires
        from <= to <= chars@.len(),
    ensures
        r@ == chars@.subrange(from as int, to as int),
{
    let mut out: String = String::new();
    let mut i: usize = from;
    while i < to
        invariant
            from <= i <= to <= chars@.len(),
            out@ == chars@.subrange(from as int, i as int),
        decreases to - i,
    {
        out.push(chars[i]);
        i += 1;
    }
    out
}

/// The first byte sequence stands before the second in lexicographic order.
pub open spec fn bytes_before(a: Seq<u8>, b: Seq<u8>) -> bool
    decreases a.len(),
{
    if b.len() == 0 {
        false
    } else if a.len() == 0 {
        true
    } else {
        a[0] < b[0] || (a[0] == b[0] && bytes_before(a.drop_first(), b.drop_first()))
    }
}

/// The order of texts: lexicographic by their UTF-8 bytes.
pub open spec fn text_before(a: Seq<char>, b: Seq<char>) -> bool {
    bytes_before(encode_utf8(a), encode_utf8(b))
}

proof fn lemma_bytes_before_irreflexive(a: Seq<u8>)
    ensures
        !bytes_before(a, a),
    decreases a.len(),
{
    if a.len() > 0 {
        lemma_bytes_before_irreflexive(a.drop_first());
    }
}

proof fn lemma_bytes_before_transitive(a: Seq<u8>, b: Seq<u8>, c: Seq<u8>)
    requires
        bytes_before(a, b),
        bytes_before(b, c),
    ensures
        bytes_before(a, c),
    decreases a.len(),
{
    if a.len() > 0 && b.len() > 0 && c.len() > 0 && a[0] == b[0] && b[0] == c[0] {
        lemma_bytes_before_transitive(a.drop_first(), b.drop_first(), c.drop_first());
    }
}

proof fn lemma_bytes_before_total(a: Seq<u8>, b: Seq<u8>)
    ensures
        a == b || bytes_before(a, b) || bytes_before(b, a),
    decreases a.len(),
{
    if a.len() == 0 && b.len() == 0 {
        assert(a =~= b);
    } else if a.len() > 0 && b.len() > 0 && a[0] == b[0] {
        lemma_bytes_before_total(a.drop_first(), b.drop_first());
        if a.drop_first() == b.drop_first() {
            assert(a =~= seq![a[0]] + a.drop_first());
            assert(b =~= seq![b[0]] + b.drop_first());
        }
    }
}

/// Two texts with the same UTF-8 bytes are the same text.
pub proof fn utf8_is_injective(a: Seq<char>, b: Seq<char>)
    requires
        encode_utf8(a) == encode_utf8(b),
    ensures
        a == b,
{
    vstd::utf8::encode_utf8_decode_utf8(a);
    vstd::utf8::encode_utf8_decode_utf8(b);
}

/// The order of texts is a strict total order.
pub proof fn text_order_is_strict_and_total(a: Seq<char>, b: Seq<char>, c: Seq<char>)
    ensures
        !text_before(a, a),
        text_before(a, b) && text_before(b, c) ==> text_before(a, c),
        text_before(a, b) ==> !text_before(b, a),
        a == b || text_before(a, b) || text_before(b, a),
{
    lemma_bytes_before_irreflexive(encode_utf8(a));
    lemma_bytes_before_total(encode_utf8(a), encode_utf8(b));
    if text_before(a, b) && text_before(b, c) {
        lemma_bytes_before_transitive(encode_utf8(a), encode_utf8(b), encode_utf8(c));
    }
    if text_before(a, b) && text_before(b, a) {
        lemma_bytes_before_transitive(encode_utf8(a), encode_utf8(b), encode_utf8(a));
    }
    if encode_utf8(a) == encode_utf8(b) {
        utf8_is_injective(a, b);
    }
}

/// Where a text stands relative to another.
#[derive(Clone, Copy, Debug, PartialEq, Eq, Structural)]
pub enum Place {
    Before,
    Same,
    After,
}

proof fn lemma_bytes_before_shared_prefix(a: Seq<u8>, b: Seq<u8>, n: int)
    requires
        0 <= n <= a.len(),
        n <= b.len(),
        a.take(n) == b.take(n),
    ensures
        bytes_before(a, b) == bytes_before(a.skip(n), b.skip(n)),
    decreases n,
{
    if n == 0 {
        assert(a.skip(0) =~= a);
        assert(b.skip(0) =~= b);
    } else {
        assert(a[0] == a.take(n)[0]);
        assert(b[0] == b.take(n)[0]);
        let a1 = a.drop_first();
        let b1 = b.drop_first();
        assert(a1.take(n - 1) =~= a.take(n).drop_first());
        assert(b1.take(n - 1) =~= b.take(n).drop_first());
        lemma_bytes_before_shared_prefix(a1, b1, n - 1);
        assert(a1.skip(n - 1) =~= a.skip(n));
        assert(b1.skip(n - 1) =~= b.skip(n));
    }
}

/// Compares two texts in the order of [`text_before`].
pub fn place(a: &str, b: &str) -> (r: Place)
    ensures
        r == Place::Same <==> a@ == b@,
        r == Place::Before <==> text_before(a@, b@),
        r == Place::After <==> text_before(b@, a@),
{
    let x: &[u8] = a.as_bytes();
    let y: &[u8] = b.as_bytes();
    proof {
        text_order_is_strict_and_total(a@, b@, a@);
        text_order_is_strict_and_total(b@, a@, b@);
        text_order_is_strict_and_total(b@, b@, b@);
    }
    let mut i: usize = 0;
    while i < x.len() && i < y.len() && x[i] == y[i]
        invariant
            i <= x@.len(),
            i <= y@.len(),
            x@.take(i as int) == y@.take(i as int),
        decreases x@.len() - i,
    {
        proof {
            assert(x@.take(i + 1) =~= x@.take(i as int).push(x@[i as int]));
            assert(y@.take(i + 1) =~= y@.take(i as int).push(y@[i as int]));
        }
        i += 1;
    }
    proof {
        lemma_bytes_before_shared_prefix(x@, y@, i as int);
        lemma_bytes_before_shared_prefix(y@, x@, i as int);
    }
    if i == x.len() && i == y.len() {
        proof {
            assert(x@.take(i as int) =~= x@);
            assert(y@.take(i as int) =~= y@);
            utf8_is_injective(a@, b@);
        }
        Place::Same
    } else if i == x.len() || (i < y.len() && x[i] < y[i]) {
        Place::Before
    } else {
        Place::After
    }
}

/// Whether two texts are the same.
pub fn same_text(a: &str, b: &str) -> (r: bool)
    ensures
        r == (a@ == b@),
{
    match place(a, b) {
        Place::Same => true,
        Place::Before => false,
        Place::After => false,
    }
}

/// The pieces of a text between the occurrences of a separator, in order. A text without the
/// separator is one piece; two separators in a row enclose an empty piece.
pub open spec fn split_on(s: Seq<char>, sep: char) -> Seq<Seq<char>>
    decreases s.len(),
{
    if s.len() == 0 {
        seq![Seq::<char>::empty()]
    } else {
        let before = split_on(s.drop_last(), sep);
        if s.last() == sep {
            before.push(Seq::<char>::empty())
        } else {
            before.drop_last().push(before.last().push(s.last()))
        }
    }
}

/// Splits a text at every occurrence of `sep`.
pub fn split(s: &str, sep: char) -> (r: Vec<String>)
    ensures
        texts(r@) == split_on(s@, sep),
{
    let chars = chars_of(s);
    let mut out: Vec<String> = Vec::new();
    let mut piece: String = String::new();
    let mut i: usize = 0;
    assert(chars@.take(0) =~= Seq::<char>::empty());
    assert(texts(out@).push(piece@) =~= split_on(chars@.take(0), sep));
    while i < chars.len()
        invariant
            i <= chars@.len(),
            chars@ == s@,
            texts(out@).push(piece@) == split_on(chars@.take(i as int), sep),
        decreases chars@.len() - i,
    {
        let ghost before = texts(out@).push(piece@);
        let ghost seen = chars@.take(i + 1);
        let c = chars[i];
        assert(seen.drop_last() =~= chars@.take(i as int));
        assert(seen.last() == c);
        assert(before.drop_last() =~= texts(out@));
        if c == sep {
            let ghost old_out = out@;
            let ghost old_piece = piece;
            out.push(piece);
            piece = String::new();
            assert(texts(out@) =~= texts(old_out).push(old_piece@));
        } else {
            piece.push(c);
        }
        i += 1;
    }
    assert(chars@.take(i as int) =~= s@);
    let ghost old_out = out@;
    let ghost old_piece = piece;
    out.push(piece);
    assert(texts(out@) =~= texts(old_out).push(old_piece@));
    out
}

/// The pieces that are not empty.
pub open spec fn non_empty(pieces: Seq<Seq<char>>) -> Seq<Seq<char>> {
    pieces.filter(|p: Seq<char>| p.len() > 0)
}

/// Keeps the strings that are not empty, in order.
pub fn keep_non_empty(pieces: Vec<String>) -> (r: Vec<String>)
    ensures
        texts(r@) == non_empty(texts(pieces@)),
{
    let mut out: Vec<String> = Vec::new();
    let ghost keep = |p: Seq<char>| p.len() > 0;
    let mut i: usize = 0;
    assert(texts(pieces@).take(0) =~= Seq::<Seq<char>>::empty());
    assert(texts(out@) =~= texts(pieces@).take(0).filter(keep)) by {
        reveal(Seq::filter);
    }
    while i < pieces.len()
        invariant
            i <= pieces@.len(),
            keep == (|p: Seq<char>| p.len() > 0),
            texts(out@) == texts(pieces@).take(i as int).filter(keep),
        decreases pieces@.len() - i,
    {
        proof {
            reveal(Seq::filter);
            let seen = texts(pieces@).take(i + 1);
            assert(seen.drop_last() =~= texts(pieces@).take(i as int));
            assert(seen.last() == pieces@[i as int]@);
        }
        let ghost old_out = out@;
        if !pieces[i].as_str().is_empty() {
            let piece = pieces[i].clone();
            out.push(piece);
            assert(texts(out@) =~= texts(old_out).push(piece@));
        }
        i += 1;
    }
    assert(texts(pieces@).take(i as int) =~= texts(pieces@));
    out
}

/// The characters of the Unicode property White_Space.
pub open spec fn white_space(c: char) -> bool {
    ||| '\u{9}' <= c <= '\u{d}'
    ||| c == '\u{20}'
    ||| c == '\u{85}'
    ||| c == '\u{a0}'
    ||| c == '\u{1680}'
    ||| '\u{2000}' <= c <= '\u{200a}'
    ||| c == '\u{2028}'
    ||| c == '\u{2029}'
    ||| c == '\u{202f}'
    ||| c == '\u{205f}'
    ||| c == '\u{3000}'
}

/// Whether a character is white space.
pub fn is_white_space(c: char) -> (r: bool)
    ensures
        r == white_space(c),
{
    ('\u{9}' <= c && c <= '\u{d}') || c == '\u{20}' || c == '\u{85}' || c == '\u{a0}' || c
        == '\u{1680}' || ('\u{2000}' <= c && c <= '\u{200a}') || c == '\u{2028}' || c == '\u{2029}'
        || c == '\u{202f}' || c == '\u{205f}' || c == '\u{3000}'
}

/// A text without its leading white space.
pub open spec fn trimmed_start(s: Seq<char>) -> Seq<char>
    decreases s.len(),
{
    if s.len() > 0 && white_space(s.first()) {
        trimmed_start(s.drop_first())
    } else {
        s
    }
}

/// A text without its trailing white space.
pub open spec fn trimmed_end(s: Seq<char>) -> Seq<char>
    decreases s.len(),
{
    if s.len() > 0 && white_space(s.last()) {
        trimmed_end(s.drop_last())
    } else {
        s
    }
}

/// A text without its leading and trailing white space.
pub open spec fn trimmed(s: Seq<char>) -> Seq<char> {
    trimmed_end(trimmed_start(s))
}

/// Removes leading and trailing white space.
pub fn trim(s: &str) -> (r: String)
    ensures
        r@ == trimmed(s@),
{
    let chars = chars_of(s);
    let mut from: usize = 0;
    assert(chars@.skip(0) =~= s@);
    while from < chars.len() && is_white_space(chars[from])
        invariant
            from <= chars@.len(),
            trimmed_start(s@) == trimmed_start(chars@.skip(from as int)),
        decreases chars@.len() - from,
    {
        assert(chars@.skip(from as int).drop_first() =~= chars@.skip(from + 1));
        from += 1;
    }
    let mut to: usize = chars.len();
    assert(chars@.subrange(from as int, to as int) =~= chars@.skip(from as int));
    while from < to && is_white_space(chars[to - 1])
        invariant
            from <= to <= chars@.len(),
            trimmed(s@) == trimmed_end(chars@.subrange(from as int, to as int)),
        decreases to,
    {
        assert(chars@.subrange(from as int, to as int).drop_last() =~= chars@.subrange(
            from as int,
            to - 1,
        ));
        to -= 1;
    }
    text_of(&chars, from, to)
}

/// The items with the separator between every two of them.
pub open spec fn joined(items: Seq<Seq<char>>, sep: Seq<char>) -> Seq<char>
    decreases items.len(),
{
    if items.len() == 0 {
        Seq::empty()
    } else if items.len() == 1 {
        items[0]
    } else {
        joined(items.drop_last(), sep) + sep + items.last()
    }
}

/// Joins the items with the separator between every two of them.
pub fn join(items: &Vec<String>, sep: &str) -> (r: String)
    ensures
        r@ == joined(texts(items@), sep@),
{
    let mut out: String = String::new();
    let mut i: usize = 0;
    while i < items.len()
        invariant
            i <= items@.len(),
            out@ == joined(texts(items@).take(i as int), sep@),
        decreases items@.len() - i,
    {
        proof {
            let seen = texts(items@).take(i + 1);
            assert(seen.drop_last() =~= texts(items@).take(i as int));
            assert(seen.last() == items@[i as int]@);
        }
        if i > 0 {
            out.append(sep);
        }
        out.append(items[i].as_str());
        i += 1;
        assert(out@ =~= joined(texts(items@).take(i as int), sep@));
    }
    assert(texts(items@).take(i as int) =~= texts(items@));
    out
}

/// `pattern` stands in `s` from position `at` on.
pub open spec fn occurs_at(s: Seq<char>, pattern: Seq<char>, at: int) -> bool {
    &&& 0 <= at
    &&& at + pattern.len() <= s.len()
    &&& s.subrange(at, at + pattern.len()) == pattern
}

/// `pattern` stands somewhere in `s`.
pub open spec fn occurs_in(s: Seq<char>, pattern: Seq<char>) -> bool {
    exists|at: int| occurs_at(s, pattern, at)
}

fn matches_at(s: &Vec<char>, pattern: &Vec<char>, at: usize) -> (r: bool)
    requires
        at + pattern@.len() <= s@.len(),
    ensures
        r == occurs_at(s@, pattern@, at as int),
{
    let len: usize = s.len();
    let mut i: usize = 0;
    while i < pattern.len()
        invariant
            i <= pattern@.len(),
            at + pattern@.len() <= s@.len(),
            s@.len() == len,
            forall|j: int| 0 <= j < i ==> s@[at + j] == pattern@[j],
        decreases pattern@.len() - i,
    {
        if s[at + i] != pattern[i] {
            proof {
                assert(s@.subrange(at as int, at + pattern@.len())[i as int] == s@[at + i]);
            }
            return false;
        }
        i += 1;
    }
    assert(s@.subrange(at as int, at + pattern@.len()) =~= pattern@);
    true
}

/// Whether `pattern` stands somewhere in `s`.
pub fn contains_text(s: &str, pattern: &str) -> (r: bool)
    ensures
        r == occurs_in(s@, pattern@),
{
    let chars = chars_of(s);
    let wanted = chars_of(pattern);
    if wanted.len() > chars.len() {
        return false;
    }
    let last: usize = chars.len() - wanted.len();
    let mut at: usize = 0;
    while at <= last
        invariant
            at <= last + 1,
            last == chars@.len() - wanted@.len(),
            chars@ == s@,
            wanted@ == pattern@,
            forall|j: int| 0 <= j < at ==> !occurs_at(s@, pattern@, j),
        decreases last + 1 - at,
    {
        if matches_at(&chars, &wanted, at) {
            return true;
        }
        if at == last {
            assert forall|j: int| !occurs_at(s@, pattern@, j) by {
                if 0 <= j && j + pattern@.len() <= s@.len() {
                    assert(j <= last);
                }
            }
            return false;
        }
        at += 1;
    }
    false
}

/// Whether a text begins with `prefix`.
pub fn begins_with(s: &str, prefix: &str) -> (r: bool)
    ensures
        r == occurs_at(s@, prefix@, 0),
{
    let chars = chars_of(s);
    let wanted = chars_of(prefix);
    if wanted.len() > chars.len() {
        return false;
    }
    matches_at(&chars, &wanted, 0)
}

/// Whether one of the strings is `wanted`.
pub fn contains_item(items: &Vec<String>, wanted: &str) -> (r: bool)
    ensures
        r == texts(items@).contains(wanted@),
{
    let mut i: usize = 0;
    while i < items.len()
        invariant
            i <= items@.len(),
            forall|j: int| 0 <= j < i ==> texts(items@)[j] != wanted@,
        decreases items@.len() - i,
    {
        if same_text(items[i].as_str(), wanted) {
            assert(texts(items@)[i as int] == wanted@);
            return true;
        }
        i += 1;
    }
    false
}

/// The texts of some strings are those of the strings, one by one.
pub proof fn texts_are_taken_one_by_one(v: Seq<String>)
    ensures
        texts(v).len() == v.len(),
        forall|i: int| 0 <= i < v.len() ==> #[trigger] texts(v)[i] == v[i]@,
{
}

proof fn lemma_bytes_before_at_first_difference(x: Seq<u8>, y: Seq<u8>)
    ensures
        bytes_before(x, y) <==> exists|i: int|
            #![trigger x.take(i)]
            0 <= i <= x.len() && i < y.len() && x.take(i) == y.take(i) && (i == x.len() || x[i]
                < y[i]),
    decreases x.len(),
{
    if bytes_before(x, y) {
        if x.len() == 0 || x[0] < y[0] {
            assert(x.take(0) =~= y.take(0));
        } else {
            let x1 = x.drop_first();
            let y1 = y.drop_first();
            lemma_bytes_before_at_first_difference(x1, y1);
            let i = choose|i: int|
                #![trigger x1.take(i)]
                0 <= i <= x1.len() && i < y1.len() && x1.take(i) == y1.take(i) && (i == x1.len()
                    || x1[i] < y1[i]);
            assert(x.take(i + 1) =~= seq![x[0]] + x1.take(i));
            assert(y.take(i + 1) =~= seq![y[0]] + y1.take(i));
            if i < x1.len() {
                assert(x[i + 1] == x1[i] && y[i + 1] == y1[i]);
            }
        }
    }
    if exists|i: int|
        #![trigger x.take(i)]
        0 <= i <= x.len() && i < y.len() && x.take(i) == y.take(i) && (i == x.len() || x[i]
            < y[i]) {
        let i = choose|i: int|
            #![trigger x.take(i)]
            0 <= i <= x.len() && i < y.len() && x.take(i) == y.take(i) && (i == x.len() || x[i]
                < y[i]);
        lemma_bytes_before_shared_prefix(x, y, i);
        if i < x.len() {
            assert(x.skip(i)[0] == x[i] && y.skip(i)[0] == y[i]);
        }
    }
}

/// A text stands before another where, at the first byte in which their UTF-8 forms differ, it has
/// the smaller byte or has ended.
pub proof fn texts_are_ordered_at_the_first_difference(a: Seq<char>, b: Seq<char>)
    ensures
        ({
            let x = encode_utf8(a);
            let y = encode_utf8(b);
            text_before(a, b) <==> exists|i: int|
                #![trigger x.take(i)]
                0 <= i <= x.len() && i < y.len() && x.take(i) == y.take(i) && (i == x.len() || x[i]
                    < y[i])
        }),
{
    lemma_bytes_before_at_first_difference(encode_utf8(a), encode_utf8(b));
}

/// A separator ends one piece and begins another: the pieces of two texts with a separator between
/// them are those of the first and then those of the second.
pub proof fn a_separator_splits(p: Seq<char>, q: Seq<char>, sep: char)
    ensures
        split_on(p.push(sep) + q, sep) == split_on(p, sep) + split_on(q, sep),
        split_on(q, sep).len() > 0,
    decreases q.len(),
{
    let whole = p.push(sep) + q;
    if q.len() == 0 {
        assert(whole =~= p.push(sep));
        assert(whole.drop_last() =~= p);
        assert(split_on(whole, sep) =~= split_on(p, sep) + split_on(q, sep));
    } else {
        a_separator_splits(p, q.drop_last(), sep);
        assert(whole.drop_last() =~= p.push(sep) + q.drop_last());
        assert(whole.last() == q.last());
        assert(split_on(whole, sep) =~= split_on(p, sep) + split_on(q, sep));
    }
}

/// A text without the separator is its only piece.
pub proof fn a_text_without_separator_is_one_piece(s: Seq<char>, sep: char)
    requires
        !s.contains(sep),
    ensures
        split_on(s, sep) == seq![s],
    decreases s.len(),
{
    if s.len() == 0 {
        assert(split_on(s, sep)[0] =~= s);
        assert(split_on(s, sep) =~= seq![s]);
    } else {
        assert(!s.drop_last().contains(sep)) by {
            if s.drop_last().contains(sep) {
                let i = choose|i: int| 0 <= i < s.len() - 1 && s.drop_last()[i] == sep;
                assert(s[i] == sep);
            }
        }
        a_text_without_separator_is_one_piece(s.drop_last(), sep);
        assert(s[s.len() - 1] == s.last());
        assert(s.drop_last().push(s.last()) =~= s);
        assert(split_on(s, sep) =~= seq![s]);
    }
}

/// What stays of two lists when their empty pieces go is what stays of each; a piece stays where it
/// is not empty.
pub proof fn empty_pieces_go(a: Seq<Seq<char>>, b: Seq<Seq<char>>, piece: Seq<char>)
    ensures
        non_empty(a + b) == non_empty(a) + non_empty(b),
        non_empty(seq![piece]) == if piece.len() > 0 {
            seq![piece]
        } else {
            Seq::<Seq<char>>::empty()
        },
        non_empty(Seq::<Seq<char>>::empty()) == Seq::<Seq<char>>::empty(),
    decreases b.len(),
{
    reveal(Seq::filter);
    assert(seq![piece].drop_last() =~= Seq::<Seq<char>>::empty());
    assert(non_empty(Seq::<Seq<char>>::empty()) =~= Seq::<Seq<char>>::empty());
    assert(non_empty(seq![piece]) =~= if piece.len() > 0 {
        seq![piece]
    } else {
        Seq::<Seq<char>>::empty()
    });
    if b.len() == 0 {
        assert(a + b =~= a);
        assert(non_empty(b) =~= Seq::<Seq<char>>::empty());
        assert(non_empty(a) + non_empty(b) =~= non_empty(a));
    } else {
        empty_pieces_go(a, b.drop_last(), piece);
        assert((a + b).drop_last() =~= a + b.drop_last());
        assert((a + b).last() == b.last());
        assert(non_empty(a + b) =~= non_empty(a) + non_empty(b));
    }
}

/// White space is what Unicode calls so: twenty-five characters.
pub proof fn white_space_is_that_of_unicode(c: char)
    ensures
        white_space(c) <==> {
            let code = c as int;
            ||| 0x9 <= code <= 0xd
            ||| code == 0x20
            ||| code == 0x85
            ||| code == 0xa0
            ||| code == 0x1680
            ||| 0x2000 <= code <= 0x200a
            ||| 0x2028 <= code <= 0x2029
            ||| code == 0x202f
            ||| code == 0x205f
            ||| code == 0x3000
        },
{
}

/// Every character of a text is white space.
spec fn blank(s: Seq<char>) -> bool {
    forall|i: int| 0 <= i < s.len() ==> white_space(#[trigger] s[i])
}

proof fn lemma_trimmed_start(s: Seq<char>) -> (cut: Seq<char>)
    ensures
        s == cut + trimmed_start(s),
        blank(cut),
        trimmed_start(s).len() > 0 ==> !white_space(trimmed_start(s).first()),
    decreases s.len(),
{
    if s.len() > 0 && white_space(s.first()) {
        let cut = lemma_trimmed_start(s.drop_first());
        let more = seq![s.first()] + cut;
        assert(s =~= seq![s.first()] + s.drop_first());
        assert(seq![s.first()] + (cut + trimmed_start(s)) =~= more + trimmed_start(s));
        assert forall|i: int| 0 <= i < more.len() implies white_space(#[trigger] more[i]) by {
            if i > 0 {
                assert(more[i] == cut[i - 1]);
            }
        }
        more
    } else {
        assert(s =~= Seq::<char>::empty() + s);
        Seq::empty()
    }
}

proof fn lemma_trimmed_end(s: Seq<char>) -> (cut: Seq<char>)
    ensures
        s == trimmed_end(s) + cut,
        blank(cut),
        trimmed_end(s).len() > 0 ==> !white_space(trimmed_end(s).last()),
        trimmed_end(s).len() > 0 ==> trimmed_end(s).first() == s.first(),
    decreases s.len(),
{
    if s.len() > 0 && white_space(s.last()) {
        let cut = lemma_trimmed_end(s.drop_last());
        let more = cut.push(s.last());
        assert(s =~= s.drop_last().push(s.last()));
        assert((trimmed_end(s) + cut).push(s.last()) =~= trimmed_end(s) + more);
        assert forall|i: int| 0 <= i < more.len() implies white_space(#[trigger] more[i]) by {
            if i < cut.len() {
                assert(more[i] == cut[i]);
            }
        }
        more
    } else {
        assert(s =~= s + Seq::<char>::empty());
        Seq::empty()
    }
}

/// Trimming takes white space off both ends, and leaves none there.
pub proof fn trimming_takes_white_space_off_the_ends(s: Seq<char>) -> (cut: (Seq<char>, Seq<char>))
    ensures
        s == cut.0 + trimmed(s) + cut.1,
        forall|i: int| 0 <= i < cut.0.len() ==> white_space(#[trigger] cut.0[i]),
        forall|i: int| 0 <= i < cut.1.len() ==> white_space(#[trigger] cut.1[i]),
        trimmed(s).len() > 0 ==> !white_space(trimmed(s).first()) && !white_space(
            trimmed(s).last(),
        ),
{
    let front = lemma_trimmed_start(s);
    let back = lemma_trimmed_end(trimmed_start(s));
    assert(s =~= front + trimmed(s) + back);
    (front, back)
}

/// A text that begins and ends without white space is what is left when white space is put around
/// it and trimmed away; of white space alone nothing is left.
pub proof fn white_space_around_a_text_is_trimmed(front: Seq<char>, s: Seq<char>, back: Seq<char>)
    requires
        forall|i: int| 0 <= i < front.len() ==> white_space(#[trigger] front[i]),
        forall|i: int| 0 <= i < back.len() ==> white_space(#[trigger] back[i]),
        s.len() > 0 ==> !white_space(s.first()) && !white_space(s.last()),
    ensures
        trimmed(front + s + back) == s,
    decreases front.len() + back.len(),
{
    let whole = front + s + back;
    if front.len() > 0 {
        let rest = front.drop_first();
        assert(whole[0] == front[0]);
        assert(whole.drop_first() =~= rest + s + back);
        assert forall|i: int| 0 <= i < rest.len() implies white_space(#[trigger] rest[i]) by {
            assert(rest[i] == front[i + 1]);
        }
        white_space_around_a_text_is_trimmed(rest, s, back);
    } else if s.len() == 0 {
        assert(whole =~= back);
        if back.len() > 0 {
            let rest = back.drop_first();
            assert forall|i: int| 0 <= i < rest.len() implies white_space(#[trigger] rest[i]) by {
                assert(rest[i] == back[i + 1]);
            }
            white_space_around_a_text_is_trimmed(front, s, rest);
            assert(front + s + rest =~= rest);
            assert(whole.first() == back[0]);
        }
        assert(trimmed(whole) =~= s);
    } else {
        assert(whole =~= s + back);
        assert(whole.first() == s.first());
        assert(trimmed_start(whole) == whole);
        if back.len() > 0 {
            let rest = back.drop_last();
            assert(whole.last() == back.last() && back.last() == back[back.len() - 1]);
            assert(whole.drop_last() =~= front + s + rest);
            assert forall|i: int| 0 <= i < rest.len() implies white_space(#[trigger] rest[i]) by {
                assert(rest[i] == back[i]);
            }
            white_space_around_a_text_is_trimmed(front, s, rest);
            assert((front + s + rest).first() == s.first());
        } else {
            assert(whole =~= s);
        }
    }
}

/// Joining puts the separator between the items and nowhere else.
pub proof fn joining_puts_the_separator_between(
    a: Seq<Seq<char>>,
    b: Seq<Seq<char>>,
    item: Seq<char>,
    sep: Seq<char>,
)
    ensures
        joined(Seq::<Seq<char>>::empty(), sep) == Seq::<char>::empty(),
        joined(seq![item], sep) == item,
        a.len() > 0 && b.len() > 0 ==> joined(a + b, sep) == joined(a, sep) + sep + joined(b, sep),
    decreases b.len(),
{
    if a.len() > 0 && b.len() > 0 {
        assert((a + b).drop_last() =~= a + b.drop_last());
        assert((a + b).last() == b.last());
        if b.len() == 1 {
            assert(a + b.drop_last() =~= a);
        } else {
            joining_puts_the_separator_between(a, b.drop_last(), item, sep);
            assert(joined(a + b, sep) =~= joined(a, sep) + sep + joined(b, sep));
        }
    }
}

/// A pattern stands at a place where the text goes on, character for character, as the pattern
/// does.
pub proof fn a_pattern_stands_where_its_characters_do(s: Seq<char>, pattern: Seq<char>, at: int)
    ensures
        occurs_at(s, pattern, at) <==> 0 <= at && at + pattern.len() <= s.len() && forall|i: int|
            0 <= i < pattern.len() ==> #[trigger] pattern[i] == s[at + i],
        occurs_at(s, pattern, 0) <==> exists|rest: Seq<char>| s == #[trigger] (pattern + rest),
{
    if occurs_at(s, pattern, at) {
        assert forall|i: int| 0 <= i < pattern.len() implies #[trigger] pattern[i] == s[at + i] by {
            assert(s.subrange(at, at + pattern.len())[i] == s[at + i]);
        }
    }
    if 0 <= at && at + pattern.len() <= s.len() && forall|i: int|
        0 <= i < pattern.len() ==> #[trigger] pattern[i] == s[at + i] {
        assert(s.subrange(at, at + pattern.len()) =~= pattern);
    }
    if occurs_at(s, pattern, 0) {
        assert(s =~= pattern + s.skip(pattern.len() as int));
    }
    if exists|rest: Seq<char>| s == #[trigger] (pattern + rest) {
        assert(s.subrange(0, pattern.len() as int) =~= pattern);
    }
}

/// A pattern stands in a text exactly where the text is the pattern with something, or nothing,
/// before and behind it.
pub proof fn a_pattern_stands_between_the_rest(s: Seq<char>, pattern: Seq<char>)
    ensures
        occurs_in(s, pattern) <==> exists|front: Seq<char>, back: Seq<char>|
            s == #[trigger] (front + pattern + back),
{
    if occurs_in(s, pattern) {
        let at = choose|at: int| occurs_at(s, pattern, at);
        let front = s.take(at);
        let back = s.skip(at + pattern.len());
        a_pattern_stands_where_its_characters_do(s, pattern, at);
        assert(s =~= front + pattern + back);
    }
    if exists|front: Seq<char>, back: Seq<char>| s == #[trigger] (front + pattern + back) {
        let (front, back) = choose|front: Seq<char>, back: Seq<char>|
            s == #[trigger] (front + pattern + back);
        assert(s.subrange(front.len() as int, (front.len() + pattern.len()) as int) =~= pattern);
        assert(occurs_at(s, pattern, front.len() as int));
    }
}

/// The pieces of a text hold no separator, and joined with it they are the text again.
pub proof fn pieces_join_to_the_text(s: Seq<char>, sep: char)
    ensures
        split_on(s, sep).len() > 0,
        joined(split_on(s, sep), seq![sep]) == s,
        forall|i: int| 0 <= i < split_on(s, sep).len() ==> !(#[trigger] split_on(s, sep)[i]).contains(
            sep,
        ),
    decreases s.len(),
{
    if !s.contains(sep) {
        a_text_without_separator_is_one_piece(s, sep);
    } else {
        let at = choose|at: int| 0 <= at < s.len() && s[at] == sep;
        let p = s.take(at);
        let q = s.skip(at + 1);
        assert(s =~= p.push(sep) + q);
        a_separator_splits(p, q, sep);
        pieces_join_to_the_text(p, sep);
        pieces_join_to_the_text(q, sep);
        let a = split_on(p, sep);
        let b = split_on(q, sep);
        joining_puts_the_separator_between(a, b, p, seq![sep]);
        assert(p + seq![sep] + q =~= s);
        assert forall|i: int| 0 <= i < (a + b).len() implies !(#[trigger] (a + b)[i]).contains(
            sep,
        ) by {
            if i < a.len() {
                assert((a + b)[i] == a[i]);
            } else {
                assert((a + b)[i] == b[i - a.len()]);
            }
        }
    }
}

/// Texts without the separator, joined with it, are the pieces of what they make.
pub proof fn a_joined_text_splits_into_its_pieces(pieces: Seq<Seq<char>>, sep: char)
    requires
        pieces.len() > 0,
        forall|i: int| 0 <= i < pieces.len() ==> !(#[trigger] pieces[i]).contains(sep),
    ensures
        split_on(joined(pieces, seq![sep]), sep) == pieces,
    decreases pieces.len(),
{
    if pieces.len() == 1 {
        assert(pieces =~= seq![pieces[0]]);
        a_text_without_separator_is_one_piece(pieces[0], sep);
    } else {
        let before = pieces.drop_last();
        let last = pieces.last();
        assert forall|i: int| 0 <= i < before.len() implies !(#[trigger] before[i]).contains(
            sep,
        ) by {
            assert(before[i] == pieces[i]);
        }
        a_joined_text_splits_into_its_pieces(before, sep);
        assert(last == pieces[pieces.len() - 1]);
        a_text_without_separator_is_one_piece(last, sep);
        let front = joined(before, seq![sep]);
        assert(joined(pieces, seq![sep]) =~= front.push(sep) + last);
        a_separator_splits(front, last, sep);
        assert(before + seq![last] =~= pieces);
    }
}

} // verus!
