//! URLs: path segments, query strings, and the channel endpoint that belongs
//! to an API origin.
use vstd::prelude::*;
use vstd::utf8::*;
use crate::error::Error;
use crate::text::{chars_of, same};

verus! {

/// `url::Url`, carried between the calls that make and change it.
#[verifier::external_type_specification]
#[verifier::external_body]
pub struct ExUrl(url::Url);

// ---------------------------------------------------------------------------
// Form encoding
// ---------------------------------------------------------------------------

/// The bytes that form encoding leaves as they are.
pub open spec fn unreserved(b: u8) -> bool {
    ||| 48 <= b <= 57
    ||| 65 <= b <= 90
    ||| 97 <= b <= 122
    ||| b == 42
    ||| b == 45
    ||| b == 46
    ||| b == 95
}

/// An upper-case hexadecimal digit.
pub open spec fn hex_digit(d: int) -> char {
    if d < 10 {
        (48 + d) as char
    } else {
        (55 + d) as char
    }
}

/// One byte in form encoding.
pub open spec fn encoded_byte(b: u8) -> Seq<char> {
    if unreserved(b) {
        seq![b as char]
    } else if b == 32 {
        seq!['+']
    } else {
        seq!['%', hex_digit(b as int / 16), hex_digit(b as int % 16)]
    }
}

/// Bytes in form encoding.
pub open spec fn form_encoded(bytes: Seq<u8>) -> Seq<char>
    decreases bytes.len(),
{
    if bytes.len() == 0 {
        Seq::empty()
    } else {
        encoded_byte(bytes[0]) + form_encoded(bytes.drop_first())
    }
}

/// A text in form encoding, by way of its UTF-8 bytes.
pub open spec fn encoded_text(s: Seq<char>) -> Seq<char> {
    form_encoded(encode_utf8(s))
}

/// `url::form_urlencoded::byte_serialize`, its pieces joined: letters, digits
/// and `*-._` stay, a space becomes `+`, every other byte becomes `%` and two
/// upper-case hexadecimal digits.
#[verifier::external_body]
fn byte_serialize(bytes: &[u8]) -> (r: String)
    ensures
        r@ == form_encoded(bytes@),
{
    url::form_urlencoded::byte_serialize(bytes).collect()
}

/// Whether a character can occur in form-encoded text.
pub open spec fn encoded_char(c: char) -> bool {
    c == '+' || segment_char(c)
}

/// Form-encoded text consists of unreserved characters, `+` and `%`, and holds
/// at most three for each byte.
pub proof fn form_encoded_shape(bytes: Seq<u8>)
    ensures
        forall|i: int|
            0 <= i < form_encoded(bytes).len() ==> encoded_char(#[trigger] form_encoded(bytes)[i]),
        form_encoded(bytes).len() <= 3 * bytes.len(),
        is_ascii_chars(form_encoded(bytes)),
    decreases bytes.len(),
{
    if bytes.len() > 0 {
        let head = encoded_byte(bytes[0]);
        let tail = form_encoded(bytes.drop_first());
        form_encoded_shape(bytes.drop_first());
        assert(is_ascii_chars(head));
        is_ascii_chars_concat(head + tail, head, tail);
        assert forall|i: int| 0 <= i < (head + tail).len() implies encoded_char(
            #[trigger] (head + tail)[i],
        ) by {
            if i < head.len() {
                assert((head + tail)[i] == head[i]);
            } else {
                assert((head + tail)[i] == tail[i - head.len()]);
            }
        }
    }
}

// ---------------------------------------------------------------------------
// Path segments
// ---------------------------------------------------------------------------

/// One byte of a path segment: unreserved ones stay, every other becomes `%`
/// and two upper-case hexadecimal digits.
pub open spec fn segment_byte(b: u8) -> Seq<char> {
    if unreserved(b) {
        seq![b as char]
    } else {
        seq!['%', hex_digit(b as int / 16), hex_digit(b as int % 16)]
    }
}

/// Bytes as a percent-encoded path segment.
pub open spec fn segment_encoded(bytes: Seq<u8>) -> Seq<char>
    decreases bytes.len(),
{
    if bytes.len() == 0 {
        Seq::empty()
    } else {
        segment_byte(bytes[0]) + segment_encoded(bytes.drop_first())
    }
}

/// Whether a character can occur in a percent-encoded segment.
pub open spec fn segment_char(c: char) -> bool {
    c == '%' || (c <= '\u{7f}' && unreserved(c as u8))
}

/// The value of a hexadecimal digit.
pub open spec fn hex_value(c: char) -> int {
    if c <= '9' {
        c as int - 48
    } else {
        c as int - 55
    }
}

/// The bytes that a percent-encoded text stands for.
pub open spec fn percent_decoded(s: Seq<char>) -> Seq<u8>
    decreases s.len(),
{
    if s.len() == 0 {
        Seq::empty()
    } else if s[0] == '%' && s.len() >= 3 {
        seq![(16 * hex_value(s[1]) + hex_value(s[2])) as u8] + percent_decoded(s.skip(3))
    } else {
        seq![s[0] as u8] + percent_decoded(s.drop_first())
    }
}

/// A text with each `+` written as `%20`.
spec fn plus_escaped(s: Seq<char>) -> Seq<char>
    decreases s.len(),
{
    if s.len() == 0 {
        Seq::empty()
    } else if s[0] == '+' {
        seq!['%', '2', '0'] + plus_escaped(s.drop_first())
    } else {
        seq![s[0]] + plus_escaped(s.drop_first())
    }
}

proof fn plus_escaped_concat(a: Seq<char>, b: Seq<char>)
    ensures
        plus_escaped(a + b) == plus_escaped(a) + plus_escaped(b),
    decreases a.len(),
{
    if a.len() == 0 {
        assert(a + b =~= b);
        assert(plus_escaped(a) + plus_escaped(b) =~= plus_escaped(b));
    } else {
        plus_escaped_concat(a.drop_first(), b);
        assert((a + b).drop_first() =~= a.drop_first() + b);
        assert(plus_escaped(a + b) =~= plus_escaped(a) + plus_escaped(b));
    }
}

/// Form encoding writes `+` for a space and nothing else, so that escaping it
/// gives the percent-encoded segment.
proof fn escaped_form_is_the_segment(bytes: Seq<u8>)
    ensures
        plus_escaped(form_encoded(bytes)) == segment_encoded(bytes),
    decreases bytes.len(),
{
    if bytes.len() > 0 {
        let b = bytes[0];
        let head = encoded_byte(b);
        let tail = form_encoded(bytes.drop_first());
        escaped_form_is_the_segment(bytes.drop_first());
        plus_escaped_concat(head, tail);
        reveal_with_fuel(plus_escaped, 4);
        assert(plus_escaped(head) =~= segment_byte(b));
    }
}

/// Percent-encode one path segment without changing path separators.
pub fn encode_path(value: &str) -> (r: String)
    ensures
        r@ == segment_encoded(encode_utf8(value@)),
{
    let form = byte_serialize(value.as_bytes());
    let chars = chars_of(form.as_str());
    let mut out = String::new();
    let mut i: usize = 0;
    let ghost all = chars@;
    proof {
        escaped_form_is_the_segment(encode_utf8(value@));
        assert(all.skip(0) =~= all);
        assert(out@ + plus_escaped(all) =~= plus_escaped(all));
        reveal_strlit("%20");
    }
    while i < chars.len()
        invariant
            i <= chars.len(),
            all == chars@,
            "%20"@ =~= seq!['%', '2', '0'],
            out@ + plus_escaped(all.skip(i as int)) == plus_escaped(all),
        decreases chars.len() - i,
    {
        let ghost before = out@;
        proof {
            assert(all.skip(i as int)[0] == all[i as int]);
            assert(all.skip(i as int).drop_first() =~= all.skip(i + 1));
        }
        if chars[i] == '+' {
            out.append("%20");
        } else {
            out.push(chars[i]);
        }
        assert(out@ + plus_escaped(all.skip(i + 1)) =~= before + plus_escaped(
            all.skip(i as int),
        ));
        i += 1;
    }
    assert(all.skip(i as int) =~= Seq::empty());
    assert(out@ + plus_escaped(all.skip(i as int)) =~= out@);
    out
}

/// An encoded segment holds no path separator and nothing else that has a
/// meaning in a URL: it consists of unreserved characters and `%`.
pub proof fn law_encoded_segment_is_inert(bytes: Seq<u8>)
    ensures
        forall|i: int|
            0 <= i < segment_encoded(bytes).len() ==> segment_char(
                #[trigger] segment_encoded(bytes)[i],
            ),
    decreases bytes.len(),
{
    if bytes.len() > 0 {
        let head = segment_byte(bytes[0]);
        let tail = segment_encoded(bytes.drop_first());
        law_encoded_segment_is_inert(bytes.drop_first());
        assert forall|i: int| 0 <= i < (head + tail).len() implies segment_char(
            #[trigger] (head + tail)[i],
        ) by {
            if i < head.len() {
                assert((head + tail)[i] == head[i]);
            } else {
                assert((head + tail)[i] == tail[i - head.len()]);
            }
        }
    }
}

/// A text of unreserved characters is its own encoding.
pub proof fn law_unreserved_text_is_unchanged(bytes: Seq<u8>)
    requires
        forall|i: int| 0 <= i < bytes.len() ==> unreserved(#[trigger] bytes[i]),
    ensures
        segment_encoded(bytes) == bytes.map_values(|b: u8| b as char),
    decreases bytes.len(),
{
    if bytes.len() > 0 {
        assert(unreserved(bytes[0]));
        assert forall|i: int| 0 <= i < bytes.drop_first().len() implies unreserved(
            #[trigger] bytes.drop_first()[i],
        ) by {
            assert(unreserved(bytes[i + 1]));
        }
        law_unreserved_text_is_unchanged(bytes.drop_first());
    }
    assert(segment_encoded(bytes) =~= bytes.map_values(|b: u8| b as char));
}

/// Percent-decoding an encoded segment gives its bytes back.
pub proof fn law_decoding_gives_the_segment_back(bytes: Seq<u8>)
    ensures
        percent_decoded(segment_encoded(bytes)) == bytes,
    decreases bytes.len(),
{
    if bytes.len() == 0 {
        assert(percent_decoded(segment_encoded(bytes)) =~= bytes);
    } else {
        let b = bytes[0];
        let head = segment_byte(b);
        let tail = segment_encoded(bytes.drop_first());
        let s = head + tail;
        law_decoding_gives_the_segment_back(bytes.drop_first());
        assert(s[0] == head[0]);
        if unreserved(b) {
            assert(s.drop_first() =~= tail);
        } else {
            assert(s[1] == head[1]);
            assert(s[2] == head[2]);
            assert(s.skip(3) =~= tail);
            assert(16 * (b as int / 16) + b as int % 16 == b as int);
        }
        assert(percent_decoded(s) =~= seq![b] + bytes.drop_first());
        assert(seq![b] + bytes.drop_first() =~= bytes);
    }
}

/// Different segments have different encodings.
pub proof fn law_encoding_is_injective(a: Seq<char>, b: Seq<char>)
    requires
        segment_encoded(encode_utf8(a)) == segment_encoded(encode_utf8(b)),
    ensures
        a == b,
{
    law_decoding_gives_the_segment_back(encode_utf8(a));
    law_decoding_gives_the_segment_back(encode_utf8(b));
    encode_utf8_decode_utf8(a);
    encode_utf8_decode_utf8(b);
}

/// Name and value pairs in form encoding, joined by `&`.
pub open spec fn form_pairs(pairs: Seq<(Seq<char>, Seq<char>)>) -> Seq<char>
    decreases pairs.len(),
{
    if pairs.len() == 0 {
        Seq::empty()
    } else {
        let before = form_pairs(pairs.drop_last());
        let pair = encoded_text(pairs.last().0) + seq!['='] + encoded_text(pairs.last().1);
        if pairs.len() == 1 {
            pair
        } else {
            before + seq!['&'] + pair
        }
    }
}

// ---------------------------------------------------------------------------
// Queries
// ---------------------------------------------------------------------------

/// The position of the first such character; the length where there is none.
pub open spec fn position(s: Seq<char>, c: char) -> nat
    decreases s.len(),
{
    if s.len() == 0 || s[0] == c {
        0
    } else {
        1 + position(s.drop_first(), c)
    }
}

/// What stands between the URL and one more query pair.
pub open spec fn separator(main: Seq<char>) -> Seq<char> {
    let at = position(main, '?');
    if at == main.len() {
        seq!['?']
    } else if at + 1 == main.len() {
        Seq::empty()
    } else {
        seq!['&']
    }
}

/// A serialized URL without its fragment.
pub open spec fn main_of(url: Seq<char>) -> Seq<char> {
    url.take(position(url, '#') as int)
}

/// Whether a serialized URL has a fragment.
pub open spec fn has_fragment(url: Seq<char>) -> bool {
    position(url, '#') < url.len()
}

/// Whether a URL without fragment has a query.
pub open spec fn has_query(main: Seq<char>) -> bool {
    position(main, '?') < main.len()
}

/// A URL without fragment, with one more query pair at its end.
pub open spec fn pair_appended(main: Seq<char>, key: Seq<char>, value: Seq<char>) -> Seq<char> {
    main + separator(main) + encoded_text(key) + seq!['='] + encoded_text(value)
}

/// A serialized URL with one more query pair. The pair goes to the end of the
/// query, which the fragment follows.
pub open spec fn with_pair(url: Seq<char>, key: Seq<char>, value: Seq<char>) -> Seq<char> {
    pair_appended(main_of(url), key, value) + url.skip(position(url, '#') as int)
}

/// A serialized URL with more query pairs, in their order.
pub open spec fn with_pairs(url: Seq<char>, pairs: Seq<(Seq<char>, Seq<char>)>) -> Seq<char>
    decreases pairs.len(),
{
    if pairs.len() == 0 {
        url
    } else {
        with_pair(with_pairs(url, pairs.drop_last()), pairs.last().0, pairs.last().1)
    }
}

/// [`position`] is at most the length, the character stands there, and it
/// does not stand before.
pub proof fn position_shape(s: Seq<char>, c: char)
    ensures
        position(s, c) <= s.len(),
        position(s, c) < s.len() ==> s[position(s, c) as int] == c,
        forall|i: int| 0 <= i < position(s, c) ==> s[i] != c,
    decreases s.len(),
{
    if s.len() > 0 && s[0] != c {
        position_shape(s.drop_first(), c);
        assert forall|i: int| 0 <= i < position(s, c) implies s[i] != c by {
            if i > 0 {
                assert(s.drop_first()[i - 1] != c);
            }
        }
    }
}

/// The first position of a character is where it stands and stood not before.
pub proof fn position_is(s: Seq<char>, c: char, at: nat)
    requires
        at <= s.len(),
        at < s.len() ==> s[at as int] == c,
        forall|i: int| 0 <= i < at ==> s[i] != c,
    ensures
        position(s, c) == at,
{
    position_shape(s, c);
    let p = position(s, c) as int;
    if p < at {
        assert(s[p] != c);
    }
    if at < p {
        assert(s[at as int] != c);
    }
}

/// A query pair changes a URL before its fragment only.
proof fn pair_main(url: Seq<char>, key: Seq<char>, value: Seq<char>)
    ensures
        ({
            let out = with_pair(url, key, value);
            let end = position(url, '#') as int;
            let out_end = position(out, '#') as int;
            &&& end <= url.len()
            &&& out_end <= out.len()
            &&& main_of(out) == pair_appended(main_of(url), key, value)
            &&& out.skip(out_end) == url.skip(end)
            &&& has_fragment(out) == has_fragment(url)
        }),
{
    let out = with_pair(url, key, value);
    let end = position(url, '#') as int;
    position_shape(url, '#');
    let main = main_of(url);
    let sep = separator(main);
    let k = encoded_text(key);
    let v = encoded_text(value);
    form_encoded_shape(encode_utf8(key));
    form_encoded_shape(encode_utf8(value));
    let head = pair_appended(main, key, value);
    assert forall|i: int| 0 <= i < head.len() implies head[i] != '#' by {
        let a = main.len() as int;
        let b = a + sep.len();
        let c = b + k.len();
        if i < a {
            assert(head[i] == url[i]);
        } else if i < b {
            assert(head[i] == sep[i - a]);
        } else if i < c {
            assert(head[i] == k[i - b]);
            assert(encoded_char(k[i - b]));
        } else if i > c {
            assert(head[i] == v[i - c - 1]);
            assert(encoded_char(v[i - c - 1]));
        }
    }
    if end < url.len() {
        assert(out[head.len() as int] == url.skip(end)[0]);
    }
    position_is(out, '#', head.len());
    assert(out.skip(head.len() as int) =~= url.skip(end));
    assert(out.take(head.len() as int) =~= head);
}

/// Adding query pairs keeps everything of the URL before its fragment, and the
/// fragment itself stays at the end.
pub proof fn law_pairs_keep_the_url(url: Seq<char>, pairs: Seq<(Seq<char>, Seq<char>)>)
    ensures
        ({
            let end = position(url, '#') as int;
            let out = with_pairs(url, pairs);
            let out_end = position(out, '#') as int;
            &&& end <= out_end <= out.len()
            &&& out.take(end) == url.take(end)
            &&& out.skip(out_end) == url.skip(end)
            &&& has_fragment(out) == has_fragment(url)
        }),
    decreases pairs.len(),
{
    position_shape(url, '#');
    if pairs.len() > 0 {
        let before = with_pairs(url, pairs.drop_last());
        let out = with_pairs(url, pairs);
        law_pairs_keep_the_url(url, pairs.drop_last());
        pair_main(before, pairs.last().0, pairs.last().1);
        let end = position(url, '#') as int;
        let middle = position(before, '#') as int;
        let out_end = position(out, '#') as int;
        assert(main_of(out).len() == out_end);
        assert(out.take(end) =~= before.take(end)) by {
            assert forall|i: int| 0 <= i < end implies out[i] == before[i] by {
                assert(main_of(out)[i] == main_of(before)[i]);
            }
        }
    }
}

proof fn byte_length_concat(a: Seq<char>, b: Seq<char>)
    ensures
        byte_length(a + b) == byte_length(a) + byte_length(b),
    decreases a.len(),
{
    if a.len() == 0 {
        assert(a + b =~= b);
    } else {
        byte_length_concat(a.drop_first(), b);
        assert((a + b).drop_first() =~= a.drop_first() + b);
    }
}

/// The number of characters that a query pair is written with.
pub open spec fn pair_length(key: Seq<char>, value: Seq<char>) -> nat {
    encoded_text(key).len() + 1 + encoded_text(value).len()
}

/// A query pair adds the separator and its own length; then there is a query,
/// and the next pair is set off by `&`.
proof fn pair_adds_its_length(main: Seq<char>, key: Seq<char>, value: Seq<char>)
    ensures
        byte_length(pair_appended(main, key, value)) == byte_length(main) + separator(main).len()
            + pair_length(key, value),
        has_query(pair_appended(main, key, value)),
        separator(pair_appended(main, key, value)) == seq!['&'],
{
    let sep = separator(main);
    let k = encoded_text(key);
    let v = encoded_text(value);
    let head = pair_appended(main, key, value);
    form_encoded_shape(encode_utf8(key));
    form_encoded_shape(encode_utf8(value));
    is_ascii_chars_encode_utf8(k);
    is_ascii_chars_encode_utf8(v);
    is_ascii_chars_encode_utf8(sep);
    is_ascii_chars_encode_utf8(seq!['=']);
    byte_length_concat(main, sep);
    byte_length_concat(main + sep, k);
    byte_length_concat(main + sep + k, seq!['=']);
    byte_length_concat(main + sep + k + seq!['='], v);
    position_shape(main, '?');
    let at = position(main, '?') as int;
    assert(head[at] == '?') by {
        if at == main.len() {
            assert(head[at] == sep[0]);
        } else {
            assert(head[at] == main[at]);
        }
    }
    assert forall|i: int| 0 <= i < at implies head[i] != '?' by {
        assert(head[i] == main[i]);
    }
    position_is(head, '?', at as nat);
}

/// What is written of a URL before its fragment grows with every pair.
pub proof fn pairs_grow(url: Seq<char>, pairs: Seq<(Seq<char>, Seq<char>)>, n: int)
    requires
        0 <= n <= pairs.len(),
    ensures
        byte_length(main_of(with_pairs(url, pairs.take(n)))) <= byte_length(
            main_of(with_pairs(url, pairs)),
        ),
    decreases pairs.len(),
{
    if n == pairs.len() {
        assert(pairs.take(n) =~= pairs);
    } else {
        let before = with_pairs(url, pairs.drop_last());
        pairs_grow(url, pairs.drop_last(), n);
        assert(pairs.drop_last().take(n) =~= pairs.take(n));
        pair_main(before, pairs.last().0, pairs.last().1);
        pair_adds_its_length(main_of(before), pairs.last().0, pairs.last().1);
    }
}

/// One more pair changes what is written before the fragment by that pair.
pub proof fn with_one_more_pair(url: Seq<char>, key: Seq<char>, value: Seq<char>)
    ensures
        main_of(with_pair(url, key, value)) == pair_appended(main_of(url), key, value),
        has_fragment(with_pair(url, key, value)) == has_fragment(url),
        has_query(main_of(with_pair(url, key, value))),
        separator(main_of(with_pair(url, key, value))) == seq!['&'],
        byte_length(main_of(with_pair(url, key, value))) == byte_length(main_of(url)) + separator(
            main_of(url),
        ).len() + pair_length(key, value),
{
    pair_main(url, key, value);
    pair_adds_its_length(main_of(url), key, value);
}

fn position_in(s: &Vec<char>, from: usize, c: char) -> (r: usize)
    requires
        from <= s@.len(),
    ensures
        r == from + position(s@.skip(from as int), c),
        from <= r <= s@.len(),
{
    let ghost rest = s@.skip(from as int);
    let mut i: usize = from;
    while i < s.len() && s[i] != c
        invariant
            from <= i <= s.len(),
            rest == s@.skip(from as int),
            forall|j: int| 0 <= j < i - from ==> rest[j] != c,
        decreases s.len() - i,
    {
        assert(rest[i - from] == s@[i as int]);
        i += 1;
    }
    proof {
        if i < s.len() {
            assert(rest[i - from] == s@[i as int]);
        }
        position_is(rest, c, (i - from) as nat);
    }
    i
}

/// The characters from one position to another, as a string.
fn part(s: &Vec<char>, from: usize, to: usize) -> (r: String)
    requires
        from <= to <= s@.len(),
    ensures
        r@ == s@.subrange(from as int, to as int),
{
    let mut out = String::new();
    let mut i: usize = from;
    assert(out@ =~= s@.subrange(from as int, from as int));
    while i < to
        invariant
            from <= i <= to <= s@.len(),
            out@ == s@.subrange(from as int, i as int),
        decreases to - i,
    {
        out.push(s[i]);
        assert(out@ =~= s@.subrange(from as int, i + 1));
        i += 1;
    }
    out
}

/// A URL without its fragment, and whether it has one.
pub(crate) fn split_fragment(url: &str) -> (r: (String, bool))
    ensures
        r.0@ == main_of(url@),
        r.1 == has_fragment(url@),
{
    let chars = chars_of(url);
    assert(chars@.skip(0) =~= chars@);
    let end = position_in(&chars, 0, '#');
    let main = part(&chars, 0, end);
    assert(main@ =~= main_of(url@));
    (main, end < chars.len())
}

/// Whether a URL without fragment has a query, and how many characters set
/// another pair off.
pub(crate) fn query_of(main: &str) -> (r: (bool, usize))
    ensures
        r.0 == has_query(main@),
        r.1 == separator(main@).len(),
{
    let chars = chars_of(main);
    assert(chars@.skip(0) =~= chars@);
    let at = position_in(&chars, 0, '?');
    (
        at < chars.len(),
        if at < chars.len() && at + 1 == chars.len() {
            0
        } else {
            1
        },
    )
}

/// The length that a query pair is written with.
pub(crate) fn length_of_pair(key: &str, value: &str) -> (r: u128)
    ensures
        r == pair_length(key@, value@),
        r <= 0x2_0000_0000_0000_0000,
{
    let k = byte_serialize(key.as_bytes());
    let v = byte_serialize(value.as_bytes());
    proof {
        form_encoded_shape(encode_utf8(key@));
        form_encoded_shape(encode_utf8(value@));
        is_ascii_chars_encode_utf8(k@);
        is_ascii_chars_encode_utf8(v@);
    }
    k.as_str().as_bytes().len() as u128 + 1 + v.as_str().as_bytes().len() as u128
}

// ---------------------------------------------------------------------------
// The channel endpoint
// ---------------------------------------------------------------------------

/// The serialization that a `url::Url` holds, which also decides whether two
/// of them are equal.
pub uninterp spec fn url_text(u: url::Url) -> Seq<char>;

/// What `url::Url::parse` makes of a text: the serialization of the URL, or
/// the error.
pub uninterp spec fn url_parsed(text: Seq<char>) -> Result<Seq<char>, url::ParseError>;

/// The serialization after `url::Url::set_scheme`; nothing where it refuses.
pub uninterp spec fn url_with_scheme(text: Seq<char>, scheme: Seq<char>) -> Option<Seq<char>>;

/// The scheme of a serialized URL: what stands before its first colon.
pub open spec fn scheme_of(text: Seq<char>) -> Seq<char> {
    text.take(position(text, ':') as int)
}

/// The length of a text in UTF-8.
pub open spec fn byte_length(text: Seq<char>) -> nat {
    encode_utf8(text).len()
}

/// Whether the new scheme is the WebSocket counterpart of the old one.
pub open spec fn counterpart(scheme: Seq<char>, new: Seq<char>) -> bool {
    ||| scheme == "https"@ && new == "wss"@
    ||| scheme == "http"@ && new == "ws"@
}

/// A path that starts at the root and consists of letters and slashes.
pub open spec fn plain_path(path: Seq<char>) -> bool {
    &&& path.len() > 0
    &&& path[0] == '/'
    &&& forall|i: int| 0 <= i < path.len() ==> #[trigger] path[i] == '/' || 'a' <= path[i] <= 'z'
}

/// A URL of the form `scheme://authority/path` with another path: the
/// authority stays before it, the query and the fragment after it.
pub open spec fn path_replaced(text: Seq<char>, path: Seq<char>) -> Seq<char> {
    text.take(path_start(text)) + path + text.skip(path_end(text))
}

/// Where the path of a URL of the form `scheme://authority/path` begins.
pub open spec fn path_start(text: Seq<char>) -> int {
    let authority = scheme_of(text).len() as int + 3;
    if authority <= text.len() {
        authority + position(text.skip(authority), '/')
    } else {
        text.len() as int
    }
}

/// Where the path of a URL ends: at its query, else at its fragment, else with
/// the URL.
pub open spec fn path_end(text: Seq<char>) -> int {
    let query = position(text, '?') as int;
    let fragment = position(text, '#') as int;
    if query < fragment {
        query
    } else {
        fragment
    }
}

/// Whether the parts of a URL can be found again after its path was replaced:
/// they are indexed with 32 bits. The end of the path is one before and after,
/// and the fragment, where there is one, comes after path and query.
pub open spec fn path_fits(text: Seq<char>, path: Seq<char>) -> bool {
    let kept = byte_length(text.take(path_start(text))) + byte_length(path);
    let fragment = position(text, '#') as int;
    &&& byte_length(text.take(path_end(text))) <= u32::MAX
    &&& kept <= u32::MAX
    &&& has_fragment(text) ==> kept + byte_length(text.subrange(path_end(text), fragment))
        <= u32::MAX
}

/// Whether the parts of a URL can be found again after a query pair was added:
/// they are indexed with 32 bits. A new query begins where the URL ended, and
/// the fragment, where there is one, comes after the pair.
pub open spec fn pair_fits(text: Seq<char>, key: Seq<char>, value: Seq<char>) -> bool {
    &&& !has_query(main_of(text)) ==> byte_length(main_of(text)) <= u32::MAX
    &&& has_fragment(text) ==> byte_length(pair_appended(main_of(text), key, value)) <= u32::MAX
}

/// Whether the parts of a URL can be found again after its path was replaced.
fn path_fits_in(text: &str, path: &str) -> (r: bool)
    ensures
        r == path_fits(text@, path@),
{
    let chars = chars_of(text);
    let ghost s = chars@;
    proof {
        assert(s.skip(0) =~= s);
        position_shape(s, ':');
    }
    let colon = position_in(&chars, 0, ':');
    let query = position_in(&chars, 0, '?');
    let fragment = position_in(&chars, 0, '#');
    let end = if query < fragment {
        query
    } else {
        fragment
    };
    let start = if chars.len() >= 3 && colon <= chars.len() - 3 {
        position_in(&chars, colon + 3, '/')
    } else {
        chars.len()
    };
    let before = part(&chars, 0, end);
    let kept = part(&chars, 0, start);
    let between = part(&chars, end, fragment);
    proof {
        assert(scheme_of(s).len() == colon);
        assert(before@ =~= s.take(end as int));
        assert(kept@ =~= s.take(start as int));
    }
    let limit: u128 = u32::MAX as u128;
    let length: u128 = kept.as_str().as_bytes().len() as u128 + path.as_bytes().len() as u128;
    before.as_str().as_bytes().len() as u128 <= limit && length <= limit && (fragment == chars.len()
        || length + between.as_str().as_bytes().len() as u128 <= limit)
}

/// `url::Url::parse`: the same text always gives the same URL or the same
/// error.
pub assume_specification[ url::Url::parse ](input: &str) -> (r: Result<url::Url, url::ParseError>)
    ensures
        match r {
            Ok(u) => url_parsed(input@) == Ok::<Seq<char>, url::ParseError>(url_text(u)),
            Err(e) => url_parsed(input@) == Err::<Seq<char>, url::ParseError>(e),
        },
;

/// `url::Url::as_str`: the serialization.
pub assume_specification[ url::Url::as_str ](u: &url::Url) -> (r: &str)
    ensures
        r@ == url_text(*u),
;

/// `url::Url::scheme`: the serialization up to its first colon.
pub assume_specification[ url::Url::scheme ](u: &url::Url) -> (r: &str)
    ensures
        r@ == scheme_of(url_text(*u)),
;

/// `url::Url::set_scheme` to `ws`, and from `https` to `wss`: whether it succeeds
/// and what it leaves depends on the serialization and the scheme alone. A
/// refused scheme leaves the URL as it was, an accepted one becomes the scheme.
/// From `https` to `wss` and from `http` to `ws` it succeeds, and the rest of the
/// URL stays. No scheme that can become one of these is shorter than it, so the
/// indices of the parts never grow.
pub assume_specification[ url::Url::set_scheme ](u: &mut url::Url, scheme: &str) -> (r: Result<
    (),
    (),
>)
    requires
        scheme@ == "ws"@ || (scheme@ == "wss"@ && scheme_of(url_text(*old(u))) == "https"@),
    ensures
        match r {
            Ok(_) => url_with_scheme(url_text(*old(u)), scheme@) == Some(url_text(*final(u))),
            Err(_) => {
                &&& url_with_scheme(url_text(*old(u)), scheme@) is None
                &&& url_text(*final(u)) == url_text(*old(u))
            },
        },
        r is Ok ==> scheme_of(url_text(*final(u))) == scheme@,
        counterpart(scheme_of(url_text(*old(u))), scheme@) ==> r is Ok && url_text(*final(u))
            == scheme@ + url_text(*old(u)).skip(scheme_of(url_text(*old(u))).len() as int),
;

/// `url::Url::set_path` on a WebSocket URL, with a path of letters and slashes:
/// nothing but the path changes.
pub assume_specification[ url::Url::set_path ](u: &mut url::Url, path: &str)
    requires
        scheme_of(url_text(*old(u))) == "ws"@ || scheme_of(url_text(*old(u))) == "wss"@,
        plain_path(path@),
        path_fits(url_text(*old(u)), path@),
    ensures
        url_text(*final(u)) == path_replaced(url_text(*old(u)), path@),
;

/// `append_pair` on what `url::Url::query_pairs_mut` gives: the pair goes to the
/// end of the query in form encoding, and nothing else changes.
#[verifier::external_body]
pub(crate) fn append_pair(u: &mut url::Url, key: &str, value: &str)
    requires
        pair_fits(url_text(*old(u)), key@, value@),
    ensures
        url_text(*final(u)) == with_pair(url_text(*old(u)), key@, value@),
{
    u.query_pairs_mut().append_pair(key, value);
}

/// The scheme of the channel endpoint that belongs to an API origin.
pub open spec fn channel_scheme(text: Seq<char>) -> Seq<char> {
    if scheme_of(text) == "https"@ {
        "wss"@
    } else {
        "ws"@
    }
}

/// The path of the channel endpoint.
pub open spec fn channel_path() -> Seq<char> {
    "/socket/api/websocket"@
}

/// The channel endpoint that belongs to a serialized API origin; nothing where
/// its scheme has no WebSocket counterpart.
pub open spec fn channel_endpoint(text: Seq<char>) -> Option<Seq<char>> {
    match url_with_scheme(text, channel_scheme(text)) {
        Some(t) => Some(path_replaced(t, channel_path())),
        None => None,
    }
}

/// The channel endpoint of an `https` or `http` origin: the WebSocket
/// counterpart of its scheme, the same authority, and the channel path.
pub open spec fn web_endpoint(text: Seq<char>) -> Seq<char> {
    path_replaced(channel_scheme(text) + text.skip(scheme_of(text).len() as int), channel_path())
}

/// Whether the parts of the channel endpoint that belongs to a base URL, where
/// there is one, can be indexed with 32 bits.
pub open spec fn base_url_fits(base_url: Seq<char>) -> bool {
    match url_parsed(base_url) {
        Ok(text) => match url_with_scheme(text, channel_scheme(text)) {
            Some(t) => path_fits(t, channel_path()),
            None => true,
        },
        Err(_) => true,
    }
}

/// Every `https` or `http` origin has a channel endpoint, with the WebSocket
/// counterpart of its scheme.
pub open spec fn sound_endpoint(text: Seq<char>) -> bool {
    scheme_of(text) == "https"@ || scheme_of(text) == "http"@ ==> channel_endpoint(text) == Some(
        web_endpoint(text),
    )
}

/// The outcome of [`websocket_url`], told by the parse of the base URL.
pub open spec fn websocket_outcome(base_url: Seq<char>, r: Result<String, Error>) -> bool {
    match url_parsed(base_url) {
        Err(e) => r == Err::<String, Error>(Error::Url(e)),
        Ok(text) => sound_endpoint(text) && match channel_endpoint(text) {
            Some(endpoint) => r matches Ok(s) && s@ == endpoint,
            None => r matches Err(e) && e.is_configuration("unsupported base URL scheme"@),
        },
    }
}

/// Parses a base URL and gives it the scheme of its channel endpoint.
fn channel_origin(base_url: &str) -> (r: Result<url::Url, Error>)
    ensures
        match url_parsed(base_url@) {
            Err(e) => r == Err::<url::Url, Error>(Error::Url(e)),
            Ok(text) => {
                &&& match url_with_scheme(text, channel_scheme(text)) {
                    Some(t) => r matches Ok(u) && url_text(u) == t && scheme_of(t)
                        == channel_scheme(text),
                    None => r matches Err(e) && e.is_configuration("unsupported base URL scheme"@),
                }
                &&& counterpart(scheme_of(text), channel_scheme(text)) ==> url_with_scheme(
                    text,
                    channel_scheme(text),
                ) == Some(channel_scheme(text) + text.skip(scheme_of(text).len() as int))
            },
        },
{
    let mut url = match url::Url::parse(base_url) {
        Ok(url) => url,
        Err(e) => {
            return Err(Error::Url(e));
        },
    };
    let scheme = if same(url.scheme(), "https") {
        "wss"
    } else {
        "ws"
    };
    match url.set_scheme(scheme) {
        Ok(_) => Ok(url),
        Err(_) => Err(Error::Configuration("unsupported base URL scheme".to_owned())),
    }
}

/// The WebSocket URL of the channel endpoint that belongs to a base URL.
pub fn websocket_url(base_url: &str) -> (r: Result<String, Error>)
    requires
        base_url_fits(base_url@),
    ensures
        websocket_outcome(base_url@, r),
{
    match channel_origin(base_url) {
        Ok(origin) => {
            let mut url = origin;
            proof {
                reveal_strlit("/socket/api/websocket");
            }
            url.set_path("/socket/api/websocket");
            Ok(url.as_str().to_owned())
        },
        Err(e) => Err(e),
    }
}

/// [`websocket_url`] for a base URL of any length: nothing where the parts of
/// the endpoint cannot be indexed.
pub fn checked_websocket_url(base_url: &str) -> (r: Option<Result<String, Error>>)
    ensures
        match r {
            Some(outcome) => base_url_fits(base_url@) && websocket_outcome(base_url@, outcome),
            None => !base_url_fits(base_url@),
        },
{
    if !endpoint_fits(base_url) {
        return None;
    }
    Some(websocket_url(base_url))
}

/// Whether the parts of the channel endpoint that belongs to a base URL, where
/// there is one, can be indexed.
pub(crate) fn endpoint_fits(base_url: &str) -> (r: bool)
    ensures
        r == base_url_fits(base_url@),
{
    match channel_origin(base_url) {
        Ok(origin) => path_fits_in(origin.as_str(), "/socket/api/websocket"),
        Err(_) => true,
    }
}

} // verus!
