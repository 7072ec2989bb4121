//! Verification of signed gateway requests (AWS Signature Version 4).

use std::time::SystemTime;

use vstd::prelude::*;

use crate::calendar::{clock_time_exists, date_exists, month_exists, unix_timestamp};
use crate::clock::seconds_since_1970;
use crate::digest::sha256;
use crate::order::sort;
use crate::text::{
    before, chars_of, concat2, concat3, contains_text, equal_ignoring_case, hex_digest,
    join_strings, same, split_char, split_once, split_pattern, split_words, string_of,
    strip_prefix, trim,
};
use crate::{calendar, digest, order, text};

verus! {

/// The value of a decimal digit.
pub open spec fn digit_value(c: char) -> int {
    c as int - '0' as int
}

/// Whether the character is an ASCII decimal digit.
pub open spec fn is_digit(c: char) -> bool {
    '0' <= c && c <= '9'
}

/// The number that two neighbouring digits write.
pub open spec fn two_digits(s: Seq<char>, at: int) -> int {
    10 * digit_value(s[at]) + digit_value(s[at + 1])
}

/// Whether a text has the shape YYYYMMDDTHHMMSSZ.
pub open spec fn is_basic_timestamp(s: Seq<char>) -> bool {
    &&& s.len() == 16
    &&& s[8] == 'T'
    &&& s[15] == 'Z'
    &&& forall|i: int| 0 <= i < 15 && i != 8 ==> is_digit(#[trigger] s[i])
}

/// The moment that a text of the shape YYYYMMDDTHHMMSSZ names, in seconds
/// since the start of 1970, or why it names none.
pub open spec fn timestamp_of(s: Seq<char>) -> Result<int, Seq<char>> {
    if !is_basic_timestamp(s) {
        Err("x-amz-date must use YYYYMMDDTHHMMSSZ"@)
    } else {
        let year = 100 * two_digits(s, 0) + two_digits(s, 2);
        let month = two_digits(s, 4);
        let day = two_digits(s, 6);
        let hour = two_digits(s, 9);
        let minute = two_digits(s, 11);
        let second = two_digits(s, 13);
        if !(1 <= month <= 12) {
            Err("x-amz-date contains an invalid month"@)
        } else if !calendar::is_date(year, month, day) {
            Err("x-amz-date contains an invalid day"@)
        } else if !calendar::is_clock_time(hour, minute, second) {
            Err("x-amz-date contains an invalid time"@)
        } else {
            Ok(calendar::seconds_since_epoch(year, month, day, hour, minute, second))
        }
    }
}

fn read_two_digits(chars: &Vec<char>, at: usize) -> (n: u8)
    requires
        at < 15,
        at + 1 < chars@.len(),
        is_digit(chars@[at as int]),
        is_digit(chars@[at + 1]),
    ensures
        n == two_digits(chars@, at as int),
        n < 100,
{
    let high = chars[at] as u32 - 48;
    let low = chars[at + 1] as u32 - 48;
    (10 * high + low) as u8
}

/// The moment that a text of the shape YYYYMMDDTHHMMSSZ names.
pub fn parse_amz_timestamp(value: &str) -> (moment: Result<i64, String>)
    ensures
        match moment {
            Ok(seconds) => timestamp_of(value@) == Ok::<int, Seq<char>>(seconds as int),
            Err(message) => timestamp_of(value@) == Err::<int, Seq<char>>(message@),
        },
{
    let chars = chars_of(value);
    let mut shaped = chars.len() == 16 && chars[8] == 'T' && chars[15] == 'Z';
    if shaped {
        let mut i: usize = 0;
        while i < 15 && shaped
            invariant
                i <= 15,
                chars@.len() == 16,
                chars@ == value@,
                shaped == forall|j: int| 0 <= j < i && j != 8 ==> is_digit(#[trigger] value@[j]),
            decreases 15 - i,
        {
            if i != 8 && !('0' <= chars[i] && chars[i] <= '9') {
                assert(!is_digit(value@[i as int]));
                shaped = false;
            }
            i += 1;
        }
    }
    if !shaped {
        return Err("x-amz-date must use YYYYMMDDTHHMMSSZ".to_owned());
    }
    assert(is_basic_timestamp(value@));
    let century = read_two_digits(&chars, 0);
    let year_of_century = read_two_digits(&chars, 2);
    let year: i32 = 100 * (century as i32) + year_of_century as i32;
    let month = read_two_digits(&chars, 4);
    let day = read_two_digits(&chars, 6);
    if !month_exists(month) {
        return Err("x-amz-date contains an invalid month".to_owned());
    }
    if !date_exists(year, month, day) {
        return Err("x-amz-date contains an invalid day".to_owned());
    }
    let hour = read_two_digits(&chars, 9);
    let minute = read_two_digits(&chars, 11);
    let second = read_two_digits(&chars, 13);
    if !clock_time_exists(hour, minute, second) {
        return Err("x-amz-date contains an invalid time".to_owned());
    }
    Ok(unix_timestamp(year, month, day, hour, minute, second))
}

/// Whether a byte stands for itself in a canonical path or query.
pub open spec fn is_unreserved(byte: u8) -> bool {
    ||| 'a' as u8 <= byte && byte <= 'z' as u8
    ||| 'A' as u8 <= byte && byte <= 'Z' as u8
    ||| '0' as u8 <= byte && byte <= '9' as u8
    ||| byte == '-' as u8 || byte == '_' as u8 || byte == '.' as u8 || byte == '~' as u8
}

/// The capital hexadecimal digit of a number below sixteen.
pub open spec fn capital_hex_digit(d: nat) -> char {
    if d < 10 {
        (48 + d) as char
    } else {
        (55 + d) as char
    }
}

/// One byte of a canonical path or query.
pub open spec fn percent_byte(byte: u8) -> Seq<char> {
    if is_unreserved(byte) {
        seq![byte as char]
    } else {
        seq!['%', capital_hex_digit(byte as nat / 16), capital_hex_digit(byte as nat % 16)]
    }
}

/// Bytes as they stand in a canonical path or query.
pub open spec fn percent_encoded(bytes: Seq<u8>) -> Seq<char>
    decreases bytes.len(),
{
    if bytes.len() == 0 {
        Seq::<char>::empty()
    } else {
        percent_encoded(bytes.drop_last()) + percent_byte(bytes.last())
    }
}

fn capital_hex_char(d: u8) -> (c: char)
    requires
        d < 16,
    ensures
        c == capital_hex_digit(d as nat),
{
    if d < 10 {
        (48u8 + d) as char
    } else {
        (55u8 + d) as char
    }
}

/// Bytes as they stand in a canonical path or query.
pub fn aws_percent_encode(value: &[u8]) -> (s: String)
    ensures
        s@ == percent_encoded(value@),
{
    let mut s = String::new();
    let mut i: usize = 0;
    while i < value.len()
        invariant
            i <= value@.len(),
            s@ == percent_encoded(value@.take(i as int)),
        decreases value@.len() - i,
    {
        let byte = value[i];
        let ghost written = s@;
        let plain = (97 <= byte && byte <= 122) || (65 <= byte && byte <= 90) || (48 <= byte && byte
            <= 57) || byte == 45 || byte == 95 || byte == 46 || byte == 126;
        if plain {
            s.push(byte as char);
        } else {
            s.push('%');
            s.push(capital_hex_char(byte / 16));
            s.push(capital_hex_char(byte % 16));
        }
        proof {
            assert(plain == is_unreserved(byte));
            assert(s@ =~= written + percent_byte(byte));
            assert(value@.take(i as int + 1).drop_last() == value@.take(i as int));
        }
        i += 1;
    }
    proof {
        assert(value@.take(value@.len() as int) == value@);
    }
    s
}

/// A text as it stands in a canonical path or query.
pub open spec fn encoded_text(s: Seq<char>) -> Seq<char> {
    percent_encoded(vstd::utf8::encode_utf8(s))
}

/// The texts as they stand in a canonical path.
pub open spec fn encoded_texts(parts: Seq<Seq<char>>) -> Seq<Seq<char>> {
    parts.map_values(|part: Seq<char>| encoded_text(part))
}

/// The path and the query of a request target.
pub open spec fn target_parts(target: Seq<char>) -> (Seq<char>, Seq<char>) {
    match text::split_first(target, '?') {
        Some(parts) => parts,
        None => (target, Seq::<char>::empty()),
    }
}

/// The canonical path of a request target: its segments encoded one by one.
pub open spec fn canonical_path(target: Seq<char>) -> Seq<char> {
    let path = text::join(encoded_texts(text::split_at_char(target_parts(target).0, '/')), "/"@);
    if path.len() == 0 {
        "/"@
    } else {
        path
    }
}

/// One parameter of a query, encoded.
pub open spec fn query_pair(part: Seq<char>) -> (Seq<char>, Seq<char>) {
    match text::split_first(part, '=') {
        Some((key, value)) => (encoded_text(key), encoded_text(value)),
        None => (encoded_text(part), encoded_text(Seq::<char>::empty())),
    }
}

/// The parameters in these pieces of a query, in their given order, encoded.
pub open spec fn piece_pairs(pieces: Seq<Seq<char>>) -> Seq<(Seq<char>, Seq<char>)> {
    pieces.filter(|part: Seq<char>| part.len() > 0).map_values(
        |part: Seq<char>| query_pair(part),
    )
}

/// The parameters of a query in their given order, encoded.
pub open spec fn query_pairs(query: Seq<char>) -> Seq<(Seq<char>, Seq<char>)> {
    piece_pairs(text::split_at_char(query, '&'))
}

/// Whether a parameter stands before another: by name, then by value.
pub open spec fn pair_before(a: (Seq<char>, Seq<char>), b: (Seq<char>, Seq<char>)) -> bool {
    text::text_before(a.0, b.0) || (a.0 == b.0 && text::text_before(a.1, b.1))
}

/// The order of the parameters of a canonical query.
pub open spec fn pair_order() -> spec_fn((Seq<char>, Seq<char>), (Seq<char>, Seq<char>)) -> bool {
    |a: (Seq<char>, Seq<char>), b: (Seq<char>, Seq<char>)| pair_before(a, b)
}

/// A parameter as text.
pub open spec fn pair_text(pair: (Seq<char>, Seq<char>)) -> Seq<char> {
    pair.0 + "="@ + pair.1
}

/// The parameters as texts.
pub open spec fn pair_texts(pairs: Seq<(Seq<char>, Seq<char>)>) -> Seq<Seq<char>> {
    pairs.map_values(|pair: (Seq<char>, Seq<char>)| pair_text(pair))
}

/// The canonical query of a request target: its parameters encoded and sorted.
pub open spec fn canonical_query(target: Seq<char>) -> Seq<char> {
    text::join(pair_texts(order::in_order(query_pairs(target_parts(target).1), pair_order())), "&"@)
}

/// The parameters are ranked: their order is strict and total.
pub proof fn lemma_pair_order()
    ensures
        order::is_ranking(pair_order()),
        forall|a: (Seq<char>, Seq<char>), b: (Seq<char>, Seq<char>)|
            a == b || #[trigger] pair_before(a, b) || pair_before(b, a),
{
    assert forall|a: (Seq<char>, Seq<char>), b: (Seq<char>, Seq<char>)|
        a == b || #[trigger] pair_before(a, b) || pair_before(b, a) by {
        text::lemma_text_before_connected(a.0, b.0);
        text::lemma_text_before_connected(a.1, b.1);
    }
    assert forall|a: (Seq<char>, Seq<char>), b: (Seq<char>, Seq<char>)| #[trigger]
        pair_order()(a, b) implies !pair_order()(b, a) by {
        lemma_pair_before_asymmetric(a, b);
    }
    assert forall|
        a: (Seq<char>, Seq<char>),
        b: (Seq<char>, Seq<char>),
        c: (Seq<char>, Seq<char>),
    | !#[trigger] pair_order()(b, a) && !#[trigger] pair_order()(c, b) implies !pair_order()(
        c,
        a,
    ) by {
        if pair_before(c, a) {
            assert(a == b || pair_before(a, b));
            assert(b == c || pair_before(b, c));
            lemma_pair_before_asymmetric(c, a);
            if pair_before(a, b) && pair_before(b, c) {
                lemma_pair_before_transitive(a, b, c);
            }
        }
    }
}

proof fn lemma_pair_before_asymmetric(a: (Seq<char>, Seq<char>), b: (Seq<char>, Seq<char>))
    requires
        pair_before(a, b),
    ensures
        !pair_before(b, a),
{
    if text::text_before(a.0, b.0) {
        text::lemma_text_before_asymmetric(a.0, b.0);
    } else {
        text::lemma_text_before_asymmetric(a.1, b.1);
        if text::text_before(b.0, a.0) {
            text::lemma_text_before_asymmetric(b.0, a.0);
        }
    }
}

proof fn lemma_pair_before_transitive(
    a: (Seq<char>, Seq<char>),
    b: (Seq<char>, Seq<char>),
    c: (Seq<char>, Seq<char>),
)
    requires
        pair_before(a, b),
        pair_before(b, c),
    ensures
        pair_before(a, c),
{
    if text::text_before(a.0, b.0) && text::text_before(b.0, c.0) {
        text::lemma_text_before_transitive(a.0, b.0, c.0);
    } else if a.0 == b.0 && b.0 == c.0 {
        text::lemma_text_before_transitive(a.1, b.1, c.1);
    }
}

fn encode_text(s: &str) -> (t: String)
    ensures
        t@ == encoded_text(s@),
{
    aws_percent_encode(s.as_bytes())
}

fn encode_path(path: &str) -> (t: String)
    ensures
        t@ == text::join(encoded_texts(text::split_at_char(path@, '/')), "/"@),
{
    let segments = split_char(path, '/');
    let mut encoded: Vec<String> = Vec::new();
    let mut i: usize = 0;
    while i < segments.len()
        invariant
            i <= segments@.len(),
            text::texts(segments@) == text::split_at_char(path@, '/'),
            text::texts(encoded@) == encoded_texts(text::texts(segments@).take(i as int)),
        decreases segments@.len() - i,
    {
        let segment = encode_text(segments[i].as_str());
        proof {
            assert(text::texts(segments@).take(i as int + 1) == text::texts(segments@).take(i as int).push(
                segments@[i as int]@,
            ));
            assert(text::texts(encoded@.push(segment)) =~= text::texts(encoded@).push(segment@));
            assert(encoded_texts(text::texts(segments@).take(i as int + 1)) =~= encoded_texts(
                text::texts(segments@).take(i as int),
            ).push(segment@));
        }
        encoded.push(segment);
        i += 1;
    }
    proof {
        assert(text::texts(segments@).take(segments@.len() as int) == text::texts(segments@));
    }
    join_strings(&encoded, "/")
}

fn encode_pair(part: &str) -> (pair: (String, String))
    ensures
        (pair.0@, pair.1@) == query_pair(part@),
{
    match split_once(part, '=') {
        Some((key, value)) => (encode_text(key.as_str()), encode_text(value.as_str())),
        None => {
            let empty = String::new();
            (encode_text(part), encode_text(empty.as_str()))
        },
    }
}

fn encode_query(query: &str) -> (pairs: Vec<(String, String)>)
    ensures
        text::text_pairs(pairs@) == query_pairs(query@),
{
    let parts = split_char(query, '&');
    let mut pairs: Vec<(String, String)> = Vec::new();
    let mut i: usize = 0;
    let ghost keep = |part: Seq<char>| part.len() > 0;
    let ghost encode = |part: Seq<char>| query_pair(part);
    proof {
        reveal(Seq::filter);
        assert(text::text_pairs(pairs@) =~= text::texts(parts@).take(0).filter(keep).map_values(encode));
    }
    while i < parts.len()
        invariant
            i <= parts@.len(),
            text::texts(parts@) == text::split_at_char(query@, '&'),
            keep == (|part: Seq<char>| part.len() > 0),
            encode == (|part: Seq<char>| query_pair(part)),
            text::text_pairs(pairs@) == text::texts(parts@).take(i as int).filter(keep).map_values(encode),
        decreases parts@.len() - i,
    {
        proof {
            let part = parts@[i as int]@;
            let done = text::texts(parts@).take(i as int);
            assert(text::texts(parts@).take(i as int + 1) == done.push(part));
            text::lemma_filter_push(done, part, keep);
            assert(done.filter(keep).push(part).map_values(encode) =~= done.filter(
                keep,
            ).map_values(encode).push(query_pair(part)));
        }
        if !parts[i].as_str().is_empty() {
            let pair = encode_pair(parts[i].as_str());
            proof {
                assert(text::text_pairs(pairs@.push(pair)) =~= text::text_pairs(pairs@).push(
                    (pair.0@, pair.1@),
                ));
            }
            pairs.push(pair);
        }
        i += 1;
    }
    proof {
        assert(text::texts(parts@).take(parts@.len() as int) == text::texts(parts@));
        assert(text::text_pairs(pairs@) =~= query_pairs(query@));
    }
    pairs
}

spec fn string_pair_order() -> spec_fn((String, String), (String, String)) -> bool {
    |a: (String, String), b: (String, String)| pair_before((a.0@, a.1@), (b.0@, b.1@))
}

fn sort_pairs(pairs: Vec<(String, String)>) -> (sorted: Vec<(String, String)>)
    ensures
        text::text_pairs(sorted@) == order::in_order(text::text_pairs(pairs@), pair_order()),
{
    let less = |a: &(String, String), b: &(String, String)| -> (r: bool)
        ensures
            r == string_pair_order()(*a, *b),
        {
            before(a.0.as_str(), b.0.as_str()) || (same(a.0.as_str(), b.0.as_str()) && before(
                a.1.as_str(),
                b.1.as_str(),
            ))
        };
    let sorted = sort(pairs, less, Ghost(string_pair_order()));
    proof {
        let see = |p: (String, String)| (p.0@, p.1@);
        order::lemma_in_order_map(pairs@, see, string_pair_order(), pair_order());
        assert(text::text_pairs(pairs@) =~= pairs@.map_values(see));
        assert(text::text_pairs(sorted@) =~= sorted@.map_values(see));
    }
    sorted
}

fn join_pairs(pairs: &Vec<(String, String)>) -> (s: String)
    ensures
        s@ == text::join(pair_texts(text::text_pairs(pairs@)), "&"@),
{
    let mut parts: Vec<String> = Vec::new();
    let mut i: usize = 0;
    while i < pairs.len()
        invariant
            i <= pairs@.len(),
            text::texts(parts@) == pair_texts(text::text_pairs(pairs@).take(i as int)),
        decreases pairs@.len() - i,
    {
        let part = concat3(pairs[i].0.as_str(), "=", pairs[i].1.as_str());
        proof {
            assert(text::texts(parts@.push(part)) =~= text::texts(parts@).push(part@));
            assert(pair_texts(text::text_pairs(pairs@).take(i as int + 1)) =~= pair_texts(
                text::text_pairs(pairs@).take(i as int),
            ).push(part@));
        }
        parts.push(part);
        i += 1;
    }
    proof {
        assert(text::text_pairs(pairs@).take(pairs@.len() as int) == text::text_pairs(pairs@));
    }
    join_strings(&parts, "&")
}

/// The canonical path and the canonical query of a request target.
pub fn canonical_path_and_query(path: &str) -> (canonical: Result<(String, String), String>)
    ensures
        canonical matches Ok(parts) && parts.0@ == canonical_path(path@) && parts.1@
            == canonical_query(path@),
{
    let (raw_path, raw_query) = match split_once(path, '?') {
        Some(parts) => parts,
        None => (path.to_owned(), String::new()),
    };
    let encoded = encode_path(raw_path.as_str());
    let canonical_path = if encoded.as_str().is_empty() {
        "/".to_owned()
    } else {
        encoded
    };
    let pairs = sort_pairs(encode_query(raw_query.as_str()));
    let canonical_query = join_pairs(&pairs);
    Ok((canonical_path, canonical_query))
}

/// A key of at most 64 bytes filled up with zeros, each byte mixed with the
/// given one.
pub open spec fn mixed_key(key: Seq<u8>, mix: u8) -> Seq<u8> {
    Seq::new(64, |i: int| if i < key.len() { key[i] ^ mix } else { 0u8 ^ mix })
}

/// The keyed digest HMAC-SHA-256 for a key of at most 64 bytes.
pub open spec fn hmac(key: Seq<u8>, message: Seq<u8>) -> Seq<u8> {
    digest::sha256_digest(
        mixed_key(key, 0x5c) + digest::sha256_digest(mixed_key(key, 0x36) + message),
    )
}

/// The keyed digest HMAC-SHA-256 of a message.
pub fn hmac_sha256(key: &[u8], message: &[u8]) -> (mac: Vec<u8>)
    requires
        key@.len() <= 64,
    ensures
        mac@ == hmac(key@, message@),
        mac@.len() == 32,
{
    let mut inner: Vec<u8> = Vec::new();
    let mut outer: Vec<u8> = Vec::new();
    let mut i: usize = 0;
    while i < 64
        invariant
            i <= 64,
            key@.len() <= 64,
            inner@ == mixed_key(key@, 0x36).take(i as int),
            outer@ == mixed_key(key@, 0x5c).take(i as int),
        decreases 64 - i,
    {
        let byte: u8 = if i < key.len() {
            key[i]
        } else {
            0
        };
        inner.push(byte ^ 0x36);
        outer.push(byte ^ 0x5c);
        proof {
            assert(mixed_key(key@, 0x36).take(i as int + 1) =~= mixed_key(key@, 0x36).take(
                i as int,
            ).push(byte ^ 0x36));
            assert(mixed_key(key@, 0x5c).take(i as int + 1) =~= mixed_key(key@, 0x5c).take(
                i as int,
            ).push(byte ^ 0x5c));
        }
        i += 1;
    }
    proof {
        assert(mixed_key(key@, 0x36).take(64) =~= mixed_key(key@, 0x36));
        assert(mixed_key(key@, 0x5c).take(64) =~= mixed_key(key@, 0x5c));
    }
    inner.extend_from_slice(message);
    assert(inner@ =~= mixed_key(key@, 0x36) + message@);
    let inner_digest = sha256(inner.as_slice());
    outer.extend_from_slice(inner_digest.as_slice());
    assert(outer@ =~= mixed_key(key@, 0x5c) + inner_digest@);
    sha256(outer.as_slice())
}

/// Different texts have different bytes.
pub proof fn lemma_bytes_injective(a: Seq<char>, b: Seq<char>)
    ensures
        vstd::utf8::encode_utf8(a) == vstd::utf8::encode_utf8(b) <==> a == b,
{
    vstd::utf8::encode_utf8_decode_utf8(a);
    vstd::utf8::encode_utf8_decode_utf8(b);
}

/// Whether two strings are equal, found in the same number of steps for any
/// two strings of the same length.
pub fn constant_time_hex_eq(left: &str, right: &str) -> (equal: bool)
    ensures
        equal == (left@ == right@),
{
    proof {
        lemma_bytes_injective(left@, right@);
    }
    let a = left.as_bytes();
    let b = right.as_bytes();
    if a.len() != b.len() {
        return false;
    }
    let mut difference: u8 = 0;
    let mut i: usize = 0;
    while i < a.len()
        invariant
            i <= a@.len(),
            a@.len() == b@.len(),
            difference == 0 <==> forall|j: int| 0 <= j < i ==> a@[j] == b@[j],
        decreases a@.len() - i,
    {
        let x = a[i];
        let y = b[i];
        let mixed = difference | (x ^ y);
        assert(mixed == 0 <==> difference == 0 && x == y) by (bit_vector)
            requires
                mixed == difference | (x ^ y),
        ;
        difference = mixed;
        i += 1;
    }
    proof {
        if difference == 0 {
            assert(a@ =~= b@);
        }
    }
    difference == 0
}

/// The value of the first header with the given name, without the whitespace
/// around it. The case of ASCII letters in names does not matter.
pub open spec fn header_of(
    headers: Seq<(Seq<char>, Seq<char>)>,
    name: Seq<char>,
) -> Option<Seq<char>>
    decreases headers.len(),
{
    if headers.len() == 0 {
        None
    } else if text::same_ignoring_case(headers[0].0, name) {
        Some(text::trimmed(headers[0].1))
    } else {
        header_of(headers.drop_first(), name)
    }
}

/// The value of the first header with the given name, trimmed.
pub fn header_value(headers: &Vec<(String, String)>, name: &str) -> (value: Option<String>)
    ensures
        text::optional_text(value) == header_of(text::text_pairs(headers@), name@),
{
    let mut i: usize = 0;
    proof {
        assert(text::text_pairs(headers@).skip(0) == text::text_pairs(headers@));
    }
    while i < headers.len()
        invariant
            i <= headers@.len(),
            header_of(text::text_pairs(headers@), name@) == header_of(
                text::text_pairs(headers@).skip(i as int),
                name@,
            ),
        decreases headers@.len() - i,
    {
        proof {
            let rest = text::text_pairs(headers@).skip(i as int);
            assert(rest[0] == (headers@[i as int].0@, headers@[i as int].1@));
            assert(rest.drop_first() == text::text_pairs(headers@).skip(i as int + 1));
        }
        if equal_ignoring_case(headers[i].0.as_str(), name) {
            return Some(trim(headers[i].1.as_str()));
        }
        i += 1;
    }
    None
}

/// The `name=value` parts of an authorization header.
pub open spec fn authorization_pairs(parts: Seq<Seq<char>>) -> Seq<(Seq<char>, Seq<char>)>
    decreases parts.len(),
{
    if parts.len() == 0 {
        Seq::empty()
    } else {
        let before = authorization_pairs(parts.drop_last());
        match text::split_first(parts.last(), '=') {
            Some(pair) => before.push(pair),
            None => before,
        }
    }
}

/// The value of the last part with the given name.
pub open spec fn last_value(
    pairs: Seq<(Seq<char>, Seq<char>)>,
    name: Seq<char>,
) -> Option<Seq<char>>
    decreases pairs.len(),
{
    if pairs.len() == 0 {
        None
    } else if pairs.last().0 == name {
        Some(pairs.last().1)
    } else {
        last_value(pairs.drop_last(), name)
    }
}

fn split_authorization(rest: &str) -> (pairs: Vec<(String, String)>)
    ensures
        text::text_pairs(pairs@) == authorization_pairs(text::split_on(rest@, ", "@)),
{
    proof {
        reveal_strlit(", ");
    }
    let parts = split_pattern(rest, ", ");
    let mut pairs: Vec<(String, String)> = Vec::new();
    let mut i: usize = 0;
    proof {
        assert(text::texts(parts@).take(0) =~= Seq::<Seq<char>>::empty());
        assert(text::text_pairs(pairs@) =~= Seq::<(Seq<char>, Seq<char>)>::empty());
    }
    while i < parts.len()
        invariant
            i <= parts@.len(),
            text::texts(parts@) == text::split_on(rest@, ", "@),
            text::text_pairs(pairs@) == authorization_pairs(text::texts(parts@).take(i as int)),
        decreases parts@.len() - i,
    {
        proof {
            let done = text::texts(parts@).take(i as int + 1);
            assert(done.drop_last() == text::texts(parts@).take(i as int));
            assert(done.last() == parts@[i as int]@);
        }
        match split_once(parts[i].as_str(), '=') {
            Some(pair) => {
                proof {
                    assert(text::text_pairs(pairs@.push(pair)) =~= text::text_pairs(pairs@).push(
                        (pair.0@, pair.1@),
                    ));
                }
                pairs.push(pair);
            },
            None => {},
        }
        i += 1;
    }
    proof {
        assert(text::texts(parts@).take(parts@.len() as int) == text::texts(parts@));
    }
    pairs
}

fn find_last(pairs: &Vec<(String, String)>, name: &str) -> (value: Option<String>)
    ensures
        text::optional_text(value) == last_value(text::text_pairs(pairs@), name@),
{
    let mut i: usize = pairs.len();
    proof {
        assert(text::text_pairs(pairs@).take(i as int) == text::text_pairs(pairs@));
    }
    while i > 0
        invariant
            i <= pairs@.len(),
            last_value(text::text_pairs(pairs@), name@) == last_value(
                text::text_pairs(pairs@).take(i as int),
                name@,
            ),
        decreases i,
    {
        proof {
            let done = text::text_pairs(pairs@).take(i as int);
            assert(done.drop_last() == text::text_pairs(pairs@).take(i - 1));
            assert(done.last() == (pairs@[i - 1].0@, pairs@[i - 1].1@));
        }
        if same(pairs[i - 1].0.as_str(), name) {
            return Some(pairs[i - 1].1.clone());
        }
        i -= 1;
    }
    None
}

/// Whether a text is a signature in hexadecimal: 64 ASCII hexadecimal digits.
pub open spec fn is_signature_text(s: Seq<char>) -> bool {
    s.len() == 64 && forall|i: int| 0 <= i < s.len() ==> is_hex_char(#[trigger] s[i])
}

/// Whether the character is an ASCII hexadecimal digit.
pub open spec fn is_hex_char(c: char) -> bool {
    is_digit(c) || ('a' <= c && c <= 'f') || ('A' <= c && c <= 'F')
}

/// Whether a text may name a signed header.
pub open spec fn is_signed_name(s: Seq<char>) -> bool {
    s.len() > 0 && forall|i: int| 0 <= i < s.len() ==> is_signed_name_char(#[trigger] s[i])
}

/// Whether the character may stand in the name of a signed header.
pub open spec fn is_signed_name_char(c: char) -> bool {
    ('a' <= c && c <= 'z') || is_digit(c) || c == '-'
}

/// Whether every text stands before the next.
pub open spec fn is_increasing(names: Seq<Seq<char>>) -> bool {
    forall|i: int| 0 <= i < names.len() - 1 ==> #[trigger] in_sequence(names, i)
}

/// Whether the text at a position stands before the next.
pub open spec fn in_sequence(names: Seq<Seq<char>>, i: int) -> bool {
    text::text_before(names[i], names[i + 1])
}

fn check_signature_text(s: &str) -> (valid: bool)
    ensures
        valid == is_signature_text(s@),
{
    let chars = chars_of(s);
    if chars.len() != 64 {
        return false;
    }
    let mut i: usize = 0;
    while i < chars.len()
        invariant
            i <= chars@.len(),
            chars@ == s@,
            forall|j: int| 0 <= j < i ==> is_hex_char(#[trigger] s@[j]),
        decreases chars@.len() - i,
    {
        let c = chars[i];
        if !(('0' <= c && c <= '9') || ('a' <= c && c <= 'f') || ('A' <= c && c <= 'F')) {
            assert(!is_hex_char(s@[i as int]));
            return false;
        }
        i += 1;
    }
    true
}

fn check_signed_name(s: &str) -> (valid: bool)
    ensures
        valid == is_signed_name(s@),
{
    let chars = chars_of(s);
    if chars.len() == 0 {
        return false;
    }
    let mut i: usize = 0;
    while i < chars.len()
        invariant
            i <= chars@.len(),
            chars@ == s@,
            forall|j: int| 0 <= j < i ==> is_signed_name_char(#[trigger] s@[j]),
        decreases chars@.len() - i,
    {
        let c = chars[i];
        if !(('a' <= c && c <= 'z') || ('0' <= c && c <= '9') || c == '-') {
            assert(!is_signed_name_char(s@[i as int]));
            return false;
        }
        i += 1;
    }
    true
}

fn check_increasing(names: &Vec<String>) -> (valid: bool)
    ensures
        valid == is_increasing(text::texts(names@)),
{
    let mut i: usize = 1;
    while i < names.len()
        invariant
            1 <= i,
            forall|j: int| 0 <= j < i - 1 ==> #[trigger] in_sequence(text::texts(names@), j),
            i <= names@.len() || names@.len() == 0,
        decreases names@.len() - i,
    {
        if !before(names[i - 1].as_str(), names[i].as_str()) {
            assert(!in_sequence(text::texts(names@), i - 1));
            return false;
        }
        assert(in_sequence(text::texts(names@), i - 1));
        i += 1;
    }
    true
}

/// One line of the canonical headers.
pub open spec fn canonical_header(name: Seq<char>, value: Seq<char>) -> Seq<char> {
    name + ":"@ + text::join(text::words(value), " "@) + "\n"@
}

/// The canonical headers of the signed names in order, or why there are none:
/// the first name that is malformed or names no header.
pub open spec fn canonical_headers(
    headers: Seq<(Seq<char>, Seq<char>)>,
    names: Seq<Seq<char>>,
) -> Result<Seq<char>, Seq<char>>
    decreases names.len(),
{
    if names.len() == 0 {
        Ok(Seq::<char>::empty())
    } else {
        match canonical_headers(headers, names.drop_last()) {
            Err(message) => Err(message),
            Ok(before) => if !is_signed_name(names.last()) {
                Err("invalid signed header name"@)
            } else {
                match header_of(headers, names.last()) {
                    None => Err("signed header is missing: "@ + names.last()),
                    Some(value) => Ok(before + canonical_header(names.last(), value)),
                }
            },
        }
    }
}

proof fn lemma_canonical_headers_fail(
    headers: Seq<(Seq<char>, Seq<char>)>,
    names: Seq<Seq<char>>,
    count: int,
)
    requires
        0 <= count <= names.len(),
        canonical_headers(headers, names.take(count)) is Err,
    ensures
        canonical_headers(headers, names) == canonical_headers(headers, names.take(count)),
    decreases names.len() - count,
{
    if count < names.len() {
        assert(names.take(count + 1).drop_last() == names.take(count));
        lemma_canonical_headers_fail(headers, names, count + 1);
    } else {
        assert(names.take(count) == names);
    }
}

fn write_canonical_headers(headers: &Vec<(String, String)>, names: &Vec<String>) -> (written: Result<
    String,
    String,
>)
    ensures
        match written {
            Ok(lines) => canonical_headers(text::text_pairs(headers@), text::texts(names@)) == Ok::<
                Seq<char>,
                Seq<char>,
            >(lines@),
            Err(message) => canonical_headers(text::text_pairs(headers@), text::texts(names@))
                == Err::<Seq<char>, Seq<char>>(message@),
        },
{
    let ghost pairs = text::text_pairs(headers@);
    let ghost wanted = text::texts(names@);
    let mut lines = String::new();
    let mut i: usize = 0;
    proof {
        assert(wanted.take(0) =~= Seq::<Seq<char>>::empty());
    }
    while i < names.len()
        invariant
            i <= names@.len(),
            pairs == text::text_pairs(headers@),
            wanted == text::texts(names@),
            canonical_headers(pairs, wanted.take(i as int)) == Ok::<Seq<char>, Seq<char>>(lines@),
        decreases names@.len() - i,
    {
        let name = names[i].as_str();
        proof {
            assert(wanted.take(i as int + 1).drop_last() == wanted.take(i as int));
            assert(wanted.take(i as int + 1).last() == name@);
        }
        if !check_signed_name(name) {
            proof {
                lemma_canonical_headers_fail(pairs, wanted, i as int + 1);
            }
            return Err("invalid signed header name".to_owned());
        }
        match header_value(headers, name) {
            None => {
                proof {
                    lemma_canonical_headers_fail(pairs, wanted, i as int + 1);
                }
                return Err(concat2("signed header is missing: ", name));
            },
            Some(value) => {
                let ghost written = lines@;
                let squeezed = join_strings(&split_words(value.as_str()), " ");
                lines.append(name);
                lines.append(":");
                lines.append(squeezed.as_str());
                lines.append("\n");
                assert(lines@ =~= written + canonical_header(name@, value@));
            },
        }
        i += 1;
    }
    proof {
        assert(wanted.take(names@.len() as int) == wanted);
    }
    Ok(lines)
}

/// The credentials that a gateway expects its callers to sign with.
#[derive(Debug)]
pub struct PaddockGatewayAuth {
    pub access_key: String,
    pub secret_key: String,
    pub region: String,
}

/// What of a received request takes part in its signature.
#[derive(Debug)]
pub struct SignedRequest {
    pub method: String,
    pub path: String,
    pub headers: Vec<(String, String)>,
    /// The digest of the received body in hexadecimal.
    pub payload_hash: String,
}

impl SignedRequest {
    /// The header of the given name.
    pub open spec fn header(&self, name: Seq<char>) -> Option<Seq<char>> {
        header_of(text::text_pairs(self.headers@), name)
    }
}

/// The longest time in seconds between the signing of a request and its check.
pub const SIGNATURE_WINDOW: i64 = 900;

/// The authorization and the date that a request carries, or why it is not
/// considered at the given moment. Without a moment the clock stands before
/// the start of 1970.
pub open spec fn presented(request: SignedRequest, now: Option<int>) -> Result<
    (Seq<char>, Seq<char>),
    Seq<char>,
> {
    match request.header("authorization"@) {
        None => Err("SigV4 Authorization header is required"@),
        Some(authorization) => match request.header("x-amz-date"@) {
            None => Err("x-amz-date header is required"@),
            Some(date) => match timestamp_of(date) {
                Err(message) => Err(message),
                Ok(signed_at) => match now {
                    None => Err("system clock is before the Unix epoch"@),
                    Some(now) => if -SIGNATURE_WINDOW <= now - signed_at <= SIGNATURE_WINDOW {
                        Ok((authorization, date))
                    } else {
                        Err("request timestamp is outside the 15 minute SigV4 window"@)
                    },
                },
            },
        },
    }
}

fn read_presented(request: &SignedRequest, now: Option<i64>) -> (read: Result<
    (String, String),
    String,
>)
    ensures
        match read {
            Ok((authorization, date)) => presented(*request, opt_int(now)) == Ok::<
                (Seq<char>, Seq<char>),
                Seq<char>,
            >((authorization@, date@)) && is_basic_timestamp(date@),
            Err(message) => presented(*request, opt_int(now)) == Err::<
                (Seq<char>, Seq<char>),
                Seq<char>,
            >(message@),
        },
{
    let authorization = match header_value(&request.headers, "authorization") {
        Some(value) => value,
        None => {
            return Err("SigV4 Authorization header is required".to_owned());
        },
    };
    let date = match header_value(&request.headers, "x-amz-date") {
        Some(value) => value,
        None => {
            return Err("x-amz-date header is required".to_owned());
        },
    };
    let signed_at = match parse_amz_timestamp(date.as_str()) {
        Ok(seconds) => seconds,
        Err(message) => {
            return Err(message);
        },
    };
    match now {
        None => Err("system clock is before the Unix epoch".to_owned()),
        Some(now) => {
            let age = now as i128 - signed_at as i128;
            if -(SIGNATURE_WINDOW as i128) <= age && age <= SIGNATURE_WINDOW as i128 {
                Ok((authorization, date))
            } else {
                Err("request timestamp is outside the 15 minute SigV4 window".to_owned())
            }
        },
    }
}

/// A moment as a mathematical number.
pub open spec fn opt_int(n: Option<i64>) -> Option<int> {
    match n {
        Some(n) => Some(n as int),
        None => None,
    }
}

/// Whether a credential names the key that the gateway expects.
pub open spec fn names_key(credential: Seq<Seq<char>>, access_key: Seq<char>) -> bool {
    credential.len() == 5 && credential[0] == access_key
}

/// Whether a credential of five parts is for the day, the region and the
/// service.
pub open spec fn has_scope(
    credential: Seq<Seq<char>>,
    day: Seq<char>,
    region: Seq<char>,
) -> bool {
    credential[1] == day && credential[2] == region && credential[3] == "s3"@ && credential[4]
        == "aws4_request"@
}

/// The signed names and the signature that an authorization claims, or why it
/// is refused.
pub open spec fn claimed(
    authorization: Seq<char>,
    date: Seq<char>,
    access_key: Seq<char>,
    region: Seq<char>,
) -> Result<(Seq<char>, Seq<char>), Seq<char>> {
    if !text::starts_with(authorization, "AWS4-HMAC-SHA256 "@) {
        Err("unsupported authorization scheme"@)
    } else {
        let rest = authorization.skip("AWS4-HMAC-SHA256 "@.len() as int);
        let pairs = authorization_pairs(text::split_on(rest, ", "@));
        match last_value(pairs, "Credential"@) {
            None => Err("SigV4 Credential is missing"@),
            Some(credential) => {
                let parts = text::split_at_char(credential, '/');
                if !names_key(parts, access_key) {
                    Err("invalid SigV4 credential"@)
                } else if !has_scope(parts, date.take(8), region) {
                    Err("invalid SigV4 credential scope"@)
                } else {
                    match (last_value(pairs, "SignedHeaders"@), last_value(pairs, "Signature"@)) {
                        (None, _) => Err("SigV4 SignedHeaders is missing"@),
                        (_, None) => Err("SigV4 Signature is missing"@),
                        (Some(names), Some(signature)) => if !is_signature_text(signature) {
                            Err("invalid SigV4 signature"@)
                        } else {
                            Ok((names, signature))
                        },
                    }
                }
            },
        }
    }
}

fn read_claimed(authorization: &str, day: &str, auth: &PaddockGatewayAuth, Ghost(date): Ghost<
    Seq<char>,
>) -> (read: Result<(String, String), String>)
    requires
        day@ == date.take(8),
    ensures
        match read {
            Ok((names, signature)) => claimed(
                authorization@,
                date,
                auth.access_key@,
                auth.region@,
            ) == Ok::<(Seq<char>, Seq<char>), Seq<char>>((names@, signature@)),
            Err(message) => claimed(authorization@, date, auth.access_key@, auth.region@) == Err::<
                (Seq<char>, Seq<char>),
                Seq<char>,
            >(message@),
        },
{
    let rest = match strip_prefix(authorization, "AWS4-HMAC-SHA256 ") {
        Some(rest) => rest,
        None => {
            return Err("unsupported authorization scheme".to_owned());
        },
    };
    let pairs = split_authorization(rest.as_str());
    let credential = match find_last(&pairs, "Credential") {
        Some(value) => value,
        None => {
            return Err("SigV4 Credential is missing".to_owned());
        },
    };
    let parts = split_char(credential.as_str(), '/');
    let ghost seen = text::texts(parts@);
    if parts.len() != 5 || !same(parts[0].as_str(), auth.access_key.as_str()) {
        assert(!names_key(seen, auth.access_key@));
        return Err("invalid SigV4 credential".to_owned());
    }
    assert(names_key(seen, auth.access_key@));
    if !same(parts[1].as_str(), day) || !same(parts[2].as_str(), auth.region.as_str()) || !same(
        parts[3].as_str(),
        "s3",
    ) || !same(parts[4].as_str(), "aws4_request") {
        assert(!has_scope(seen, day@, auth.region@));
        return Err("invalid SigV4 credential scope".to_owned());
    }
    assert(has_scope(seen, day@, auth.region@));
    let names = match find_last(&pairs, "SignedHeaders") {
        Some(value) => value,
        None => {
            return Err("SigV4 SignedHeaders is missing".to_owned());
        },
    };
    let signature = match find_last(&pairs, "Signature") {
        Some(value) => value,
        None => {
            return Err("SigV4 Signature is missing".to_owned());
        },
    };
    if !check_signature_text(signature.as_str()) {
        return Err("invalid SigV4 signature".to_owned());
    }
    Ok((names, signature))
}

/// The digest of the payload that takes part in the signature.
pub open spec fn signed_payload(request: SignedRequest) -> Seq<char> {
    match request.header("x-amz-content-sha256"@) {
        Some(value) => value,
        None => request.payload_hash@,
    }
}

/// The canonical form of a request with the given signed names.
pub open spec fn canonical_request(
    request: SignedRequest,
    names: Seq<char>,
    lines: Seq<char>,
) -> Seq<char> {
    text::join(
        seq![
            text::text_uppercase(request.method@),
            canonical_path(request.path@),
            canonical_query(request.path@),
            lines,
            names,
            signed_payload(request),
        ],
        "\n"@,
    )
}

/// The text that is signed for a canonical request.
pub open spec fn string_to_sign(
    date: Seq<char>,
    region: Seq<char>,
    canonical: Seq<char>,
) -> Seq<char> {
    let scope = text::join(seq![date.take(8), region, "s3"@, "aws4_request"@], "/"@);
    let digest = text::hex(digest::sha256_digest(vstd::utf8::encode_utf8(canonical)));
    text::join(seq!["AWS4-HMAC-SHA256"@, date, scope, digest], "\n"@)
}

/// The text that a request with the given signed names has to be signed over,
/// or why the request is refused.
pub open spec fn signed_text(
    request: SignedRequest,
    date: Seq<char>,
    region: Seq<char>,
    names: Seq<char>,
) -> Result<Seq<char>, Seq<char>> {
    let signed = text::split_at_char(names, ';');
    if !is_increasing(signed) {
        Err("SigV4 SignedHeaders must be sorted"@)
    } else {
        match canonical_headers(text::text_pairs(request.headers@), signed) {
            Err(message) => Err(message),
            Ok(lines) => if !signed.contains("host"@) || !signed.contains("x-amz-date"@) {
                Err("host and x-amz-date must be signed"@)
            } else if signed_payload(request) != "UNSIGNED-PAYLOAD"@ && signed_payload(request)
                != request.payload_hash@ {
                Err("x-amz-content-sha256 does not match the request body"@)
            } else {
                Ok(string_to_sign(date, region, canonical_request(request, names, lines)))
            },
        }
    }
}

fn write_string_to_sign(
    request: &SignedRequest,
    date: &str,
    day: &str,
    region: &str,
    names: &str,
    lines: String,
    payload_hash: String,
) -> (s: String)
    requires
        day@ == date@.take(8),
        payload_hash@ == signed_payload(*request),
    ensures
        s@ == string_to_sign(date@, region@, canonical_request(*request, names@, lines@)),
{
    let (path, query) = match canonical_path_and_query(request.path.as_str()) {
        Ok(parts) => parts,
        Err(_) => (String::new(), String::new()),
    };
    let fields: Vec<String> = vec![
        request.method.as_str().to_uppercase(),
        path,
        query,
        lines,
        names.to_owned(),
        payload_hash,
    ];
    let canonical = join_strings(&fields, "\n");
    proof {
        assert(text::texts(fields@) =~= seq![
            text::text_uppercase(request.method@),
            canonical_path(request.path@),
            canonical_query(request.path@),
            lines@,
            names@,
            signed_payload(*request),
        ]);
    }
    let scope_parts: Vec<String> = vec![
        day.to_owned(),
        region.to_owned(),
        "s3".to_owned(),
        "aws4_request".to_owned(),
    ];
    let scope = join_strings(&scope_parts, "/");
    proof {
        assert(text::texts(scope_parts@) =~= seq![day@, region@, "s3"@, "aws4_request"@]);
    }
    let digest = sha256(canonical.as_str().as_bytes());
    let sign_parts: Vec<String> = vec![
        "AWS4-HMAC-SHA256".to_owned(),
        date.to_owned(),
        scope,
        hex_digest(digest.as_slice()),
    ];
    let s = join_strings(&sign_parts, "\n");
    proof {
        assert(text::texts(sign_parts@) =~= seq![
            "AWS4-HMAC-SHA256"@,
            date@,
            scope@,
            text::hex(digest@),
        ]);
    }
    s
}

fn read_signed_text(
    request: &SignedRequest,
    date: &str,
    day: &str,
    region: &str,
    names: &str,
) -> (read: Result<String, String>)
    requires
        day@ == date@.take(8),
    ensures
        match read {
            Ok(signed) => signed_text(*request, date@, region@, names@) == Ok::<
                Seq<char>,
                Seq<char>,
            >(signed@),
            Err(message) => signed_text(*request, date@, region@, names@) == Err::<
                Seq<char>,
                Seq<char>,
            >(message@),
        },
{
    let signed = split_char(names, ';');
    if !check_increasing(&signed) {
        return Err("SigV4 SignedHeaders must be sorted".to_owned());
    }
    let lines = match write_canonical_headers(&request.headers, &signed) {
        Ok(lines) => lines,
        Err(message) => {
            return Err(message);
        },
    };
    if !contains_text(&signed, "host") || !contains_text(&signed, "x-amz-date") {
        return Err("host and x-amz-date must be signed".to_owned());
    }
    let payload_hash = match header_value(&request.headers, "x-amz-content-sha256") {
        Some(value) => value,
        None => request.payload_hash.clone(),
    };
    if !same(payload_hash.as_str(), "UNSIGNED-PAYLOAD") && !same(
        payload_hash.as_str(),
        request.payload_hash.as_str(),
    ) {
        return Err("x-amz-content-sha256 does not match the request body".to_owned());
    }
    Ok(write_string_to_sign(request, date, day, region, names, lines, payload_hash))
}

/// What a request has to prove: the day and the text that its signature is
/// over, and the signature that it claims.
pub open spec fn signing_claim(
    request: SignedRequest,
    access_key: Seq<char>,
    region: Seq<char>,
    now: Option<int>,
) -> Result<(Seq<char>, Seq<char>, Seq<char>), Seq<char>> {
    match presented(request, now) {
        Err(message) => Err(message),
        Ok((authorization, date)) => match claimed(authorization, date, access_key, region) {
            Err(message) => Err(message),
            Ok((names, signature)) => match signed_text(request, date, region, names) {
                Err(message) => Err(message),
                Ok(signed) => Ok((date.take(8), signed, signature)),
            },
        },
    }
}

/// The first key of the signing chain: the secret behind its version.
pub open spec fn secret_bytes(secret_key: Seq<char>) -> Seq<u8> {
    vstd::utf8::encode_utf8("AWS4"@ + secret_key)
}

/// The key that signs requests of one day for one region.
pub open spec fn signing_key(
    secret_key: Seq<char>,
    day: Seq<char>,
    region: Seq<char>,
) -> Seq<u8> {
    let date_key = hmac(secret_bytes(secret_key), vstd::utf8::encode_utf8(day));
    let region_key = hmac(date_key, vstd::utf8::encode_utf8(region));
    let service_key = hmac(region_key, vstd::utf8::encode_utf8("s3"@));
    hmac(service_key, vstd::utf8::encode_utf8("aws4_request"@))
}

/// The signature that the holder of the secret gives a text on a day.
pub open spec fn signature_for(
    auth: PaddockGatewayAuth,
    day: Seq<char>,
    signed: Seq<char>,
) -> Seq<char> {
    text::hex(
        hmac(
            signing_key(auth.secret_key@, day, auth.region@),
            vstd::utf8::encode_utf8(signed),
        ),
    )
}

/// Whether a request is accepted at a moment, or the message it is refused
/// with. A gateway without credentials accepts every request.
pub open spec fn signature_verdict(
    request: SignedRequest,
    auth: Option<PaddockGatewayAuth>,
    now: Option<int>,
) -> Result<(), Seq<char>> {
    match auth {
        None => Ok(()),
        Some(auth) => match signing_claim(request, auth.access_key@, auth.region@, now) {
            Err(message) => Err(message),
            Ok((day, signed, signature)) => if signature_for(auth, day, signed) == signature {
                Ok(())
            } else {
                Err("signature does not match"@)
            },
        },
    }
}

/// What a result says, with its message as text.
pub open spec fn verdict_of(result: Result<(), String>) -> Result<(), Seq<char>> {
    match result {
        Ok(()) => Ok(()),
        Err(message) => Err(message@),
    }
}

/// Whether the secret fits into one block of the digest.
pub open spec fn secret_fits(auth: PaddockGatewayAuth) -> bool {
    secret_bytes(auth.secret_key@).len() <= 64
}

impl PaddockGatewayAuth {
    /// Whether the secret fits into one block of the digest.
    pub fn fits(&self) -> (fits: bool)
        ensures
            fits == secret_fits(*self),
    {
        let secret = concat2("AWS4", self.secret_key.as_str());
        secret.as_str().as_bytes().len() <= 64
    }
}

fn write_signature(auth: &PaddockGatewayAuth, day: &str, signed: &str) -> (s: String)
    requires
        secret_fits(*auth),
    ensures
        s@ == signature_for(*auth, day@, signed@),
{
    let secret = concat2("AWS4", auth.secret_key.as_str());
    let date_key = hmac_sha256(secret.as_str().as_bytes(), day.as_bytes());
    let region_key = hmac_sha256(date_key.as_slice(), auth.region.as_str().as_bytes());
    let service_key = hmac_sha256(region_key.as_slice(), "s3".as_bytes());
    let key = hmac_sha256(service_key.as_slice(), "aws4_request".as_bytes());
    let mac = hmac_sha256(key.as_slice(), signed.as_bytes());
    hex_digest(mac.as_slice())
}

/// What a request has to prove at a given moment, or why it proves nothing.
pub fn read_signing_claim(
    request: &SignedRequest,
    auth: &PaddockGatewayAuth,
    now: Option<i64>,
) -> (read: Result<(String, String, String), String>)
    ensures
        match read {
            Ok((day, signed, signature)) => signing_claim(
                *request,
                auth.access_key@,
                auth.region@,
                opt_int(now),
            ) == Ok::<(Seq<char>, Seq<char>, Seq<char>), Seq<char>>(
                (day@, signed@, signature@),
            ),
            Err(message) => signing_claim(
                *request,
                auth.access_key@,
                auth.region@,
                opt_int(now),
            ) == Err::<(Seq<char>, Seq<char>, Seq<char>), Seq<char>>(message@),
        },
{
    let (authorization, date) = match read_presented(request, now) {
        Ok(read) => read,
        Err(message) => {
            return Err(message);
        },
    };
    let date_chars = chars_of(date.as_str());
    let day = string_of(vstd::slice::slice_subrange(date_chars.as_slice(), 0, 8));
    assert(day@ =~= date@.take(8));
    let (names, signature) = match read_claimed(
        authorization.as_str(),
        day.as_str(),
        auth,
        Ghost(date@),
    ) {
        Ok(read) => read,
        Err(message) => {
            return Err(message);
        },
    };
    let signed = match read_signed_text(
        request,
        date.as_str(),
        day.as_str(),
        auth.region.as_str(),
        names.as_str(),
    ) {
        Ok(signed) => signed,
        Err(message) => {
            return Err(message);
        },
    };
    Ok((day, signed, signature))
}

/// Checks the signature of a request at a given moment. A request that comes
/// to the comparison of signatures needs a secret that fits into one block.
pub fn verify_signature_at(
    request: &SignedRequest,
    auth: &Option<PaddockGatewayAuth>,
    now: Option<i64>,
) -> (verdict: Result<(), String>)
    requires
        auth matches Some(auth) ==> secret_fits(*auth) || signing_claim(
            *request,
            auth.access_key@,
            auth.region@,
            opt_int(now),
        ) is Err,
    ensures
        verdict_of(verdict) == signature_verdict(*request, *auth, opt_int(now)),
{
    let auth = match auth {
        Some(auth) => auth,
        None => {
            return Ok(());
        },
    };
    let (day, signed, signature) = match read_signing_claim(request, auth, now) {
        Ok(read) => read,
        Err(message) => {
            return Err(message);
        },
    };
    let expected = write_signature(auth, day.as_str(), signed.as_str());
    if !constant_time_hex_eq(expected.as_str(), signature.as_str()) {
        return Err("signature does not match".to_owned());
    }
    Ok(())
}

/// Checks the signature of a request by the host's clock: the request is
/// judged as of the moment that the clock shows.
pub fn verify_gateway_signature(
    request: &SignedRequest,
    auth: &Option<PaddockGatewayAuth>,
) -> (verdict: Result<(), String>)
    requires
        auth matches Some(auth) ==> secret_fits(*auth) || forall|now: Option<int>|
            #[trigger]
            signing_claim(*request, auth.access_key@, auth.region@, now) is Err,
    ensures
        exists|now: Option<i64>|
            verdict_of(verdict) == #[trigger] signature_verdict(*request, *auth, opt_int(now)),
{
    let moment = SystemTime::now();
    let now = match seconds_since_1970(&moment) {
        Some(seconds) => Some(
            #[verifier::truncate]
            (seconds as i64),
        ),
        None => None,
    };
    verify_signature_at(request, auth, now)
}

/// The last credential that an authorization gives, in its parts.
pub open spec fn credential_of(authorization: Seq<char>) -> Seq<Seq<char>> {
    let rest = authorization.skip("AWS4-HMAC-SHA256 "@.len() as int);
    let pairs = authorization_pairs(text::split_on(rest, ", "@));
    text::split_at_char(last_value(pairs, "Credential"@)->0, '/')
}

/// An accepted request is signed with the gateway's secret over its method,
/// its target, its signed headers and its payload digest; its credential names
/// the gateway's key, its day, region and service; its timestamp lies within
/// the window; its host and date are signed; and the payload digest is that of
/// the received body, unless the caller left the payload unsigned.
pub proof fn law_accepted_requests_are_signed(
    request: SignedRequest,
    auth: PaddockGatewayAuth,
    now: Option<int>,
)
    requires
        signature_verdict(request, Some(auth), now) is Ok,
    ensures
        request.header("authorization"@) is Some,
        ({
            let date = request.header("x-amz-date"@)->0;
            let names = claimed(
                request.header("authorization"@)->0,
                date,
                auth.access_key@,
                auth.region@,
            )->Ok_0.0;
            let signature = claimed(
                request.header("authorization"@)->0,
                date,
                auth.access_key@,
                auth.region@,
            )->Ok_0.1;
            let signed = text::split_at_char(names, ';');
            let lines = canonical_headers(text::text_pairs(request.headers@), signed)->Ok_0;
            let credential = credential_of(request.header("authorization"@)->0);
            &&& request.header("x-amz-date"@) is Some
            &&& names_key(credential, auth.access_key@)
            &&& has_scope(credential, date.take(8), auth.region@)
            &&& timestamp_of(date) matches Ok(at) && -SIGNATURE_WINDOW <= now->0 - at
                <= SIGNATURE_WINDOW
            &&& is_increasing(signed)
            &&& signed.contains("host"@)
            &&& signed.contains("x-amz-date"@)
            &&& signed_payload(request) == request.payload_hash@ || signed_payload(request)
                == "UNSIGNED-PAYLOAD"@
            &&& signature == signature_for(
                auth,
                date.take(8),
                string_to_sign(date, auth.region@, canonical_request(request, names, lines)),
            )
        }),
{
}

/// A request that carries the signature of the gateway's secret over what it
/// claims to sign is accepted, and one that carries another is refused.
pub proof fn law_signature_decides(
    request: SignedRequest,
    auth: PaddockGatewayAuth,
    now: Option<int>,
)
    requires
        signing_claim(request, auth.access_key@, auth.region@, now) is Ok,
    ensures
        ({
            let claim = signing_claim(request, auth.access_key@, auth.region@, now)->Ok_0;
            signature_verdict(request, Some(auth), now) is Ok <==> claim.2 == signature_for(
                auth,
                claim.0,
                claim.1,
            )
        }),
{
}

proof fn lemma_piece_pairs_push(pieces: Seq<Seq<char>>, piece: Seq<char>)
    ensures
        piece_pairs(pieces.push(piece)) == if piece.len() > 0 {
            piece_pairs(pieces).push(query_pair(piece))
        } else {
            piece_pairs(pieces)
        },
{
    let keep = |part: Seq<char>| part.len() > 0;
    text::lemma_filter_push(pieces, piece, keep);
    if piece.len() > 0 {
        assert(piece_pairs(pieces.push(piece)) =~= piece_pairs(pieces).push(query_pair(piece)));
    }
}

proof fn lemma_piece_pairs_removed(pieces: Seq<Seq<char>>, k: int)
    requires
        0 <= k < pieces.len(),
    ensures
        piece_pairs(pieces).to_multiset() == if pieces[k].len() > 0 {
            piece_pairs(pieces.remove(k)).to_multiset().insert(query_pair(pieces[k]))
        } else {
            piece_pairs(pieces.remove(k)).to_multiset()
        },
    decreases pieces.len(),
{
    broadcast use vstd::seq_lib::group_to_multiset_ensures;

    let front = pieces.drop_last();
    assert(pieces =~= front.push(pieces.last()));
    lemma_piece_pairs_push(front, pieces.last());
    if k == pieces.len() - 1 {
        assert(pieces.remove(k) =~= front);
    } else {
        lemma_piece_pairs_removed(front, k);
        assert(pieces.remove(k) =~= front.remove(k).push(pieces.last()));
        lemma_piece_pairs_push(front.remove(k), pieces.last());
        assert(piece_pairs(pieces).to_multiset() =~= if pieces[k].len() > 0 {
            piece_pairs(pieces.remove(k)).to_multiset().insert(query_pair(pieces[k]))
        } else {
            piece_pairs(pieces.remove(k)).to_multiset()
        });
    }
}

proof fn lemma_piece_pairs_permuted(a: Seq<Seq<char>>, b: Seq<Seq<char>>)
    requires
        a.to_multiset() == b.to_multiset(),
    ensures
        piece_pairs(a).to_multiset() == piece_pairs(b).to_multiset(),
    decreases a.len(),
{
    broadcast use vstd::seq_lib::group_to_multiset_ensures;

    if a.len() == 0 {
        assert(b.len() == a.to_multiset().len());
        assert(a =~= b);
    } else {
        let x = a.last();
        let front = a.drop_last();
        assert(a =~= front.push(x));
        assert(a.to_multiset().count(x) > 0);
        assert(b.contains(x));
        let k = choose|k: int| 0 <= k < b.len() && b[k] == x;
        lemma_piece_pairs_removed(b, k);
        lemma_piece_pairs_push(front, x);
        assert(b.remove(k).to_multiset() =~= b.to_multiset().remove(x));
        assert(front.to_multiset() =~= a.to_multiset().remove(x));
        lemma_piece_pairs_permuted(front, b.remove(k));
    }
}

/// The canonical query stays as it is when a caller writes the pieces of the
/// query in another order.
pub proof fn law_canonical_query_ignores_order_of_pieces(a: Seq<char>, b: Seq<char>)
    requires
        text::split_at_char(target_parts(a).1, '&').to_multiset() == text::split_at_char(
            target_parts(b).1,
            '&',
        ).to_multiset(),
    ensures
        canonical_query(a) == canonical_query(b),
{
    lemma_piece_pairs_permuted(
        text::split_at_char(target_parts(a).1, '&'),
        text::split_at_char(target_parts(b).1, '&'),
    );
    law_canonical_query_ignores_order(a, b);
}

/// The canonical query does not depend on the order in which a caller writes
/// the parameters.
pub proof fn law_canonical_query_ignores_order(a: Seq<char>, b: Seq<char>)
    requires
        query_pairs(target_parts(a).1).to_multiset() == query_pairs(
            target_parts(b).1,
        ).to_multiset(),
    ensures
        canonical_query(a) == canonical_query(b),
{
    let x = query_pairs(target_parts(a).1);
    let y = query_pairs(target_parts(b).1);
    let leq = |p: (Seq<char>, Seq<char>), q: (Seq<char>, Seq<char>)| !pair_before(q, p);
    lemma_pair_order();
    order::lemma_in_order(x, pair_order());
    order::lemma_in_order(y, pair_order());
    let sx = order::in_order(x, pair_order());
    let sy = order::in_order(y, pair_order());
    assert forall|i: int, j: int| 0 <= i < j < sx.len() implies #[trigger] leq(sx[i], sx[j]) by {
        assert(!pair_order()(sx[j], sx[i]));
    }
    assert forall|i: int, j: int| 0 <= i < j < sy.len() implies #[trigger] leq(sy[i], sy[j]) by {
        assert(!pair_order()(sy[j], sy[i]));
    }
    assert(vstd::relations::total_ordering(leq)) by {
        assert forall|p: (Seq<char>, Seq<char>)| #[trigger] leq(p, p) by {
            if pair_before(p, p) {
                lemma_pair_before_asymmetric(p, p);
            }
        }
        assert forall|p: (Seq<char>, Seq<char>), q: (Seq<char>, Seq<char>)| #[trigger]
            leq(p, q) && #[trigger] leq(q, p) implies p == q by {}
        assert forall|
            p: (Seq<char>, Seq<char>),
            q: (Seq<char>, Seq<char>),
            r: (Seq<char>, Seq<char>),
        | #[trigger] leq(p, q) && #[trigger] leq(q, r) implies leq(p, r) by {
            assert(!pair_order()(q, p) && !pair_order()(r, q));
        }
        assert forall|p: (Seq<char>, Seq<char>), q: (Seq<char>, Seq<char>)| #[trigger]
            leq(p, q) || #[trigger] leq(q, p) by {
            if pair_before(q, p) {
                lemma_pair_before_asymmetric(q, p);
            }
        }
    }
    vstd::seq_lib::lemma_sorted_unique(sx, sy, leq);
}

/// A canonical line is the name, a colon, the words of the value in their order
/// with one space between neighbours, and the end of the line: taken apart at
/// single spaces it gives back the words of the value, so no word is lost, added
/// or moved. A value whose only whitespace is single spaces between its words
/// stands in its line unchanged, and a value without words leaves nothing there.
pub proof fn law_canonical_lines_keep_the_words(name: Seq<char>, value: Seq<char>)
    ensures
        ({
            let line = canonical_header(name, value);
            let shown = line.subrange(name.len() as int + 1, line.len() - 1);
            &&& line.len() >= name.len() + 2
            &&& line.take(name.len() as int) == name
            &&& line[name.len() as int] == ':'
            &&& line.last() == '\n'
            &&& text::words(shown) == text::words(value)
            &&& (text::words(value).len() > 0 ==> text::split_at_char(shown, ' ') == text::words(
                value,
            ))
            &&& (text::words(value).len() == 0 ==> shown.len() == 0)
            &&& (text::is_single_spaced(value) ==> shown == value)
        }),
{
    reveal_strlit(":");
    reveal_strlit(" ");
    reveal_strlit("\n");
    let line = canonical_header(name, value);
    let shown = line.subrange(name.len() as int + 1, line.len() - 1);
    let squeezed = text::join(text::words(value), seq![' ']);
    assert(" "@ =~= seq![' ']);
    assert(shown =~= squeezed);
    assert(line.take(name.len() as int) =~= name);
    text::law_words_hold_no_whitespace(value);
    text::law_joined_words_come_apart(text::words(value));
    if text::is_single_spaced(value) {
        text::law_single_spaced_texts_are_kept(value);
    }
}

/// The value of a header is that of the first header with the name, whatever the
/// case of its letters, without the whitespace around it. Where no header has the
/// name there is none.
pub proof fn law_headers_are_found_by_name(
    headers: Seq<(Seq<char>, Seq<char>)>,
    name: Seq<char>,
    at: int,
)
    requires
        0 <= at <= headers.len(),
        forall|j: int| 0 <= j < at ==> !text::same_ignoring_case((#[trigger] headers[j]).0, name),
        at < headers.len() ==> text::same_ignoring_case(headers[at].0, name),
    ensures
        at < headers.len() ==> header_of(headers, name) == Some(text::trimmed(headers[at].1)),
        at == headers.len() ==> header_of(headers, name) is None,
    decreases headers.len(),
{
    if at > 0 {
        let rest = headers.drop_first();
        assert(!text::same_ignoring_case(headers[0].0, name));
        assert forall|j: int| 0 <= j < at - 1 implies !text::same_ignoring_case(
            (#[trigger] rest[j]).0,
            name,
        ) by {
            assert(rest[j] == headers[j + 1]);
        }
        if at < headers.len() {
            assert(rest[at - 1] == headers[at]);
        }
        law_headers_are_found_by_name(rest, name, at - 1);
    }
}

/// There are canonical headers exactly where every signed name is one and names a
/// header of the request. They are then one line for each name, in the order of
/// the names.
pub proof fn law_every_signed_name_has_its_line(
    headers: Seq<(Seq<char>, Seq<char>)>,
    names: Seq<Seq<char>>,
)
    ensures
        canonical_headers(headers, names) is Ok <==> forall|i: int|
            0 <= i < names.len() ==> is_signed_name(#[trigger] names[i]) && header_of(
                headers,
                names[i],
            ) is Some,
        canonical_headers(headers, names) matches Ok(lines) ==> lines == joined(
            Seq::new(
                names.len(),
                |i: int| canonical_header(names[i], header_of(headers, names[i])->0),
            ),
        ),
    decreases names.len(),
{
    let each = Seq::new(
        names.len(),
        |i: int| canonical_header(names[i], header_of(headers, names[i])->0),
    );
    if names.len() > 0 {
        let front = names.drop_last();
        law_every_signed_name_has_its_line(headers, front);
        if canonical_headers(headers, front) is Ok {
            assert forall|i: int| 0 <= i < front.len() implies is_signed_name(#[trigger] names[i])
                && header_of(headers, names[i]) is Some by {
                assert(front[i] == names[i]);
            }
            assert(each.drop_last() =~= Seq::new(
                front.len(),
                |i: int| canonical_header(front[i], header_of(headers, front[i])->0),
            ));
            assert(names[names.len() - 1] == names.last());
        } else {
            let i = choose|i: int|
                0 <= i < front.len() && !(is_signed_name(#[trigger] front[i]) && header_of(
                    headers,
                    front[i],
                ) is Some);
            assert(names[i] == front[i]);
        }
    }
}

/// Texts one behind the other.
pub open spec fn joined(parts: Seq<Seq<char>>) -> Seq<char>
    decreases parts.len(),
{
    if parts.len() == 0 {
        Seq::<char>::empty()
    } else {
        joined(parts.drop_last()) + parts.last()
    }
}

/// The names of signed headers are not empty and made of small letters, digits
/// and hyphens alone, and a signature of sixty-four hexadecimal digits alone.
pub proof fn law_names_and_signatures_have_their_shape(s: Seq<char>)
    ensures
        is_signed_name(s) <==> s.len() > 0 && forall|i: int|
            0 <= i < s.len() ==> ('a' <= (#[trigger] s[i]) <= 'z' || '0' <= s[i] <= '9' || s[i]
                == '-'),
        is_signature_text(s) <==> s.len() == 64 && forall|i: int|
            0 <= i < s.len() ==> ('0' <= (#[trigger] s[i]) <= '9' || 'a' <= s[i] <= 'f' || 'A'
                <= s[i] <= 'F'),
{
    if is_signed_name(s) {
        assert forall|i: int| 0 <= i < s.len() implies ('a' <= (#[trigger] s[i]) <= 'z' || '0'
            <= s[i] <= '9' || s[i] == '-') by {
            assert(is_signed_name_char(s[i]));
        }
    }
    if is_signature_text(s) {
        assert forall|i: int| 0 <= i < s.len() implies ('0' <= (#[trigger] s[i]) <= '9' || 'a'
            <= s[i] <= 'f' || 'A' <= s[i] <= 'F') by {
            assert(is_hex_char(s[i]));
        }
    }
}

/// Signed names that are accepted are sorted throughout: each stands before all
/// that come after it, so that none occurs twice.
pub proof fn law_signed_names_are_sorted(names: Seq<Seq<char>>)
    ensures
        is_increasing(names) <==> forall|i: int, j: int|
            0 <= i < j < names.len() ==> text::text_before(#[trigger] names[i], #[trigger] names[j]),
        is_increasing(names) ==> names.no_duplicates(),
{
    if is_increasing(names) {
        assert forall|i: int, j: int| 0 <= i < j < names.len() implies text::text_before(
            #[trigger] names[i],
            #[trigger] names[j],
        ) by {
            lemma_increasing(names, i, j);
        }
        assert forall|i: int, j: int|
            0 <= i < names.len() && 0 <= j < names.len() && i != j implies names[i] != names[j] by {
            text::law_the_first_difference_decides(names[i], names[i], names[i]);
            if i < j {
                assert(text::text_before(names[i], names[j]));
            } else {
                assert(text::text_before(names[j], names[i]));
            }
        }
    } else {
        let i = choose|i: int| 0 <= i < names.len() - 1 && !#[trigger] in_sequence(names, i);
        assert(!text::text_before(names[i], names[i + 1]));
    }
}

proof fn lemma_increasing(names: Seq<Seq<char>>, i: int, j: int)
    requires
        is_increasing(names),
        0 <= i < j < names.len(),
    ensures
        text::text_before(names[i], names[j]),
    decreases j - i,
{
    assert(in_sequence(names, j - 1));
    if i < j - 1 {
        lemma_increasing(names, i, j - 1);
        text::lemma_text_before_transitive(names[i], names[j - 1], names[j]);
    }
}

/// A request is considered exactly where it carries an authorization and a date
/// that names a moment, and where the clock shows a moment within a quarter of an
/// hour of that, before it or after it.
pub proof fn law_requests_are_considered_within_the_window(
    request: SignedRequest,
    now: Option<int>,
)
    ensures
        presented(request, now) is Ok <==> {
            &&& request.header("authorization"@) is Some
            &&& request.header("x-amz-date"@) is Some
            &&& timestamp_of(request.header("x-amz-date"@)->0) is Ok
            &&& now is Some
            &&& now->0 - timestamp_of(request.header("x-amz-date"@)->0)->Ok_0 <= 900
            &&& timestamp_of(request.header("x-amz-date"@)->0)->Ok_0 - now->0 <= 900
        },
        presented(request, now) matches Ok((authorization, date)) ==> request.header(
            "authorization"@,
        ) == Some(authorization) && request.header("x-amz-date"@) == Some(date),
{
}

/// A text names a moment exactly where it is eight digits, a `T`, six digits and a
/// `Z`, the digits name a day of the calendar and a time of the day. The moment is
/// the later, the later the time of the day is, second by second.
pub proof fn law_dates_name_moments(s: Seq<char>)
    ensures
        timestamp_of(s) is Ok <==> {
            &&& s.len() == 16
            &&& s[8] == 'T'
            &&& s[15] == 'Z'
            &&& forall|i: int| 0 <= i < 15 && i != 8 ==> '0' <= (#[trigger] s[i]) <= '9'
            &&& 1 <= two_digits(s, 4) <= 12
            &&& 1 <= two_digits(s, 6) <= calendar::days_in_month(
                100 * two_digits(s, 0) + two_digits(s, 2),
                two_digits(s, 4),
            )
            &&& two_digits(s, 9) < 24
            &&& two_digits(s, 11) < 60
            &&& two_digits(s, 13) < 60
        },
        timestamp_of(s) matches Ok(at) ==> at % 86400 == 3600 * (10 * (s[9] as int - '0' as int) + (
        s[10] as int - '0' as int)) + 60 * (10 * (s[11] as int - '0' as int) + (s[12] as int
            - '0' as int)) + (10 * (s[13] as int - '0' as int) + (s[14] as int - '0' as int)),
{
    if s.len() == 16 && (forall|i: int| 0 <= i < 15 && i != 8 ==> '0' <= (#[trigger] s[i]) <= '9') {
        assert('0' <= s[9] <= '9');
        assert('0' <= s[10] <= '9');
        assert('0' <= s[11] <= '9');
        assert('0' <= s[12] <= '9');
        assert('0' <= s[13] <= '9');
        assert('0' <= s[14] <= '9');
        assert forall|i: int| 0 <= i < 15 && i != 8 implies is_digit(#[trigger] s[i]) by {}
    }
    if is_basic_timestamp(s) {
        assert forall|i: int| 0 <= i < 15 && i != 8 implies '0' <= (#[trigger] s[i]) <= '9' by {
            assert(is_digit(s[i]));
        }
    }
}

/// The last part with a name decides, whatever stands before it and behind it.
/// Where no part has the name there is no value.
pub proof fn law_the_last_value_counts(
    pairs: Seq<(Seq<char>, Seq<char>)>,
    name: Seq<char>,
    at: int,
)
    requires
        -1 <= at < pairs.len(),
        forall|j: int| at < j < pairs.len() ==> (#[trigger] pairs[j]).0 != name,
        at >= 0 ==> pairs[at].0 == name,
    ensures
        at >= 0 ==> last_value(pairs, name) == Some(pairs[at].1),
        at < 0 ==> last_value(pairs, name) is None,
    decreases pairs.len(),
{
    if at < pairs.len() - 1 {
        let front = pairs.drop_last();
        assert(pairs[pairs.len() - 1].0 != name);
        assert forall|j: int| at < j < front.len() implies (#[trigger] front[j]).0 != name by {
            assert(front[j] == pairs[j]);
        }
        if at >= 0 {
            assert(front[at] == pairs[at]);
        }
        law_the_last_value_counts(front, name, at);
    }
}

/// The parts of an authorization are read one by one: what stands in one of them
/// has no bearing on the others. A part is a name and a value around the first
/// equals sign, and one without an equals sign is passed over.
pub proof fn law_authorization_parts_are_read_one_by_one(
    before: Seq<Seq<char>>,
    after: Seq<Seq<char>>,
    part: Seq<char>,
)
    ensures
        authorization_pairs(before + after) == authorization_pairs(before) + authorization_pairs(
            after,
        ),
        !part.contains('=') ==> authorization_pairs(seq![part]).len() == 0,
        part.contains('=') ==> authorization_pairs(seq![part]).len() == 1 && {
            let (name, value) = authorization_pairs(seq![part])[0];
            name.push('=') + value == part && !name.contains('=')
        },
    decreases after.len(),
{
    if after.len() == 0 {
        assert(before + after =~= before);
    } else {
        assert((before + after).drop_last() =~= before + after.drop_last());
        law_authorization_parts_are_read_one_by_one(before, after.drop_last(), part);
    }
    text::law_texts_are_split_at_the_first(part, '=');
    assert(seq![part].drop_last() =~= Seq::<Seq<char>>::empty());
    assert(authorization_pairs(seq![part].drop_last()) =~= Seq::<(Seq<char>, Seq<char>)>::empty());
}

/// An authorization claims a signature exactly where it is of the scheme, its
/// credential is the gateway's key, the day, the region, the service and the kind
/// of request, in that order and nothing else, and it names the signed headers
/// and a signature of the right shape.
pub proof fn law_authorizations_claim_a_signature(
    authorization: Seq<char>,
    date: Seq<char>,
    access_key: Seq<char>,
    region: Seq<char>,
)
    ensures
        ({
            let scheme = "AWS4-HMAC-SHA256 "@;
            let pairs = authorization_pairs(
                text::split_on(authorization.skip(scheme.len() as int), ", "@),
            );
            let claim = claimed(authorization, date, access_key, region);
            &&& (claim is Ok <==> {
                &&& scheme.is_prefix_of(authorization)
                &&& last_value(pairs, "Credential"@) is Some
                &&& text::split_at_char(last_value(pairs, "Credential"@)->0, '/') == seq![
                    access_key,
                    date.take(8),
                    region,
                    "s3"@,
                    "aws4_request"@,
                ]
                &&& last_value(pairs, "SignedHeaders"@) is Some
                &&& last_value(pairs, "Signature"@) is Some
                &&& is_signature_text(last_value(pairs, "Signature"@)->0)
            })
            &&& (claim matches Ok((names, signature)) ==> last_value(pairs, "SignedHeaders"@)
                == Some(names) && last_value(pairs, "Signature"@) == Some(signature))
        }),
{
    let scheme = "AWS4-HMAC-SHA256 "@;
    let pairs = authorization_pairs(
        text::split_on(authorization.skip(scheme.len() as int), ", "@),
    );
    if last_value(pairs, "Credential"@) is Some {
        let parts = text::split_at_char(last_value(pairs, "Credential"@)->0, '/');
        let wanted = seq![access_key, date.take(8), region, "s3"@, "aws4_request"@];
        if names_key(parts, access_key) && has_scope(parts, date.take(8), region) {
            assert(parts =~= wanted);
        }
        if parts == wanted {
            assert(parts[0] == access_key && parts[1] == date.take(8) && parts[2] == region
                && parts[3] == "s3"@ && parts[4] == "aws4_request"@);
        }
    }
    if scheme.is_prefix_of(authorization) {
        assert(authorization.take(scheme.len() as int) =~= scheme);
    }
}

/// A request can be signed over exactly where its signed names are sorted, each
/// has a header, the host and the date are among them, and the digest that it
/// gives of its payload is the right one or left out. What is signed begins with
/// the scheme, the date and the scope, each on a line of its own, and ends with
/// the digest of the request's canonical form.
pub proof fn law_requests_are_signed_over_their_canonical_form(
    request: SignedRequest,
    date: Seq<char>,
    region: Seq<char>,
    names: Seq<char>,
)
    ensures
        ({
            let signed = text::split_at_char(names, ';');
            let result = signed_text(request, date, region, names);
            &&& (result is Ok <==> {
                &&& is_increasing(signed)
                &&& canonical_headers(text::text_pairs(request.headers@), signed) is Ok
                &&& signed.contains("host"@)
                &&& signed.contains("x-amz-date"@)
                &&& (request.header("x-amz-content-sha256"@) matches Some(given) ==> given
                    == request.payload_hash@ || given == "UNSIGNED-PAYLOAD"@)
            })
            &&& (result matches Ok(written) ==> {
                let canonical = text::text_uppercase(request.method@) + "\n"@ + canonical_path(
                    request.path@,
                ) + "\n"@ + canonical_query(request.path@) + "\n"@ + canonical_headers(
                    text::text_pairs(request.headers@),
                    signed,
                )->Ok_0 + "\n"@ + names + "\n"@ + match request.header("x-amz-content-sha256"@) {
                    Some(given) => given,
                    None => request.payload_hash@,
                };
                written == "AWS4-HMAC-SHA256"@ + "\n"@ + date + "\n"@ + (date.take(8) + "/"@
                    + region + "/"@ + "s3"@ + "/"@ + "aws4_request"@) + "\n"@ + text::hex(
                    digest::sha256_digest(vstd::utf8::encode_utf8(canonical)),
                )
            })
        }),
{
    let signed = text::split_at_char(names, ';');
    if signed_text(request, date, region, names) is Ok {
        let lines = canonical_headers(text::text_pairs(request.headers@), signed)->Ok_0;
        let a = text::text_uppercase(request.method@);
        let b = canonical_path(request.path@);
        let c = canonical_query(request.path@);
        let payload = signed_payload(request);
        lemma_join6(a, b, c, lines, names, payload, "\n"@);
        let canonical = canonical_request(request, names, lines);
        lemma_join4(date.take(8), region, "s3"@, "aws4_request"@, "/"@);
        let scope = text::join(seq![date.take(8), region, "s3"@, "aws4_request"@], "/"@);
        let hashed = text::hex(digest::sha256_digest(vstd::utf8::encode_utf8(canonical)));
        lemma_join4("AWS4-HMAC-SHA256"@, date, scope, hashed, "\n"@);
    }
}

proof fn lemma_join4(
    a: Seq<char>,
    b: Seq<char>,
    c: Seq<char>,
    d: Seq<char>,
    separator: Seq<char>,
)
    ensures
        text::join(seq![a, b, c, d], separator) == a + separator + b + separator + c + separator
            + d,
{
    let all = seq![a, b, c, d];
    assert(all.drop_last() =~= seq![a, b, c]);
    assert(seq![a, b, c].drop_last() =~= seq![a, b]);
    assert(seq![a, b].drop_last() =~= seq![a]);
    reveal_with_fuel(text::join, 5);
}

proof fn lemma_join6(
    a: Seq<char>,
    b: Seq<char>,
    c: Seq<char>,
    d: Seq<char>,
    e: Seq<char>,
    f: Seq<char>,
    separator: Seq<char>,
)
    ensures
        text::join(seq![a, b, c, d, e, f], separator) == a + separator + b + separator + c
            + separator + d + separator + e + separator + f,
{
    let all = seq![a, b, c, d, e, f];
    assert(all.drop_last() =~= seq![a, b, c, d, e]);
    assert(seq![a, b, c, d, e].drop_last() =~= seq![a, b, c, d]);
    lemma_join4(a, b, c, d, separator);
    reveal_with_fuel(text::join, 3);
}

/// A gateway without credentials accepts every request, and one with credentials
/// only those that can be considered, that claim a signature, and whose claimed
/// signature is that of the gateway's secret over what they have to be signed
/// over.
pub proof fn law_requests_are_accepted_by_their_signature(
    request: SignedRequest,
    auth: PaddockGatewayAuth,
    now: Option<int>,
)
    ensures
        signature_verdict(request, None, now) is Ok,
        signature_verdict(request, Some(auth), now) is Ok <==> {
            let date = request.header("x-amz-date"@)->0;
            let claim = claimed(
                request.header("authorization"@)->0,
                date,
                auth.access_key@,
                auth.region@,
            );
            let signed = signed_text(request, date, auth.region@, claim->Ok_0.0);
            &&& presented(request, now) is Ok
            &&& claim is Ok
            &&& signed is Ok
            &&& claim->Ok_0.1 == signature_for(auth, date.take(8), signed->Ok_0)
        },
{
}

/// A key is used as one block of the digest: zeros behind it make no difference,
/// and neither does anything else about how it was written.
pub proof fn law_keys_are_filled_up_with_zeros(key: Seq<u8>, count: nat, message: Seq<u8>)
    requires
        key.len() + count <= 64,
    ensures
        hmac(key + Seq::new(count, |i: int| 0u8), message) == hmac(key, message),
        mixed_key(key, 0x36).len() == 64,
        forall|i: int|
            0 <= i < 64 ==> #[trigger] mixed_key(key, 0x36)[i] ^ mixed_key(key, 0x5c)[i] == 0x6a,
{
    let filled = key + Seq::new(count, |i: int| 0u8);
    assert(mixed_key(filled, 0x36) =~= mixed_key(key, 0x36));
    assert(mixed_key(filled, 0x5c) =~= mixed_key(key, 0x5c));
    assert forall|i: int| 0 <= i < 64 implies #[trigger] mixed_key(key, 0x36)[i] ^ mixed_key(
        key,
        0x5c,
    )[i] == 0x6a by {
        let b: u8 = if i < key.len() {
            key[i]
        } else {
            0u8
        };
        assert((b ^ 0x36u8) ^ (b ^ 0x5cu8) == 0x6au8) by (bit_vector);
    }
}

/// Bytes are encoded one by one, without regard to their neighbours.
pub proof fn law_bytes_are_encoded_one_by_one(before: Seq<u8>, after: Seq<u8>)
    ensures
        percent_encoded(before + after) == percent_encoded(before) + percent_encoded(after),
    decreases after.len(),
{
    if after.len() == 0 {
        assert(before + after =~= before);
    } else {
        assert((before + after).drop_last() =~= before + after.drop_last());
        law_bytes_are_encoded_one_by_one(before, after.drop_last());
        assert(percent_encoded(before) + percent_encoded(after) =~= percent_encoded(before)
            + percent_encoded(after.drop_last()) + percent_byte(after.last()));
    }
}

/// An ASCII letter, a digit, a hyphen, an underscore, a full stop and a tilde stand
/// for themselves. Every other byte is a percent sign and its two hexadecimal
/// digits, the first for its sixteens, with capital letters.
pub proof fn law_encoded_bytes_can_be_read_back(byte: u8)
    ensures
        ({
            let shown = percent_encoded(seq![byte]);
            let kept = 97 <= byte <= 122 || 65 <= byte <= 90 || 48 <= byte <= 57 || byte == 45
                || byte == 95 || byte == 46 || byte == 126;
            &&& (kept ==> shown.len() == 1 && shown[0] as u32 == byte as u32)
            &&& (!kept ==> {
                &&& shown.len() == 3
                &&& shown[0] == '%'
                &&& '0' <= shown[1] <= '9' || 'A' <= shown[1] <= 'F'
                &&& '0' <= shown[2] <= '9' || 'A' <= shown[2] <= 'F'
                &&& 16 * capital_hex_value(shown[1]) + capital_hex_value(shown[2]) == byte
            })
        }),
{
    assert(seq![byte].drop_last() =~= Seq::<u8>::empty());
    assert(percent_encoded(Seq::<u8>::empty()) =~= Seq::<char>::empty());
    assert(percent_encoded(seq![byte]) =~= percent_byte(byte));
}

/// The number that a capital hexadecimal digit stands for.
pub open spec fn capital_hex_value(c: char) -> int {
    if '0' <= c <= '9' {
        c as int - '0' as int
    } else {
        c as int - 'A' as int + 10
    }
}

/// Whether a character stands for itself in a canonical path or query.
pub open spec fn is_plain_char(c: char) -> bool {
    'a' <= c <= 'z' || 'A' <= c <= 'Z' || '0' <= c <= '9' || c == '-' || c == '_' || c == '.' || c
        == '~'
}

proof fn lemma_encoded_chars(bytes: Seq<u8>, i: int)
    requires
        0 <= i < percent_encoded(bytes).len(),
    ensures
        is_plain_char(percent_encoded(bytes)[i]) || percent_encoded(bytes)[i] == '%',
    decreases bytes.len(),
{
    if bytes.len() > 0 {
        let before = percent_encoded(bytes.drop_last());
        if i < before.len() {
            lemma_encoded_chars(bytes.drop_last(), i);
        } else {
            assert(percent_encoded(bytes)[i] == percent_byte(bytes.last())[i - before.len()]);
        }
    }
}

proof fn lemma_encoded_length(bytes: Seq<u8>)
    ensures
        percent_encoded(bytes).len() >= bytes.len(),
    decreases bytes.len(),
{
    if bytes.len() > 0 {
        lemma_encoded_length(bytes.drop_last());
    }
}

proof fn lemma_plain_bytes(bytes: Seq<u8>)
    requires
        forall|i: int| 0 <= i < bytes.len() ==> is_unreserved(#[trigger] bytes[i]),
    ensures
        percent_encoded(bytes) == Seq::new(bytes.len(), |i: int| bytes[i] as char),
    decreases bytes.len(),
{
    if bytes.len() > 0 {
        let front = bytes.drop_last();
        assert forall|i: int| 0 <= i < front.len() implies is_unreserved(#[trigger] front[i]) by {
            assert(front[i] == bytes[i]);
        }
        lemma_plain_bytes(front);
        assert(is_unreserved(bytes[bytes.len() - 1]));
        assert(percent_encoded(bytes) =~= Seq::new(bytes.len(), |i: int| bytes[i] as char));
    } else {
        assert(percent_encoded(bytes) =~= Seq::new(bytes.len(), |i: int| bytes[i] as char));
    }
}

/// A text of letters, digits, hyphens, underscores, full stops and tildes is
/// encoded as itself. Whatever the text, what comes out is made of these and
/// percent signs, and nothing comes out of nothing alone.
pub proof fn law_plain_texts_are_encoded_as_they_are(s: Seq<char>)
    ensures
        (forall|i: int| 0 <= i < s.len() ==> is_plain_char(#[trigger] s[i])) ==> encoded_text(s)
            == s,
        forall|i: int|
            0 <= i < encoded_text(s).len() ==> is_plain_char(#[trigger] encoded_text(s)[i])
                || encoded_text(s)[i] == '%',
        encoded_text(s).len() == 0 <==> s.len() == 0,
{
    let bytes = vstd::utf8::encode_utf8(s);
    assert forall|i: int| 0 <= i < encoded_text(s).len() implies is_plain_char(
        #[trigger] encoded_text(s)[i],
    ) || encoded_text(s)[i] == '%' by {
        lemma_encoded_chars(bytes, i);
    }
    lemma_encoded_length(bytes);
    if s.len() > 0 {
        vstd::utf8::encode_utf8_first_scalar(s);
        lemma_bytes_injective(s, Seq::<char>::empty());
        if bytes.len() == 0 {
            assert(bytes =~= vstd::utf8::encode_utf8(Seq::<char>::empty()));
            assert(s == Seq::<char>::empty());
        }
    }
    if forall|i: int| 0 <= i < s.len() ==> is_plain_char(#[trigger] s[i]) {
        assert(vstd::utf8::is_ascii_chars(s)) by {
            assert forall|i: int| 0 <= i < s.len() implies '\0' <= #[trigger] s[i] <= '\u{7f}' by {
                assert(is_plain_char(s[i]));
            }
        }
        vstd::utf8::is_ascii_chars_encode_utf8(s);
        assert forall|i: int| 0 <= i < bytes.len() implies is_unreserved(#[trigger] bytes[i]) by {
            assert(is_plain_char(s[i]));
            assert(bytes[i] == s[i] as u8);
        }
        lemma_plain_bytes(bytes);
        assert forall|i: int| 0 <= i < s.len() implies s[i] == #[trigger] encoded_text(s)[i] by {
            assert(is_plain_char(s[i]));
            assert(bytes[i] == s[i] as u8);
        }
        assert(encoded_text(s) =~= s);
    }
}

proof fn lemma_encoded_lacks(s: Seq<char>, c: char)
    requires
        !is_plain_char(c),
        c != '%',
    ensures
        !encoded_text(s).contains(c),
{
    law_plain_texts_are_encoded_as_they_are(s);
    let shown = encoded_text(s);
    if shown.contains(c) {
        let i = choose|i: int| 0 <= i < shown.len() && shown[i] == c;
        assert(is_plain_char(shown[i]) || shown[i] == '%');
    }
}

/// The query has no bearing on the canonical path, and the path none on the
/// canonical query: the first question mark parts them, and without one there is
/// no query.
pub proof fn law_paths_and_queries_are_apart(path: Seq<char>, query: Seq<char>)
    requires
        !path.contains('?'),
    ensures
        canonical_path(path.push('?') + query) == canonical_path(path),
        canonical_query(path.push('?') + query) == canonical_query(seq!['?'] + query),
        canonical_query(path).len() == 0,
{
    lemma_first_part(path, query);
    lemma_first_part(Seq::<char>::empty(), query);
    assert(Seq::<char>::empty().push('?') + query =~= seq!['?'] + query);
    text::law_texts_are_split_at_the_first(path, '?');
    let nothing = Seq::<char>::empty();
    text::law_splitting_cuts_at_the_separator(nothing, nothing, '&');
    assert(target_parts(path).1 =~= nothing);
    let full = |part: Seq<char>| part.len() > 0;
    text::lemma_filter_push(Seq::<Seq<char>>::empty(), nothing, full);
    reveal(Seq::filter);
    assert(Seq::<Seq<char>>::empty().push(nothing) =~= seq![nothing]);
    assert(Seq::<Seq<char>>::empty().filter(full) =~= Seq::<Seq<char>>::empty());
    assert(query_pairs(nothing) =~= Seq::<(Seq<char>, Seq<char>)>::empty());
    assert(pair_texts(order::in_order(query_pairs(nothing), pair_order())) =~= Seq::<
        Seq<char>,
    >::empty());
}

proof fn lemma_first_part(path: Seq<char>, query: Seq<char>)
    requires
        !path.contains('?'),
    ensures
        target_parts(path.push('?') + query) == (path, query),
        target_parts(path) == (path, Seq::<char>::empty()),
{
    text::law_split_parts_come_back(path, '?', query);
    text::law_texts_are_split_at_the_first(path, '?');
}

/// A canonical path has the segments of the path, in their order, each encoded by
/// itself, with a slash between neighbours. A path of plain characters and slashes
/// is its own canonical path, and an empty path is a slash.
pub proof fn law_canonical_paths_keep_their_segments(path: Seq<char>)
    requires
        !path.contains('?'),
    ensures
        path.len() > 0 ==> text::split_at_char(canonical_path(path), '/') == encoded_texts(
            text::split_at_char(path, '/'),
        ),
        path.len() == 0 ==> canonical_path(path) == seq!['/'],
        path.len() > 0 && (forall|i: int|
            0 <= i < path.len() ==> is_plain_char(#[trigger] path[i]) || path[i] == '/')
            ==> canonical_path(path) == path,
{
    reveal_strlit("/");
    assert("/"@ =~= seq!['/']);
    lemma_first_part(path, path);
    let pieces = text::split_at_char(path, '/');
    let shown = encoded_texts(pieces);
    let whole = text::join(shown, seq!['/']);
    text::lemma_split_nonempty(path, text::is_char('/'));
    text::law_splitting_cuts_at_the_separator(path, path, '/');
    assert forall|k: int| 0 <= k < shown.len() implies !(#[trigger] shown[k]).contains('/') by {
        assert(shown[k] == encoded_text(pieces[k]));
        lemma_encoded_lacks(pieces[k], '/');
    }
    text::law_joined_texts_come_apart(shown, '/');
    if path.len() == 0 {
        assert(path =~= Seq::<char>::empty());
        assert(pieces =~= seq![path]);
        law_plain_texts_are_encoded_as_they_are(path);
        assert(shown =~= seq![encoded_text(path)]);
    } else {
        if whole.len() == 0 {
            if pieces.len() == 1 {
                assert(pieces[0] == path);
                law_plain_texts_are_encoded_as_they_are(path);
                assert(shown[0].len() > 0);
            }
            assert(false);
        }
        if forall|i: int|
            0 <= i < path.len() ==> is_plain_char(#[trigger] path[i]) || path[i] == '/' {
            assert forall|k: int| 0 <= k < pieces.len() implies #[trigger] shown[k] == pieces[k] by {
                assert forall|i: int| 0 <= i < pieces[k].len() implies is_plain_char(
                    #[trigger] pieces[k][i],
                ) by {
                    text::lemma_pieces_come_from_the_text(path, '/', k, i);
                    let at = choose|at: int| 0 <= at < path.len() && path[at] == pieces[k][i];
                    assert(is_plain_char(path[at]) || path[at] == '/');
                }
                law_plain_texts_are_encoded_as_they_are(pieces[k]);
            }
            assert(shown =~= pieces);
        }
    }
}

/// A parameter is a key and a value around its first equals sign, each encoded by
/// itself; one without an equals sign is a key with an empty value.
pub proof fn law_parameters_are_keys_and_values(key: Seq<char>, value: Seq<char>)
    requires
        !key.contains('='),
    ensures
        query_pair(key.push('=') + value) == (encoded_text(key), encoded_text(value)),
        query_pair(key) == (encoded_text(key), Seq::<char>::empty()),
{
    text::law_split_parts_come_back(key, '=', value);
    text::law_texts_are_split_at_the_first(key, '=');
    law_plain_texts_are_encoded_as_they_are(Seq::<char>::empty());
    assert(encoded_text(Seq::<char>::empty()) =~= Seq::<char>::empty());
}

/// Each piece of a query that is not empty is a parameter, and an empty one is
/// none; no piece has a bearing on another.
pub proof fn law_pieces_are_parameters(before: Seq<Seq<char>>, piece: Seq<char>)
    ensures
        piece.len() > 0 ==> piece_pairs(before.push(piece)) == piece_pairs(before).push(
            query_pair(piece),
        ),
        piece.len() == 0 ==> piece_pairs(before.push(piece)) == piece_pairs(before),
        piece_pairs(Seq::<Seq<char>>::empty()).len() == 0,
{
    let full = |part: Seq<char>| part.len() > 0;
    text::lemma_filter_push(before, piece, full);
    reveal(Seq::filter);
    if piece.len() > 0 {
        assert(piece_pairs(before.push(piece)) =~= piece_pairs(before).push(query_pair(piece)));
    }
}

/// The parameters of a canonical query come by their keys and, where those are the
/// same, by their values, from the lower code to the higher, and the query holds
/// each parameter as often as it was given.
pub proof fn law_canonical_queries_are_sorted(target: Seq<char>)
    ensures
        ({
            let given = query_pairs(target_parts(target).1);
            let sorted = order::in_order(given, pair_order());
            &&& sorted.to_multiset() == given.to_multiset()
            &&& forall|i: int, j: int|
                0 <= i < j < sorted.len() ==> (#[trigger] sorted[i]) == (#[trigger] sorted[j])
                    || text::text_before(sorted[i].0, sorted[j].0) || (sorted[i].0 == sorted[j].0
                    && text::text_before(sorted[i].1, sorted[j].1))
            &&& (given.len() > 0 ==> text::split_at_char(canonical_query(target), '&')
                == Seq::new(sorted.len(), |i: int| sorted[i].0.push('=') + sorted[i].1))
            &&& (given.len() == 0 ==> canonical_query(target).len() == 0)
        }),
{
    reveal_strlit("&");
    reveal_strlit("=");
    assert("&"@ =~= seq!['&']);
    let query = target_parts(target).1;
    let given = query_pairs(query);
    let sorted = order::in_order(given, pair_order());
    lemma_pair_order();
    order::lemma_in_order(given, pair_order());
    assert forall|i: int, j: int| 0 <= i < j < sorted.len() implies (#[trigger] sorted[i]) == (
    #[trigger] sorted[j]) || text::text_before(sorted[i].0, sorted[j].0) || (sorted[i].0
        == sorted[j].0 && text::text_before(sorted[i].1, sorted[j].1)) by {
        assert(!pair_order()(sorted[j], sorted[i]));
        assert(sorted[i] == sorted[j] || pair_before(sorted[i], sorted[j]) || pair_before(
            sorted[j],
            sorted[i],
        ));
    }
    let texts = pair_texts(sorted);
    let shown = Seq::new(sorted.len(), |i: int| sorted[i].0.push('=') + sorted[i].1);
    assert forall|i: int| 0 <= i < sorted.len() implies texts[i] == #[trigger] shown[i] by {
        assert(texts[i] =~= shown[i]);
    }
    assert(texts =~= shown);
    if given.len() > 0 {
        assert forall|k: int| 0 <= k < shown.len() implies !(#[trigger] shown[k]).contains('&') by {
            broadcast use vstd::seq_lib::group_to_multiset_ensures;

            assert(sorted.to_multiset().contains(sorted[k]));
            assert(given.to_multiset().count(sorted[k]) > 0);
            assert(given.contains(sorted[k]));
            let pieces = text::split_at_char(query, '&');
            let kept = pieces.filter(|part: Seq<char>| part.len() > 0);
            let at = choose|at: int| 0 <= at < given.len() && given[at] == sorted[k];
            assert(given[at] == query_pair(kept[at]));
            lemma_parameter_lacks(kept[at]);
            let (key, value) = sorted[k];
            if shown[k].contains('&') {
                let i = choose|i: int| 0 <= i < shown[k].len() && shown[k][i] == '&';
                if i < key.len() {
                    assert(key[i] == '&');
                } else {
                    assert(value[i - key.len() - 1] == '&');
                }
            }
        }
        text::law_joined_texts_come_apart(shown, '&');
    }
}

proof fn lemma_parameter_lacks(part: Seq<char>)
    ensures
        !query_pair(part).0.contains('&'),
        !query_pair(part).1.contains('&'),
{
    match text::split_first(part, '=') {
        Some((key, value)) => {
            lemma_encoded_lacks(key, '&');
            lemma_encoded_lacks(value, '&');
        },
        None => {
            lemma_encoded_lacks(part, '&');
            lemma_encoded_lacks(Seq::<char>::empty(), '&');
        },
    }
}

/// The keyed digest of a message is the digest of the key, mixed one way, before the
/// digest of the key, mixed another way, before the message.
pub proof fn law_messages_are_digested_with_their_key(key: Seq<u8>, message: Seq<u8>)
    requires
        key.len() == 64,
    ensures
        hmac(key, message) == digest::sha256_digest(
            Seq::new(64, |i: int| key[i] ^ 0x5c) + digest::sha256_digest(
                Seq::new(64, |i: int| key[i] ^ 0x36) + message,
            ),
        ),
{
    assert(mixed_key(key, 0x5c) =~= Seq::new(64, |i: int| key[i] ^ 0x5c));
    assert(mixed_key(key, 0x36) =~= Seq::new(64, |i: int| key[i] ^ 0x36));
}

/// A signature is that of a key which is made out of the secret, the day, the
/// region, the service and the kind of request, one after the other, each with what
/// came before it. It is written with two digits for each byte.
pub proof fn law_signatures_are_made_step_by_step(
    auth: PaddockGatewayAuth,
    day: Seq<char>,
    signed: Seq<char>,
    date_key: Seq<u8>,
    region_key: Seq<u8>,
    service_key: Seq<u8>,
    key: Seq<u8>,
)
    requires
        date_key == hmac(
            vstd::utf8::encode_utf8("AWS4"@ + auth.secret_key@),
            vstd::utf8::encode_utf8(day),
        ),
        region_key == hmac(date_key, vstd::utf8::encode_utf8(auth.region@)),
        service_key == hmac(region_key, vstd::utf8::encode_utf8("s3"@)),
        key == hmac(service_key, vstd::utf8::encode_utf8("aws4_request"@)),
    ensures
        signature_for(auth, day, signed) == text::hex(
            hmac(key, vstd::utf8::encode_utf8(signed)),
        ),
{
}

/// Two signatures are the same exactly where every character of them is, and a
/// request is accepted exactly as that comes out, whichever way it is asked.
pub proof fn law_requests_are_verified(
    request: SignedRequest,
    auth: PaddockGatewayAuth,
    now: i64,
    verdict: Result<(), String>,
    unguarded: Result<(), String>,
    left: &str,
    right: &str,
    equal: bool,
)
    requires
        call_ensures(verify_signature_at, (&request, &Some(auth), Some(now)), verdict),
        call_ensures(verify_signature_at, (&request, &None, Some(now)), unguarded),
        call_ensures(constant_time_hex_eq, (left, right), equal),
    ensures
        equal <==> left@ == right@,
        unguarded is Ok,
        verdict is Ok <==> {
            let date = request.header("x-amz-date"@)->0;
            let claim = claimed(
                request.header("authorization"@)->0,
                date,
                auth.access_key@,
                auth.region@,
            );
            let signed = signed_text(request, date, auth.region@, claim->Ok_0.0);
            &&& request.header("authorization"@) is Some
            &&& request.header("x-amz-date"@) is Some
            &&& timestamp_of(date) is Ok
            &&& now - timestamp_of(date)->Ok_0 <= 900
            &&& timestamp_of(date)->Ok_0 - now <= 900
            &&& claim is Ok
            &&& signed is Ok
            &&& claim->Ok_0.1 == signature_for(auth, date.take(8), signed->Ok_0)
        },
{
    law_requests_are_considered_within_the_window(request, Some(now as int));
    law_requests_are_accepted_by_their_signature(request, auth, Some(now as int));
}

/// A request that is not considered is told the first thing that is wrong with it:
/// its authorization, its date, the clock, or how far the two are apart.
pub proof fn law_unconsidered_requests_are_told_why(request: SignedRequest, now: Option<int>)
    requires
        presented(request, now) is Err,
    ensures
        ({
            let told = presented(request, now)->Err_0;
            let authorized = request.header("authorization"@) is Some;
            let date = request.header("x-amz-date"@);
            &&& (!authorized ==> told == "SigV4 Authorization header is required"@)
            &&& (authorized && date is None ==> told == "x-amz-date header is required"@)
            &&& (authorized && date is Some ==> {
                let moment = timestamp_of(date->0);
                &&& (moment matches Err(problem) ==> told == problem)
                &&& (moment is Ok && now is None ==> told
                    == "system clock is before the Unix epoch"@)
                &&& (moment is Ok && now is Some ==> told
                    == "request timestamp is outside the 15 minute SigV4 window"@)
            })
        }),
{
}

/// A date that names no moment is told what is wrong with it: its shape, its month,
/// its day or its time.
pub proof fn law_bad_dates_are_told(s: Seq<char>)
    requires
        timestamp_of(s) is Err,
    ensures
        ({
            let told = timestamp_of(s)->Err_0;
            let month = two_digits(s, 4);
            &&& (!is_basic_timestamp(s) ==> told == "x-amz-date must use YYYYMMDDTHHMMSSZ"@)
            &&& (is_basic_timestamp(s) && (month < 1 || month > 12) ==> told
                == "x-amz-date contains an invalid month"@)
            &&& (is_basic_timestamp(s) && 1 <= month <= 12 && !(1 <= two_digits(s, 6)
                <= calendar::days_in_month(100 * two_digits(s, 0) + two_digits(s, 2), month))
                ==> told == "x-amz-date contains an invalid day"@)
            &&& (is_basic_timestamp(s) && 1 <= month <= 12 && 1 <= two_digits(s, 6)
                <= calendar::days_in_month(100 * two_digits(s, 0) + two_digits(s, 2), month)
                ==> told == "x-amz-date contains an invalid time"@)
        }),
{
}

/// An authorization that claims no signature is told the first thing that is wrong
/// with it: its scheme, its credential, the credential's scope, the signed headers or
/// the signature.
pub proof fn law_refused_authorizations_are_told_why(
    authorization: Seq<char>,
    date: Seq<char>,
    access_key: Seq<char>,
    region: Seq<char>,
)
    requires
        claimed(authorization, date, access_key, region) is Err,
    ensures
        ({
            let told = claimed(authorization, date, access_key, region)->Err_0;
            let scheme = "AWS4-HMAC-SHA256 "@;
            let pairs = authorization_pairs(
                text::split_on(authorization.skip(scheme.len() as int), ", "@),
            );
            let credential = last_value(pairs, "Credential"@);
            let parts = text::split_at_char(credential->0, '/');
            let known = parts.len() == 5 && parts[0] == access_key;
            let scoped = parts[1] == date.take(8) && parts[2] == region && parts[3] == "s3"@
                && parts[4] == "aws4_request"@;
            if !scheme.is_prefix_of(authorization) {
                told == "unsupported authorization scheme"@
            } else if credential is None {
                told == "SigV4 Credential is missing"@
            } else if !known {
                told == "invalid SigV4 credential"@
            } else if !scoped {
                told == "invalid SigV4 credential scope"@
            } else if last_value(pairs, "SignedHeaders"@) is None {
                told == "SigV4 SignedHeaders is missing"@
            } else if last_value(pairs, "Signature"@) is None {
                told == "SigV4 Signature is missing"@
            } else {
                told == "invalid SigV4 signature"@
            }
        }),
{
    let scheme = "AWS4-HMAC-SHA256 "@;
    if scheme.is_prefix_of(authorization) {
        assert(authorization.take(scheme.len() as int) =~= scheme);
    }
}

/// A request that cannot be signed over is told the first thing that is wrong: the
/// order of the signed names, one of them, that the host or the date is not among
/// them, or the digest of the payload.
pub proof fn law_unsigned_requests_are_told_why(
    request: SignedRequest,
    date: Seq<char>,
    region: Seq<char>,
    names: Seq<char>,
)
    requires
        signed_text(request, date, region, names) is Err,
    ensures
        ({
            let told = signed_text(request, date, region, names)->Err_0;
            let signed = text::split_at_char(names, ';');
            let lines = canonical_headers(text::text_pairs(request.headers@), signed);
            if !is_increasing(signed) {
                told == "SigV4 SignedHeaders must be sorted"@
            } else if lines is Err {
                told == lines->Err_0
            } else if !signed.contains("host"@) || !signed.contains("x-amz-date"@) {
                told == "host and x-amz-date must be signed"@
            } else {
                told == "x-amz-content-sha256 does not match the request body"@
            }
        }),
{
}

/// The first signed name that is none, or that names no header, is the one that is
/// told.
pub proof fn law_the_first_bad_name_is_told(
    headers: Seq<(Seq<char>, Seq<char>)>,
    names: Seq<Seq<char>>,
    at: int,
)
    requires
        0 <= at < names.len(),
        !is_signed_name(names[at]) || header_of(headers, names[at]) is None,
        forall|i: int|
            0 <= i < at ==> is_signed_name(#[trigger] names[i]) && header_of(
                headers,
                names[i],
            ) is Some,
    ensures
        canonical_headers(headers, names) == Err::<Seq<char>, Seq<char>>(
            if !is_signed_name(names[at]) {
                "invalid signed header name"@
            } else {
                "signed header is missing: "@ + names[at]
            },
        ),
{
    let before = names.take(at);
    assert forall|i: int| 0 <= i < before.len() implies is_signed_name(#[trigger] before[i])
        && header_of(headers, before[i]) is Some by {
        assert(before[i] == names[i]);
    }
    law_every_signed_name_has_its_line(headers, before);
    assert(names.take(at + 1).drop_last() =~= before);
    assert(names.take(at + 1).last() == names[at]);
    lemma_canonical_headers_fail(headers, names, at + 1);
}

} // verus!
