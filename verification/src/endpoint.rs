//! Where the host listens: `tcp://<address>?token=<token>`.

use crate::text;
use crate::text::{chars_of, find, find_from, matches_at, string_of};
use vstd::prelude::*;

verus! {

/// The address of the host, and the token that both sides put into every message.
#[derive(Debug, Clone)]
pub struct BridgeEndpoint {
    pub addr: String,
    pub token: String,
}

/// An endpoint as two texts.
pub struct EndpointView {
    pub addr: Seq<char>,
    pub token: Seq<char>,
}

impl View for BridgeEndpoint {
    type V = EndpointView;

    open spec fn view(&self) -> EndpointView {
        EndpointView { addr: self.addr@, token: self.token@ }
    }
}

impl BridgeEndpoint {
    /// An endpoint with both parts present; `None` where either is empty. Without a
    /// token the peer cannot be told from a stranger.
    pub fn new(addr: String, token: String) -> (endpoint: Option<BridgeEndpoint>)
        ensures
            match endpoint {
                Some(e) => {
                    &&& addr@.len() > 0
                    &&& token@.len() > 0
                    &&& e@ == (EndpointView { addr: addr@, token: token@ })
                },
                None => addr@.len() == 0 || token@.len() == 0,
            },
    {
        if addr.as_str().is_empty() || token.as_str().is_empty() {
            None
        } else {
            Some(BridgeEndpoint { addr, token })
        }
    }
}

/// What `String::from_utf8_lossy` makes of bytes that begin like a character and then break
/// off.
pub uninterp spec fn utf8_with_replacements(bytes: Seq<u8>) -> Seq<char>;

/// No character begins with this byte.
pub open spec fn begins_nothing(b: u8) -> bool {
    0x80 <= b <= 0xc1 || 0xf5 <= b
}

/// The text of `bytes`: their characters, and a replacement character for each byte that
/// begins none. What begins like a character and then breaks off is left to
/// `String::from_utf8_lossy`, with all that follows.
pub open spec fn lossy_text(bytes: Seq<u8>) -> Seq<char>
    decreases bytes.len(),
{
    if bytes.len() == 0 {
        Seq::empty()
    } else if vstd::utf8::valid_first_scalar(bytes) {
        seq![vstd::utf8::decode_first_scalar(bytes) as char] + lossy_text(
            vstd::utf8::pop_first_scalar(bytes),
        )
    } else if begins_nothing(bytes[0]) {
        seq!['\u{fffd}'] + lossy_text(bytes.skip(1))
    } else {
        utf8_with_replacements(bytes)
    }
}

/// `String::from_utf8_lossy`: characters are kept, a byte that begins no character becomes
/// the replacement character, and what follows either is converted as it would be on its
/// own. No byte goes without a trace: the text is empty only where there are no bytes. Of
/// bytes that begin like a character and then break off only this is claimed, that the
/// result depends on them alone; how many of them one replacement character stands for is
/// left unsaid.
#[verifier::external_body]
fn from_utf8_lossy(bytes: &[u8]) -> (s: String)
    ensures
        s@ == lossy_text(bytes@),
        bytes@.len() > 0 && !vstd::utf8::valid_first_scalar(bytes@) && !begins_nothing(bytes@[0])
            ==> s@ == utf8_with_replacements(bytes@),
        bytes@.len() > 0 ==> s@.len() > 0,
{
    String::from_utf8_lossy(bytes).into_owned()
}

/// The value of one hexadecimal digit, upper or lower case.
pub open spec fn hex_value(b: u8) -> Option<int> {
    if 0x30 <= b <= 0x39 {
        Some(b - 0x30)
    } else if 0x41 <= b <= 0x46 {
        Some(b - 0x41 + 10)
    } else if 0x61 <= b <= 0x66 {
        Some(b - 0x61 + 10)
    } else {
        None
    }
}

/// The byte that two hexadecimal digits behind a percent sign stand for.
pub open spec fn hex_pair(high: u8, low: u8) -> Option<int> {
    match (hex_value(high), hex_value(low)) {
        (Some(h), Some(l)) => Some(16 * h + l),
        _ => None,
    }
}

/// `bytes` with percent escapes resolved and plus signs read as blanks. A percent sign
/// that begins no escape stands for itself.
pub open spec fn percent_bytes(bytes: Seq<u8>) -> Seq<u8>
    decreases bytes.len(),
{
    if bytes.len() == 0 {
        Seq::empty()
    } else if bytes[0] == 0x25 && bytes.len() > 2 && hex_pair(bytes[1], bytes[2]) is Some {
        seq![hex_pair(bytes[1], bytes[2])->0 as u8] + percent_bytes(bytes.skip(3))
    } else if bytes[0] == 0x2b {
        seq![0x20u8] + percent_bytes(bytes.skip(1))
    } else {
        seq![bytes[0]] + percent_bytes(bytes.skip(1))
    }
}

/// The text that the percent-encoded `value` stands for.
pub open spec fn percent_decoded(value: Seq<char>) -> Seq<char> {
    lossy_text(percent_bytes(vstd::utf8::encode_utf8(value)))
}

/// `s` up to the first `sep`, all of it if there is none.
pub open spec fn before(s: Seq<char>, sep: char) -> Seq<char> {
    match text::first_occurrence(s, seq![sep]) {
        Some(i) => s.take(i),
        None => s,
    }
}

/// `s` behind the first `sep`, nothing if there is none.
pub open spec fn after(s: Seq<char>, sep: char) -> Seq<char> {
    match text::first_occurrence(s, seq![sep]) {
        Some(i) => s.skip(i + 1),
        None => Seq::empty(),
    }
}

/// The pieces of `s` between the `sep`s: one more than there are of them.
pub open spec fn split(s: Seq<char>, sep: char) -> Seq<Seq<char>>
    decreases s.len(),
{
    proof {
        text::lemma_first_occurrence_is_first(s, seq![sep]);
    }
    match text::first_occurrence(s, seq![sep]) {
        Some(i) => seq![s.take(i)] + split(s.skip(i + 1), sep),
        None => seq![s],
    }
}

/// The value of the last pair that begins with `token=`.
pub open spec fn last_token(pairs: Seq<Seq<char>>) -> Option<Seq<char>>
    decreases pairs.len(),
{
    if pairs.len() == 0 {
        None
    } else if text::occurs_at(pairs.last(), "token="@, 0) {
        Some(pairs.last().skip("token="@.len() as int))
    } else {
        last_token(pairs.drop_last())
    }
}

/// The value of the last token among `pairs`; empty if there is none.
pub open spec fn last_value(pairs: Seq<Seq<char>>) -> Seq<char> {
    match last_token(pairs) {
        Some(value) => value,
        None => Seq::empty(),
    }
}

/// The token in a query as it is written there: the last one given, empty if there is none.
pub open spec fn token_of(query: Seq<char>) -> Seq<char> {
    last_value(split(query, '&'))
}

/// The endpoint that `raw` names: both an address and a token must be there.
pub open spec fn endpoint_of(raw: Seq<char>) -> Option<EndpointView> {
    let rest = raw.skip("tcp://"@.len() as int);
    let addr = before(rest, '?');
    let token = token_of(after(rest, '?'));
    if text::occurs_at(raw, "tcp://"@, 0) && addr.len() > 0 && token.len() > 0 {
        Some(EndpointView { addr, token: percent_decoded(token) })
    } else {
        None
    }
}

/// The value of one hexadecimal digit.
fn hex_digit_value(b: u8) -> (value: Option<u8>)
    ensures
        match value {
            Some(v) => v < 16 && hex_value(b) == Some(v as int),
            None => hex_value(b) is None,
        },
{
    if 0x30 <= b && b <= 0x39 {
        Some(b - 0x30)
    } else if 0x41 <= b && b <= 0x46 {
        Some(b - 0x41 + 10)
    } else if 0x61 <= b && b <= 0x66 {
        Some(b - 0x61 + 10)
    } else {
        None
    }
}

/// The byte that two hexadecimal digits behind a percent sign stand for.
fn hex_byte(high: u8, low: u8) -> (value: Option<u8>)
    ensures
        match value {
            Some(v) => hex_pair(high, low) == Some(v as int),
            None => hex_pair(high, low) is None,
        },
{
    match (hex_digit_value(high), hex_digit_value(low)) {
        (Some(h), Some(l)) => Some(16 * h + l),
        _ => None,
    }
}

/// Resolves the percent escapes and plus signs of `bytes`.
pub fn unescape_percent(bytes: &[u8]) -> (out: Vec<u8>)
    ensures
        out@ == percent_bytes(bytes@),
{
    let mut out: Vec<u8> = Vec::new();
    let len: usize = bytes.len();
    let mut i: usize = 0;
    proof {
        assert(bytes@.skip(0) =~= bytes@);
        assert(out@ + percent_bytes(bytes@) =~= percent_bytes(bytes@));
    }
    while i < len
        invariant
            i <= len == bytes@.len(),
            percent_bytes(bytes@) == out@ + percent_bytes(bytes@.skip(i as int)),
        decreases len - i,
    {
        let b: u8 = bytes[i];
        let ghost rest = bytes@.skip(i as int);
        let ghost done = out@;
        assert(rest[0] == b);
        assert(rest.skip(1) =~= bytes@.skip(i + 1));
        let pair: Option<u8> = if b == 0x25 && len - i > 2 {
            assert(rest[1] == bytes@[i + 1] && rest[2] == bytes@[i + 2]);
            assert(rest.skip(3) =~= bytes@.skip(i + 3));
            hex_byte(bytes[i + 1], bytes[i + 2])
        } else {
            None
        };
        if let Some(byte) = pair {
            out.push(byte);
            assert(done + (seq![byte] + percent_bytes(rest.skip(3))) =~= out@ + percent_bytes(
                rest.skip(3),
            ));
            i = i + 3;
        } else if b == 0x2b {
            out.push(0x20);
            assert(done + (seq![0x20u8] + percent_bytes(rest.skip(1))) =~= out@ + percent_bytes(
                rest.skip(1),
            ));
            i = i + 1;
        } else {
            out.push(b);
            assert(done + (seq![b] + percent_bytes(rest.skip(1))) =~= out@ + percent_bytes(
                rest.skip(1),
            ));
            i = i + 1;
        }
    }
    assert(bytes@.skip(i as int) =~= Seq::<u8>::empty());
    assert(out@ + Seq::<u8>::empty() =~= out@);
    out
}

/// Decodes `%XX` and `+`, and nothing else.
pub fn percent_decode(value: &str) -> (decoded: String)
    ensures
        decoded@ == percent_decoded(value@),
        decoded@.len() == 0 <==> value@.len() == 0,
{
    proof {
        lemma_nothing_vanishes(value@);
    }
    let bytes = unescape_percent(value.as_bytes());
    from_utf8_lossy(bytes.as_slice())
}

/// Resolving escapes leaves at least one byte, if there were any.
proof fn lemma_nothing_vanishes(value: Seq<char>)
    ensures
        percent_bytes(vstd::utf8::encode_utf8(value)).len() == 0 <==> value.len() == 0,
        value.len() == 0 ==> percent_decoded(value).len() == 0,
{
    if value.len() > 0 {
        vstd::utf8::encode_utf8_first_scalar(value);
    }
}

/// A single character stands at `i` exactly if it is the character at `i`.
proof fn lemma_char_at(s: Seq<char>, c: char, i: int)
    ensures
        text::occurs_at(s, seq![c], i) <==> 0 <= i < s.len() && s[i] == c,
{
    if text::occurs_at(s, seq![c], i) {
        assert(s[i + 0] == seq![c][0]);
    }
}

/// Splitting what is left behind a position at its first separator.
proof fn lemma_split_step(s: Seq<char>, sep: char, from: int, found: Option<int>)
    requires
        0 <= from <= s.len(),
        match found {
            Some(i) => {
                &&& from <= i
                &&& text::occurs_at(s, seq![sep], i)
                &&& forall|j: int| from <= j < i ==> !#[trigger] text::occurs_at(s, seq![sep], j)
            },
            None => forall|j: int| from <= j ==> !#[trigger] text::occurs_at(s, seq![sep], j),
        },
    ensures
        match found {
            Some(i) => {
                &&& i < s.len()
                &&& split(s.skip(from), sep) == seq![s.subrange(from, i)] + split(
                    s.skip(i + 1),
                    sep,
                )
            },
            None => split(s.skip(from), sep) == seq![s.skip(from)],
        },
{
    let rest = s.skip(from);
    assert forall|j: int| #![trigger text::occurs_at(rest, seq![sep], j)]
        text::occurs_at(rest, seq![sep], j) == (j >= 0 && text::occurs_at(
        s,
        seq![sep],
        from + j,
    )) by {
        lemma_char_at(rest, sep, j);
        lemma_char_at(s, sep, from + j);
    }
    match found {
        Some(i) => {
            lemma_char_at(s, sep, i);
            assert(text::first_at(rest, seq![sep], i - from));
            text::lemma_first_occurrence(rest, seq![sep], i - from);
            assert(rest.take(i - from) =~= s.subrange(from, i));
            assert(rest.skip(i - from + 1) =~= s.skip(i + 1));
        },
        None => {
            text::lemma_first_occurrence_is_first(rest, seq![sep]);
        },
    }
}

/// Reads the token out of a query.
fn query_token(query: &[char]) -> (token: String)
    ensures
        token@ == percent_decoded(token_of(query@)),
        token@.len() == 0 <==> token_of(query@).len() == 0,
{
    let name = chars_of("token=");
    let sep: Vec<char> = vec!['&'];
    assert(sep@ =~= seq!['&']);
    let len: usize = query.len();
    let mut token = String::new();
    let mut start: usize = 0;
    let ghost mut done: Seq<Seq<char>> = Seq::empty();
    proof {
        assert(query@.skip(0) =~= query@);
        assert(done + split(query@, '&') =~= split(query@, '&'));
        lemma_nothing_vanishes(last_value(done));
        assert(token@ =~= percent_decoded(last_value(done)));
    }
    loop
        invariant
            start <= len == query@.len(),
            name@ == "token="@,
            sep@ == seq!['&'],
            split(query@, '&') == done + split(query@.skip(start as int), '&'),
            token@ == percent_decoded(last_value(done)),
            token@.len() == 0 <==> last_value(done).len() == 0,
        decreases len - start,
    {
        let found = find_from(query, sep.as_slice(), start);
        let end: usize = match found {
            Some(i) => i,
            None => len,
        };
        let ghost pair = query@.subrange(start as int, end as int);
        proof {
            lemma_split_step(
                query@,
                '&',
                start as int,
                match found {
                    Some(i) => Some(i as int),
                    None => None,
                },
            );
            assert(done.push(pair).drop_last() =~= done);
            assert(query@.skip(start as int) =~= query@.subrange(start as int, len as int));
        }
        let text = string_of(query, start, end);
        let chars = chars_of(text.as_str());
        if matches_at(chars.as_slice(), name.as_slice(), 0) {
            let value = string_of(chars.as_slice(), name.len(), chars.len());
            assert(value@ =~= pair.skip("token="@.len() as int));
            token = percent_decode(value.as_str());
        }
        match found {
            Some(i) => {
                proof {
                    let rest = split(query@.skip(i + 1), '&');
                    assert(done + (seq![pair] + rest) =~= done.push(pair) + rest);
                    done = done.push(pair);
                }
                start = i + 1;
            },
            None => {
                assert(split(query@, '&') =~= done.push(pair));
                return token;
            },
        }
    }
}

/// Reads `tcp://127.0.0.1:1234?token=abc`. The bridge is optional, so a text that is no
/// endpoint is no error: it gives `None`.
pub fn parse_endpoint(raw: &str) -> (endpoint: Option<BridgeEndpoint>)
    ensures
        match endpoint {
            Some(e) => {
                &&& endpoint_of(raw@) == Some(e@)
                &&& e@.addr.len() > 0
                &&& e@.token.len() > 0
            },
            None => endpoint_of(raw@) is None,
        },
{
    let chars = chars_of(raw);
    let scheme = chars_of("tcp://");
    if !matches_at(chars.as_slice(), scheme.as_slice(), 0) {
        return None;
    }
    let len: usize = chars.len();
    let start: usize = scheme.len();
    let mark: Vec<char> = vec!['?'];
    assert(mark@ =~= seq!['?']);
    let rest = vstd::slice::slice_subrange(chars.as_slice(), start, len);
    assert(rest@ =~= raw@.skip("tcp://"@.len() as int));
    let rest_len: usize = rest.len();
    let (addr, query) = match find(rest, mark.as_slice()) {
        Some(i) => {
            proof {
                lemma_char_at(rest@, '?', i as int);
                assert(rest@.subrange(0, i as int) =~= rest@.take(i as int));
                assert(rest@.subrange(i + 1, rest_len as int) =~= rest@.skip(i + 1));
            }
            (string_of(rest, 0, i), vstd::slice::slice_subrange(rest, i + 1, rest_len))
        },
        None => {
            proof {
                assert(rest@.subrange(0, rest_len as int) =~= rest@);
                assert(rest@.subrange(rest_len as int, rest_len as int) =~= Seq::<char>::empty());
            }
            (string_of(rest, 0, rest_len), vstd::slice::slice_subrange(rest, rest_len, rest_len))
        },
    };
    BridgeEndpoint::new(addr, query_token(query))
}

/// Valid UTF-8 loses nothing.
proof fn lemma_lossy_text_of_valid(bytes: Seq<u8>)
    requires
        vstd::utf8::valid_utf8(bytes),
    ensures
        lossy_text(bytes) == vstd::utf8::decode_utf8(bytes),
    decreases bytes.len(),
{
    if bytes.len() > 0 {
        lemma_lossy_text_of_valid(vstd::utf8::pop_first_scalar(bytes));
    }
}

/// `text` with plus signs read as blanks.
pub open spec fn blanks(text: Seq<char>) -> Seq<char> {
    Seq::new(
        text.len(),
        |i: int|
            if text[i] == '+' {
                ' '
            } else {
                text[i]
            },
    )
}

/// Bytes that are neither a percent sign nor a plus sign stand for themselves.
proof fn lemma_plain_bytes(plain: Seq<u8>, rest: Seq<u8>)
    requires
        forall|i: int| 0 <= i < plain.len() ==> #[trigger] plain[i] != 0x25 && plain[i] != 0x2b,
    ensures
        percent_bytes(plain + rest) == plain + percent_bytes(rest),
    decreases plain.len(),
{
    let all = plain + rest;
    if plain.len() == 0 {
        assert(all =~= rest);
        assert(plain + percent_bytes(rest) =~= percent_bytes(rest));
    } else {
        assert(all.skip(1) =~= plain.skip(1) + rest);
        lemma_plain_bytes(plain.skip(1), rest);
        assert(all[0] == plain[0]);
        assert(seq![plain[0]] + (plain.skip(1) + percent_bytes(rest)) =~= plain + percent_bytes(
            rest,
        ));
    }
}

/// The encoding of a character holds a percent sign or a plus sign only where the character
/// is one, and the text of what begins with it begins with the character.
proof fn lemma_encoded_char(c: char, rest: Seq<u8>)
    ensures
        ({
            let code = vstd::utf8::encode_scalar(c as u32);
            &&& c == '+' ==> code == seq![0x2bu8]
            &&& c == ' ' ==> code == seq![0x20u8]
            &&& c != '%' && c != '+' ==> forall|i: int|
                0 <= i < code.len() ==> #[trigger] code[i] != 0x25 && code[i] != 0x2b
            &&& lossy_text(code + rest) == seq![c] + lossy_text(rest)
        }),
{
    let one = seq![c];
    let code = vstd::utf8::encode_scalar(c as u32);
    vstd::utf8::encode_utf8_first_scalar(one);
    reveal_with_fuel(vstd::utf8::encode_utf8, 2);
    assert(vstd::utf8::encode_utf8(one) =~= code);
    if (c as u32) < 0x80 {
        assert(vstd::utf8::is_ascii_chars(one));
        vstd::utf8::is_ascii_chars_encode_utf8(one);
        assert(one[0] as u8 == code[0]);
        assert(code =~= seq![c as u8]);
    }
    let all = code + rest;
    assert(vstd::utf8::valid_first_scalar(all));
    assert(vstd::utf8::decode_first_scalar(all) == c as u32);
    assert(vstd::utf8::pop_first_scalar(all) =~= rest);
}

/// Text without a percent sign goes through, with its plus signs as blanks, whatever
/// follows it.
pub proof fn law_text_without_percent_goes_through(text: Seq<char>, rest: Seq<char>)
    requires
        !text.contains('%'),
    ensures
        percent_decoded(text + rest) == blanks(text) + percent_decoded(rest),
    decreases text.len(),
{
    let all = text + rest;
    if text.len() == 0 {
        assert(all =~= rest);
        assert(blanks(text) + percent_decoded(rest) =~= percent_decoded(rest));
    } else {
        let c = text[0];
        let tail = text.skip(1);
        let code = vstd::utf8::encode_scalar(c as u32);
        let bytes = vstd::utf8::encode_utf8(tail + rest);
        assert(!tail.contains('%')) by {
            assert forall|i: int| 0 <= i < tail.len() implies tail[i] != '%' by {
                assert(text.contains(text[i + 1]));
            }
        }
        assert(text.contains(c));
        law_text_without_percent_goes_through(tail, rest);
        assert(all.drop_first() =~= tail + rest);
        assert(vstd::utf8::encode_utf8(all) == code + bytes);
        lemma_encoded_char(c, percent_bytes(bytes));
        if c == '+' {
            assert((code + bytes)[0] == 0x2b);
            assert((code + bytes).skip(1) =~= bytes);
            lemma_encoded_char(' ', percent_bytes(bytes));
        } else {
            lemma_plain_bytes(code, bytes);
        }
        assert(blanks(text) =~= seq![blanks(text)[0]] + blanks(tail));
        assert(blanks(text) + percent_decoded(rest) =~= seq![blanks(text)[0]] + (blanks(tail)
            + percent_decoded(rest)));
    }
}

/// An escape for a byte that begins no character gives the replacement character, and what
/// follows it is kept.
pub proof fn law_stray_byte_is_replaced(high: char, low: char, rest: Seq<char>)
    requires
        (high as u32) < 0x80,
        (low as u32) < 0x80,
        hex_pair(high as u8, low as u8) matches Some(b) && begins_nothing(b as u8),
    ensures
        percent_decoded(seq!['%', high, low] + rest) == seq!['\u{fffd}'] + percent_decoded(rest),
{
    let code = seq!['%', high, low];
    let tail = vstd::utf8::encode_utf8(rest);
    let bytes = seq![0x25u8, high as u8, low as u8];
    lemma_encoded_ascii(code, rest);
    assert(Seq::new(code.len(), |i: int| code[i] as u8) =~= bytes);
    let all = bytes + tail;
    assert(all[0] == 0x25 && all[1] == high as u8 && all[2] == low as u8);
    assert(all.skip(3) =~= tail);
    let b = hex_pair(high as u8, low as u8)->Some_0 as u8;
    let out = seq![b] + percent_bytes(tail);
    assert(percent_bytes(all) == out);
    assert(out[0] == b);
    assert(out.skip(1) =~= percent_bytes(tail));
    lemma_begins_nothing(out);
}

/// Where the first byte begins no character, there is no character.
proof fn lemma_begins_nothing(bytes: Seq<u8>)
    requires
        bytes.len() > 0,
        begins_nothing(bytes[0]),
    ensures
        !vstd::utf8::valid_first_scalar(bytes),
{
    if vstd::utf8::valid_first_scalar(bytes) {
        let b = bytes[0];
        if b <= 0xc1 {
            let c = bytes[1];
            assert(vstd::utf8::codepoint_width_2(b, c) < 0x80) by (bit_vector)
                requires
                    0xc0 <= b <= 0xc1,
            ;
        } else {
            let (c, d, e) = (bytes[1], bytes[2], bytes[3]);
            assert(vstd::utf8::codepoint_width_4(b, c, d, e) > 0x10ffff) by (bit_vector)
                requires
                    0xf5 <= b <= 0xf7,
            ;
        }
    }
}

/// The encoding of a character below 0x80 is its number.
proof fn lemma_ascii_char(c: char)
    requires
        (c as u32) < 0x80,
    ensures
        vstd::utf8::encode_scalar(c as u32) == seq![c as u8],
{
    let one = seq![c];
    reveal_with_fuel(vstd::utf8::encode_utf8, 2);
    assert(vstd::utf8::encode_utf8(one) =~= vstd::utf8::encode_scalar(c as u32));
    assert(vstd::utf8::is_ascii_chars(one));
    vstd::utf8::is_ascii_chars_encode_utf8(one);
    assert(one[0] as u8 == vstd::utf8::encode_utf8(one)[0]);
    assert(vstd::utf8::encode_scalar(c as u32) =~= seq![c as u8]);
}

/// The encoding of characters below 0x80 is one byte for each.
proof fn lemma_encoded_ascii(code: Seq<char>, rest: Seq<char>)
    requires
        forall|i: int| 0 <= i < code.len() ==> (#[trigger] code[i] as u32) < 0x80,
    ensures
        vstd::utf8::encode_utf8(code + rest) == Seq::new(code.len(), |i: int| code[i] as u8)
            + vstd::utf8::encode_utf8(rest),
    decreases code.len(),
{
    let bytes = Seq::new(code.len(), |i: int| code[i] as u8);
    if code.len() == 0 {
        assert(code + rest =~= rest);
        assert(bytes + vstd::utf8::encode_utf8(rest) =~= vstd::utf8::encode_utf8(rest));
    } else {
        let c = code[0];
        let tail = code.skip(1);
        assert forall|i: int| 0 <= i < tail.len() implies (#[trigger] tail[i] as u32) < 0x80 by {
            assert(tail[i] == code[i + 1]);
        }
        lemma_encoded_ascii(tail, rest);
        assert((code + rest).drop_first() =~= tail + rest);
        lemma_ascii_char(c);
        assert(bytes =~= seq![c as u8] + Seq::new(tail.len(), |i: int| tail[i] as u8));
        assert(vstd::utf8::encode_utf8(code + rest) =~= bytes + vstd::utf8::encode_utf8(rest));
    }
}

/// Text with neither a percent sign nor a plus sign is returned unchanged.
pub proof fn law_plain_text_is_unchanged(text: Seq<char>)
    requires
        !text.contains('%'),
        !text.contains('+'),
    ensures
        percent_decoded(text) == text,
{
    law_text_without_percent_goes_through(text, Seq::empty());
    lemma_nothing_vanishes(Seq::empty());
    assert(text + Seq::<char>::empty() =~= text);
    assert forall|i: int| 0 <= i < text.len() implies blanks(text)[i] == text[i] by {
        assert(text.contains(text[i]));
    }
    assert(blanks(text) + percent_decoded(Seq::empty()) =~= text);
}

/// A byte that stands for itself in a query: a letter, a digit or one of `-_.!~*'()`.
pub open spec fn unreserved(b: u8) -> bool {
    ||| 0x30 <= b <= 0x39
    ||| 0x41 <= b <= 0x5a
    ||| 0x61 <= b <= 0x7a
    ||| b == 0x2d
    ||| b == 0x5f
    ||| b == 0x2e
    ||| b == 0x21
    ||| b == 0x7e
    ||| b == 0x2a
    ||| b == 0x27
    ||| b == 0x28
    ||| b == 0x29
}

/// The upper-case hexadecimal digit of `n`, for `n` below 16.
pub open spec fn upper_hex(n: int) -> u8 {
    if n < 10 {
        (0x30 + n) as u8
    } else {
        (0x41 + n - 10) as u8
    }
}

/// `bytes` as they are written in a query: reserved bytes as percent escapes.
pub open spec fn url_encoded(bytes: Seq<u8>) -> Seq<u8>
    decreases bytes.len(),
{
    if bytes.len() == 0 {
        Seq::empty()
    } else if unreserved(bytes[0]) {
        seq![bytes[0]] + url_encoded(bytes.skip(1))
    } else {
        seq![0x25u8, upper_hex(bytes[0] as int / 16), upper_hex(bytes[0] as int % 16)]
            + url_encoded(bytes.skip(1))
    }
}

/// Bytes below 0x80 as characters.
pub open spec fn ascii_text(bytes: Seq<u8>) -> Seq<char> {
    Seq::new(bytes.len(), |i: int| bytes[i] as char)
}

/// Decoding undoes encoding, whatever the bytes are.
pub proof fn law_percent_decoding_undoes_encoding(bytes: Seq<u8>)
    ensures
        percent_bytes(url_encoded(bytes)) == bytes,
    decreases bytes.len(),
{
    if bytes.len() > 0 {
        let b = bytes[0];
        let tail = url_encoded(bytes.skip(1));
        let code = url_encoded(bytes);
        law_percent_decoding_undoes_encoding(bytes.skip(1));
        if unreserved(b) {
            assert(code[0] == b);
            assert(code.skip(1) =~= tail);
        } else {
            let high: int = b as int / 16;
            let low: int = b as int % 16;
            assert(0 <= high < 16 && 0 <= low < 16);
            assert(code[0] == 0x25 && code[1] == upper_hex(high) && code[2] == upper_hex(low));
            assert(hex_value(upper_hex(high)) == Some(high));
            assert(hex_value(upper_hex(low)) == Some(low));
            assert(16 * high + low == b);
            assert(code.skip(3) =~= tail);
        }
        assert(percent_bytes(code) =~= seq![b] + bytes.skip(1));
        assert(seq![b] + bytes.skip(1) =~= bytes);
    } else {
        assert(bytes =~= Seq::<u8>::empty());
    }
}

/// Encoded bytes are ASCII, and no ampersand is among them.
proof fn lemma_url_encoded_bytes(bytes: Seq<u8>, i: int)
    requires
        0 <= i < url_encoded(bytes).len(),
    ensures
        url_encoded(bytes)[i] < 0x80,
        url_encoded(bytes)[i] != 0x26,
    decreases bytes.len(),
{
    let tail = url_encoded(bytes.skip(1));
    let code = url_encoded(bytes);
    if unreserved(bytes[0]) {
        if i > 0 {
            assert(code[i] == tail[i - 1]);
            lemma_url_encoded_bytes(bytes.skip(1), i - 1);
        }
    } else if i >= 3 {
        assert(code[i] == tail[i - 3]);
        lemma_url_encoded_bytes(bytes.skip(1), i - 3);
    } else {
        let b: int = bytes[0] as int;
        assert(upper_hex(b / 16) < 0x80 && upper_hex(b % 16) < 0x80);
        assert(upper_hex(b / 16) != 0x26 && upper_hex(b % 16) != 0x26);
    }
}

/// An endpoint that is written out is read back: any address without a question mark,
/// and any token, percent-encoded.
pub proof fn law_written_endpoint_is_read_back(addr: Seq<char>, token: Seq<char>)
    requires
        addr.len() > 0,
        !addr.contains('?'),
        token.len() > 0,
    ensures
        endpoint_of(
            "tcp://"@ + addr + "?token="@ + ascii_text(
                url_encoded(vstd::utf8::encode_utf8(token)),
            ),
        ) == Some(EndpointView { addr, token }),
{
    reveal_strlit("tcp://");
    reveal_strlit("?token=");
    reveal_strlit("token=");
    let bytes = vstd::utf8::encode_utf8(token);
    let code = url_encoded(bytes);
    let value = ascii_text(code);
    let raw = "tcp://"@ + addr + "?token="@ + value;
    let rest = raw.skip("tcp://"@.len() as int);
    let query = "token="@ + value;
    assert(text::occurs_at(raw, "tcp://"@, 0));
    assert(rest =~= addr + "?token="@ + value);
    // The first question mark is the one behind the address.
    let mark = addr.len() as int;
    assert(text::first_at(rest, seq!['?'], mark)) by {
        lemma_char_at(rest, '?', mark);
        assert forall|j: int| 0 <= j < mark implies !#[trigger] text::occurs_at(
            rest,
            seq!['?'],
            j,
        ) by {
            lemma_char_at(rest, '?', j);
            assert(rest[j] == addr[j]);
        }
    }
    text::lemma_first_occurrence(rest, seq!['?'], mark);
    assert(before(rest, '?') =~= addr);
    assert(after(rest, '?') =~= query);
    // The query is one pair.
    assert forall|j: int| !#[trigger] text::occurs_at(query, seq!['&'], j) by {
        lemma_char_at(query, '&', j);
        if 6 <= j < query.len() {
            assert(query[j] == value[j - 6]);
            lemma_url_encoded_bytes(bytes, j - 6);
            assert(value[j - 6] == code[j - 6] as char);
        }
    }
    text::lemma_first_occurrence_is_first(query, seq!['&']);
    let pairs = split(query, '&');
    assert(pairs =~= seq![query]);
    assert(text::occurs_at(query, "token="@, 0));
    assert(query.skip("token="@.len() as int) =~= value);
    assert(last_token(pairs) == Some(value));
    vstd::utf8::encode_utf8_first_scalar(token);
    // The value decodes to the token.
    assert(vstd::utf8::is_ascii_chars(value)) by {
        assert forall|i: int| 0 <= i < value.len() implies 0 <= #[trigger] value[i] as nat
            <= 127 by {
            lemma_url_encoded_bytes(bytes, i);
        }
    }
    vstd::utf8::is_ascii_chars_encode_utf8(value);
    assert(vstd::utf8::encode_utf8(value) =~= code) by {
        assert forall|i: int| 0 <= i < code.len() implies #[trigger] value[i] as u8 == code[i] by {
            lemma_url_encoded_bytes(bytes, i);
        }
    }
    law_percent_decoding_undoes_encoding(bytes);
    vstd::utf8::encode_utf8_valid_utf8(token);
    vstd::utf8::encode_utf8_decode_utf8(token);
    lemma_lossy_text_of_valid(bytes);
    assert(percent_decoded(value) == token);
}

/// No token, no endpoint: a text that never says `token=` is refused.
pub proof fn law_no_endpoint_without_token(raw: Seq<char>)
    requires
        !text::contains_text(raw, "token="@),
    ensures
        endpoint_of(raw) is None,
{
    let rest = raw.skip("tcp://"@.len() as int);
    let query = after(rest, '?');
    if text::occurs_at(raw, "tcp://"@, 0) {
        assert forall|j: int| !#[trigger] text::occurs_at(query, "token="@, j) by {
            if text::occurs_at(query, "token="@, j) {
                text::lemma_first_occurrence_is_first(rest, seq!['?']);
                let i: int = text::first_occurrence(rest, seq!['?'])->0;
                reveal_strlit("token=");
                assert(query[j + 0] == 't');
                lemma_char_at(rest, '?', i);
                let at: int = "tcp://"@.len() + i + 1 + j;
                assert forall|k: int| 0 <= k < "token="@.len() implies #[trigger] raw[at + k]
                    == "token="@[k] by {
                    assert(query[j + k] == "token="@[k]);
                }
                assert(text::occurs_at(raw, "token="@, at));
            }
        }
        lemma_no_token_in_pieces(query, split(query, '&'));
    }
}

/// The pieces of a text that never says `token=` hold no token.
proof fn lemma_no_token_in_pieces(s: Seq<char>, pieces: Seq<Seq<char>>)
    requires
        !text::contains_text(s, "token="@),
        pieces == split(s, '&'),
    ensures
        last_token(pieces) is None,
    decreases s.len(),
{
    reveal_strlit("token=");
    text::lemma_first_occurrence_is_first(s, seq!['&']);
    match text::first_occurrence(s, seq!['&']) {
        Some(i) => {
            lemma_char_at(s, '&', i);
            let head = s.take(i);
            let tail = s.skip(i + 1);
            assert forall|j: int| !#[trigger] text::occurs_at(tail, "token="@, j) by {
                if text::occurs_at(tail, "token="@, j) {
                    assert forall|k: int| 0 <= k < 6 implies #[trigger] s[i + 1 + j + k]
                        == "token="@[k] by {
                        assert(tail[j + k] == "token="@[k]);
                    }
                    assert(text::occurs_at(s, "token="@, i + 1 + j));
                }
            }
            lemma_no_token_in_pieces(tail, split(tail, '&'));
            assert(!text::occurs_at(head, "token="@, 0)) by {
                if text::occurs_at(head, "token="@, 0) {
                    assert forall|k: int| 0 <= k < 6 implies #[trigger] s[0 + k] == "token="@[k] by {
                        assert(head[0 + k] == "token="@[k]);
                    }
                    assert(text::occurs_at(s, "token="@, 0));
                }
            }
            lemma_last_token_behind(head, split(tail, '&'));
        },
        None => {
            reveal_with_fuel(last_token, 2);
            assert(pieces =~= seq![s]);
            assert(!text::occurs_at(s, "token="@, 0));
            assert(pieces.drop_last() =~= Seq::<Seq<char>>::empty());
        },
    }
}

/// A first piece without a token changes nothing.
proof fn lemma_last_token_behind(head: Seq<char>, pieces: Seq<Seq<char>>)
    requires
        !text::occurs_at(head, "token="@, 0),
        last_token(pieces) is None,
    ensures
        last_token(seq![head] + pieces) is None,
    decreases pieces.len(),
{
    let all = seq![head] + pieces;
    if pieces.len() == 0 {
        reveal_with_fuel(last_token, 2);
        assert(all =~= seq![head]);
        assert(all.drop_last() =~= Seq::<Seq<char>>::empty());
    } else {
        assert(all.last() == pieces.last());
        assert(all.drop_last() =~= seq![head] + pieces.drop_last());
        lemma_last_token_behind(head, pieces.drop_last());
    }
}

/// An endpoint is its address and its token.
pub proof fn law_endpoint_is_made_of_its_parts(endpoint: BridgeEndpoint)
    ensures
        endpoint@.addr == endpoint.addr@,
        endpoint@.token == endpoint.token@,
{
}

/// `b` is the hexadecimal digit of `n`, upper or lower case.
pub open spec fn is_hex_digit_of(b: u8, n: int) -> bool {
    ||| 0 <= n < 10 && b == 0x30 + n
    ||| 10 <= n < 16 && b == 0x41 + (n - 10)
    ||| 10 <= n < 16 && b == 0x61 + (n - 10)
}

/// A percent sign and two hexadecimal digits stand for the byte with that number.
pub proof fn law_escape_stands_for_its_byte(high: u8, low: u8, h: int, l: int, rest: Seq<u8>)
    requires
        is_hex_digit_of(high, h),
        is_hex_digit_of(low, l),
    ensures
        percent_bytes(seq![0x25u8, high, low] + rest) == seq![(16 * h + l) as u8] + percent_bytes(
            rest,
        ),
{
    let all = seq![0x25u8, high, low] + rest;
    assert(all[0] == 0x25 && all[1] == high && all[2] == low);
    assert(all.skip(3) =~= rest);
    assert(hex_value(high) == Some(h) && hex_value(low) == Some(l));
}

/// A percent sign without two hexadecimal digits behind it stands for itself, a plus sign for a
/// blank, and every other byte for itself.
pub proof fn law_other_bytes_stand_for_themselves(b: u8, rest: Seq<u8>)
    ensures
        percent_bytes(Seq::<u8>::empty()) == Seq::<u8>::empty(),
        b == 0x2b ==> percent_bytes(seq![b] + rest) == seq![0x20u8] + percent_bytes(rest),
        b != 0x2b && b != 0x25 ==> percent_bytes(seq![b] + rest) == seq![b] + percent_bytes(rest),
        b == 0x25 && (rest.len() < 2 || (forall|h: int, l: int|
            !(#[trigger] is_hex_digit_of(rest[0], h) && #[trigger] is_hex_digit_of(rest[1], l))))
            ==> percent_bytes(seq![b] + rest) == seq![b] + percent_bytes(rest),
{
    let all = seq![b] + rest;
    assert(all[0] == b);
    assert(all.skip(1) =~= rest);
    if b == 0x25 && rest.len() >= 2 && hex_pair(rest[0], rest[1]) is Some {
        let h: int = hex_value(rest[0])->Some_0;
        let l: int = hex_value(rest[1])->Some_0;
        assert(is_hex_digit_of(rest[0], h) && is_hex_digit_of(rest[1], l));
    }
    if rest.len() >= 2 {
        assert(all[1] == rest[0] && all[2] == rest[1]);
    }
}

/// Where the bytes are valid UTF-8, the text is what they encode.
pub proof fn law_valid_utf8_is_decoded(value: Seq<char>)
    requires
        vstd::utf8::valid_utf8(percent_bytes(vstd::utf8::encode_utf8(value))),
    ensures
        percent_decoded(value) == vstd::utf8::decode_utf8(
            percent_bytes(vstd::utf8::encode_utf8(value)),
        ),
{
    lemma_lossy_text_of_valid(percent_bytes(vstd::utf8::encode_utf8(value)));
}

/// One more piece behind a separator is one more piece.
proof fn lemma_split_push(s: Seq<char>, sep: char, tail: Seq<char>)
    requires
        !tail.contains(sep),
    ensures
        split(s + seq![sep] + tail, sep) == split(s, sep).push(tail),
    decreases s.len(),
{
    let all = s + seq![sep] + tail;
    let mark = seq![sep];
    text::lemma_first_occurrence_is_first(s, mark);
    match text::first_occurrence(s, mark) {
        Some(i) => {
            lemma_char_at(s, sep, i);
            lemma_char_at(all, sep, i);
            assert forall|j: int| 0 <= j < i implies !#[trigger] text::occurs_at(all, mark, j) by {
                lemma_char_at(all, sep, j);
                lemma_char_at(s, sep, j);
                assert(!text::occurs_at(s, mark, j));
            }
            text::lemma_first_occurrence(all, mark, i);
            assert(all.take(i) =~= s.take(i));
            assert(all.skip(i + 1) =~= s.skip(i + 1) + seq![sep] + tail);
            lemma_split_push(s.skip(i + 1), sep, tail);
            assert(seq![s.take(i)] + split(s.skip(i + 1), sep).push(tail) =~= (seq![s.take(i)]
                + split(s.skip(i + 1), sep)).push(tail));
        },
        None => {
            let n = s.len() as int;
            lemma_char_at(all, sep, n);
            assert forall|j: int| 0 <= j < n implies !#[trigger] text::occurs_at(all, mark, j) by {
                lemma_char_at(all, sep, j);
                lemma_char_at(s, sep, j);
                assert(!text::occurs_at(s, mark, j));
            }
            text::lemma_first_occurrence(all, mark, n);
            assert(all.take(n) =~= s);
            assert(all.skip(n + 1) =~= tail);
            lemma_one_piece(tail, sep);
            assert(seq![s] + seq![tail] =~= seq![s].push(tail));
        },
    }
}

/// A text without a separator is one piece.
proof fn lemma_one_piece(s: Seq<char>, sep: char)
    requires
        !s.contains(sep),
    ensures
        split(s, sep) == seq![s],
{
    assert forall|j: int| !#[trigger] text::occurs_at(s, seq![sep], j) by {
        lemma_char_at(s, sep, j);
        if 0 <= j < s.len() {
            assert(s.contains(s[j]));
        }
    }
    text::lemma_first_occurrence_is_first(s, seq![sep]);
}

/// The parts of a text that has a scheme, an address and a query.
proof fn lemma_parts(addr: Seq<char>, query: Seq<char>)
    requires
        !addr.contains('?'),
    ensures
        ({
            let raw = "tcp://"@ + addr + seq!['?'] + query;
            let rest = raw.skip("tcp://"@.len() as int);
            &&& text::occurs_at(raw, "tcp://"@, 0)
            &&& before(rest, '?') == addr
            &&& after(rest, '?') == query
        }),
{
    let raw = "tcp://"@ + addr + seq!['?'] + query;
    let rest = raw.skip("tcp://"@.len() as int);
    assert(rest =~= addr + seq!['?'] + query);
    let mark = addr.len() as int;
    lemma_char_at(rest, '?', mark);
    assert forall|j: int| 0 <= j < mark implies !#[trigger] text::occurs_at(
        rest,
        seq!['?'],
        j,
    ) by {
        lemma_char_at(rest, '?', j);
        assert(rest[j] == addr[j]);
        assert(addr.contains(addr[j]));
    }
    text::lemma_first_occurrence(rest, seq!['?'], mark);
    assert(before(rest, '?') =~= addr);
    assert(after(rest, '?') =~= query);
}

/// The address of an endpoint is what stands before the question mark, and its token the value
/// of the last pair that is one, decoded, whatever pairs stand before it. Without an address or
/// with an empty token there is no endpoint.
pub proof fn law_last_token_counts(addr: Seq<char>, pairs: Seq<char>, value: Seq<char>)
    requires
        !addr.contains('?'),
        !value.contains('&'),
    ensures
        endpoint_of("tcp://"@ + addr + seq!['?'] + ("token="@ + value)) == (if addr.len() > 0
            && value.len() > 0 {
            Some(EndpointView { addr, token: percent_decoded(value) })
        } else {
            None
        }),
        endpoint_of("tcp://"@ + addr + seq!['?'] + (pairs + seq!['&'] + ("token="@ + value))) == (
        if addr.len() > 0 && value.len() > 0 {
            Some(EndpointView { addr, token: percent_decoded(value) })
        } else {
            None
        }),
{
    reveal_strlit("token=");
    let pair = "token="@ + value;
    assert(!pair.contains('&')) by {
        assert forall|i: int| 0 <= i < pair.len() implies pair[i] != '&' by {
            if i >= 6 {
                assert(pair[i] == value[i - 6]);
                assert(value.contains(value[i - 6]));
            }
        }
    }
    assert(text::occurs_at(pair, "token="@, 0));
    assert(pair.skip("token="@.len() as int) =~= value);
    lemma_parts(addr, pair);
    lemma_one_piece(pair, '&');
    assert(split(pair, '&').last() == pair);
    lemma_parts(addr, pairs + seq!['&'] + pair);
    lemma_split_push(pairs, '&', pair);
    assert(split(pairs, '&').push(pair).last() == pair);
}

/// A pair that is no token changes nothing.
pub proof fn law_other_pairs_are_ignored(addr: Seq<char>, pairs: Seq<char>, other: Seq<char>)
    requires
        !addr.contains('?'),
        !other.contains('&'),
        !text::occurs_at(other, "token="@, 0),
    ensures
        endpoint_of("tcp://"@ + addr + seq!['?'] + (pairs + seq!['&'] + other)) == endpoint_of(
            "tcp://"@ + addr + seq!['?'] + pairs,
        ),
        endpoint_of("tcp://"@ + addr + seq!['?'] + other) is None,
{
    lemma_parts(addr, pairs + seq!['&'] + other);
    lemma_parts(addr, pairs);
    lemma_split_push(pairs, '&', other);
    assert(split(pairs, '&').push(other).drop_last() =~= split(pairs, '&'));
    assert(split(pairs, '&').push(other).last() == other);
    lemma_parts(addr, other);
    lemma_one_piece(other, '&');
    reveal_with_fuel(last_token, 2);
    assert(seq![other].drop_last() =~= Seq::<Seq<char>>::empty());
}

/// Without the scheme, and without a query, there is no endpoint.
pub proof fn law_scheme_and_query_are_required(raw: Seq<char>)
    ensures
        !text::occurs_at(raw, "tcp://"@, 0) ==> endpoint_of(raw) is None,
        !raw.contains('?') ==> endpoint_of(raw) is None,
{
    if !raw.contains('?') && text::occurs_at(raw, "tcp://"@, 0) {
        let rest = raw.skip("tcp://"@.len() as int);
        assert forall|j: int| !#[trigger] text::occurs_at(rest, seq!['?'], j) by {
            lemma_char_at(rest, '?', j);
            if 0 <= j < rest.len() {
                assert(raw.contains(raw[j + "tcp://"@.len()]));
            }
        }
        text::lemma_first_occurrence_is_first(rest, seq!['?']);
        let none = Seq::<char>::empty();
        assert(after(rest, '?') == none);
        lemma_one_piece(none, '&');
        reveal_strlit("token=");
        reveal_with_fuel(last_token, 2);
        assert(!text::occurs_at(none, "token="@, 0));
        assert(seq![none].drop_last() =~= Seq::<Seq<char>>::empty());
    }
}

/// The text of bytes goes character by character: a character that they begin with is kept, a
/// byte that begins none becomes the replacement character, and the rest is read on its own.
pub proof fn law_text_of_bytes_goes_character_by_character(c: char, b: u8, rest: Seq<u8>)
    ensures
        lossy_text(Seq::<u8>::empty()) == Seq::<char>::empty(),
        lossy_text(vstd::utf8::encode_scalar(c as u32) + rest) == seq![c] + lossy_text(rest),
        (0x80 <= b <= 0xc1 || 0xf5 <= b) ==> lossy_text(seq![b] + rest) == seq!['\u{fffd}']
            + lossy_text(rest),
{
    lemma_encoded_char(c, rest);
    if 0x80 <= b <= 0xc1 || 0xf5 <= b {
        let all = seq![b] + rest;
        assert(all[0] == b);
        assert(all.skip(1) =~= rest);
        lemma_begins_nothing(all);
    }
}

/// A value is decoded by resolving its escapes and reading the bytes as text.
pub proof fn law_value_is_decoded_as_bytes(value: Seq<char>)
    ensures
        percent_decoded(value) == lossy_text(percent_bytes(vstd::utf8::encode_utf8(value))),
{
}

} // verus!
