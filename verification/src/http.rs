//! What is sent to the network and what is made of the answer.
//!
//! Kept deliberately small: the address of a request, the size an answer may
//! have, and the text it must be.

use vstd::prelude::*;
use vstd::string::*;

use crate::text;
use crate::text::{number, to_chars};

verus! {

/// A STEP model for a large connector can be a few megabytes; anything past
/// this is a sign the endpoint changed and is refused rather than buffered.
pub const MAX_BODY: u64 = 67_108_864;

// ------------------------------------------------------------ outside calls

/// The words of `std::string::FromUtf8Error` for bytes that encode no text.
pub uninterp spec fn utf8_fault(bytes: Seq<u8>) -> Seq<char>;

/// `String::from_utf8`: the text that `bytes` encode, or its words for why they
/// encode none.
#[verifier::external_body]
fn from_utf8(bytes: Vec<u8>) -> (r: Result<String, String>)
    ensures
        match r {
            Ok(t) => vstd::utf8::valid_utf8(bytes@) && t@ == vstd::utf8::decode_utf8(bytes@),
            Err(e) => !vstd::utf8::valid_utf8(bytes@) && e@ == utf8_fault(bytes@),
        },
{
    String::from_utf8(bytes).map_err(|e| e.to_string())
}

// ------------------------------------------------------------- the answer

/// What reading a body came to.
pub open spec fn body_of(url: Seq<char>, read: Result<Seq<u8>, Seq<char>>) -> Result<
    Seq<u8>,
    Seq<char>,
> {
    match read {
        Err(e) => Err("reading body of "@ + url + ": "@ + e),
        Ok(bytes) => if bytes.len() > MAX_BODY {
            Err(
                "reading body of "@ + url + ": larger than "@ + text::decimal(MAX_BODY as nat)
                    + " bytes"@,
            )
        } else {
            Ok(bytes)
        },
    }
}

pub open spec fn bytes_result(r: Result<Vec<u8>, String>) -> Result<Seq<u8>, Seq<char>> {
    match r {
        Ok(b) => Ok(b@),
        Err(e) => Err(e@),
    }
}

/// What a GET of `url` gives, from the body that was read. A body past the limit
/// is refused; reading need not go further than one byte past it.
pub fn get_bytes(url: &str, read: Result<Vec<u8>, String>) -> (r: Result<Vec<u8>, String>)
    ensures
        bytes_result(r) == body_of(url@, bytes_result(read)),
{
    match read {
        Err(e) => {
            let mut out = "reading body of ".to_string();
            out.append(url);
            out.append(": ");
            out.append(e.as_str());
            Err(out)
        },
        Ok(bytes) => {
            if bytes.len() as u64 > MAX_BODY {
                let mut out = "reading body of ".to_string();
                let limit = number(MAX_BODY as u128);
                out.append(url);
                out.append(": larger than ");
                out.append(limit.as_str());
                out.append(" bytes");
                Err(out)
            } else {
                Ok(bytes)
            }
        },
    }
}

/// What the body at `url` is as text.
pub open spec fn text_of(url: Seq<char>, bytes: Seq<u8>) -> Result<Seq<char>, Seq<char>> {
    if vstd::utf8::valid_utf8(bytes) {
        Ok(vstd::utf8::decode_utf8(bytes))
    } else {
        Err(url + " did not return UTF-8: "@ + utf8_fault(bytes))
    }
}

pub open spec fn string_result(r: Result<String, String>) -> Result<Seq<char>, Seq<char>> {
    match r {
        Ok(t) => Ok(t@),
        Err(e) => Err(e@),
    }
}

/// What a GET of `url` gives as text, from the body that was accepted.
pub fn get_string(url: &str, bytes: Vec<u8>) -> (r: Result<String, String>)
    ensures
        string_result(r) == text_of(url@, bytes@),
{
    match from_utf8(bytes) {
        Ok(t) => Ok(t),
        Err(e) => {
            let mut out = url.to_string();
            out.append(" did not return UTF-8: ");
            out.append(e.as_str());
            Err(out)
        },
    }
}

// -------------------------------------------------------------- the address

/// The characters RFC 3986 leaves unreserved.
pub open spec fn is_unreserved(c: char) -> bool {
    ||| 'A' <= c && c <= 'Z'
    ||| 'a' <= c && c <= 'z'
    ||| '0' <= c && c <= '9'
    ||| c == '-'
    ||| c == '_'
    ||| c == '.'
    ||| c == '~'
}

/// The UTF-8 encoding of a character.
pub open spec fn utf8_bytes(c: char) -> Seq<int> {
    let n = c as int;
    if n <= 0x7f {
        seq![n]
    } else if n <= 0x7ff {
        seq![0xc0 + n / 64, 0x80 + n % 64]
    } else if n <= 0xffff {
        seq![0xe0 + n / 4096, 0x80 + (n / 64) % 64, 0x80 + n % 64]
    } else {
        seq![
            0xf0 + n / 262144,
            0x80 + (n / 4096) % 64,
            0x80 + (n / 64) % 64,
            0x80 + n % 64,
        ]
    }
}

pub open spec fn hex_digit(n: int) -> char {
    if n < 10 {
        ((48 + n) as u8) as char
    } else {
        ((55 + n) as u8) as char
    }
}

/// `%` and two upper-case hexadecimal digits.
pub open spec fn percent(byte: int) -> Seq<char> {
    seq!['%', hex_digit(byte / 16), hex_digit(byte % 16)]
}

pub open spec fn percents(bytes: Seq<int>) -> Seq<char>
    decreases bytes.len(),
{
    if bytes.len() == 0 {
        Seq::empty()
    } else {
        percents(bytes.drop_last()) + percent(bytes.last())
    }
}

pub open spec fn encoded_char(c: char) -> Seq<char> {
    if is_unreserved(c) {
        seq![c]
    } else {
        percents(utf8_bytes(c))
    }
}

/// `s` with everything outside the unreserved set percent-encoded.
pub open spec fn encoded(s: Seq<char>) -> Seq<char>
    decreases s.len(),
{
    if s.len() == 0 {
        Seq::empty()
    } else {
        encoded(s.drop_last()) + encoded_char(s.last())
    }
}

fn push_percent(out: &mut String, byte: u32)
    requires
        byte < 256,
    ensures
        final(out)@ == old(out)@ + percent(byte as int),
{
    let ghost was = out@;
    out.push('%');
    out.push(hex(byte / 16));
    out.push(hex(byte % 16));
    assert(out@ =~= was + percent(byte as int));
}

fn hex(n: u32) -> (r: char)
    requires
        n < 16,
    ensures
        r == hex_digit(n as int),
{
    let d: u8 = n as u8;
    if d < 10 {
        (48 + d) as char
    } else {
        (55 + d) as char
    }
}

proof fn lemma_percents_push(bytes: Seq<int>, byte: int)
    ensures
        percents(bytes.push(byte)) == percents(bytes) + percent(byte),
{
    assert(bytes.push(byte).drop_last() =~= bytes);
}

/// Percent-encodes everything outside the RFC 3986 unreserved set, so a search
/// term can be dropped into a query string without a URL crate.
pub fn encode(value: &str) -> (r: String)
    ensures
        r@ == encoded(value@),
{
    let chars = to_chars(value);
    let mut out = String::new();
    let mut i: usize = 0;
    assert(chars@.take(0) =~= Seq::<char>::empty());
    while i < chars.len()
        invariant
            i <= chars@.len(),
            out@ == encoded(chars@.take(i as int)),
        decreases chars.len() - i,
    {
        let c = chars[i];
        assert(chars@.take(i + 1).drop_last() =~= chars@.take(i as int));
        assert(chars@.take(i + 1).last() == c);
        let ghost was = out@;
        if ('A' <= c && c <= 'Z') || ('a' <= c && c <= 'z') || ('0' <= c && c <= '9') || c == '-'
            || c == '_' || c == '.' || c == '~' {
            out.push(c);
            assert(out@ =~= was + seq![c]);
        } else {
            encode_char(&mut out, c);
        }
        i += 1;
    }
    assert(chars@.take(i as int) =~= value@);
    out
}

fn encode_char(out: &mut String, c: char)
    ensures
        final(out)@ == old(out)@ + percents(utf8_bytes(c)),
{
    let ghost was = out@;
    let n: u32 = c as u32;
    let ghost none = Seq::<int>::empty();
    proof {
        assert(percents(none) =~= Seq::<char>::empty());
    }
    if n <= 0x7f {
        push_percent(out, n);
        proof {
            lemma_percents_push(none, n as int);
            assert(utf8_bytes(c) =~= none.push(n as int));
        }
    } else if n <= 0x7ff {
        push_percent(out, 0xc0 + n / 64);
        push_percent(out, 0x80 + n % 64);
        proof {
            let one = none.push(0xc0 + n / 64);
            lemma_percents_push(none, 0xc0 + n / 64);
            lemma_percents_push(one, 0x80 + n % 64);
            assert(utf8_bytes(c) =~= one.push(0x80 + n % 64));
        }
    } else if n <= 0xffff {
        push_percent(out, 0xe0 + n / 4096);
        push_percent(out, 0x80 + (n / 64) % 64);
        push_percent(out, 0x80 + n % 64);
        proof {
            let one = none.push(0xe0 + n / 4096);
            let two = one.push(0x80 + ((n / 64) % 64) as int);
            lemma_percents_push(none, 0xe0 + n / 4096);
            lemma_percents_push(one, 0x80 + ((n / 64) % 64) as int);
            lemma_percents_push(two, 0x80 + n % 64);
            assert(utf8_bytes(c) =~= two.push(0x80 + n % 64));
        }
    } else {
        push_percent(out, 0xf0 + n / 262144);
        push_percent(out, 0x80 + (n / 4096) % 64);
        push_percent(out, 0x80 + (n / 64) % 64);
        push_percent(out, 0x80 + n % 64);
        proof {
            let one = none.push(0xf0 + n / 262144);
            let two = one.push(0x80 + ((n / 4096) % 64) as int);
            let three = two.push(0x80 + ((n / 64) % 64) as int);
            lemma_percents_push(none, 0xf0 + n / 262144);
            lemma_percents_push(one, 0x80 + ((n / 4096) % 64) as int);
            lemma_percents_push(two, 0x80 + ((n / 64) % 64) as int);
            lemma_percents_push(three, 0x80 + n % 64);
            assert(utf8_bytes(c) =~= three.push(0x80 + n % 64));
        }
    }
    assert(out@ =~= was + percents(utf8_bytes(c)));
}

// -------------------------------------------------------------------- laws

proof fn lemma_percents_charset(bytes: Seq<int>)
    requires
        forall|i: int| 0 <= i < bytes.len() ==> 0 <= #[trigger] bytes[i] < 256,
    ensures
        forall|i: int|
            0 <= i < percents(bytes).len() ==> is_unreserved(#[trigger] percents(bytes)[i])
                || percents(bytes)[i] == '%',
    decreases bytes.len(),
{
    if bytes.len() > 0 {
        let init = bytes.drop_last();
        assert(forall|i: int| 0 <= i < init.len() ==> init[i] == bytes[i]);
        lemma_percents_charset(init);
        let byte = bytes[bytes.len() - 1];
        lemma_hex(byte / 16);
        lemma_hex(byte % 16);
        let before = percents(init);
        let all = percents(bytes);
        assert(all =~= before + percent(byte));
        assert forall|i: int| 0 <= i < all.len() implies is_unreserved(#[trigger] all[i]) || all[i]
            == '%' by {
            if i < before.len() {
                assert(all[i] == before[i]);
            } else {
                assert(all[i] == percent(byte)[i - before.len()]);
            }
        }
    }
}

proof fn lemma_hex(n: int)
    requires
        0 <= n < 16,
    ensures
        is_unreserved(hex_digit(n)),
{
}

proof fn lemma_utf8_bytes(c: char)
    ensures
        forall|i: int| 0 <= i < utf8_bytes(c).len() ==> 0 <= #[trigger] utf8_bytes(c)[i] < 256,
{
    assert(c as u32 <= 0x10ffff);
}

/// An encoded text holds nothing but unreserved characters and `%`.
pub proof fn lemma_encoded_charset(s: Seq<char>)
    ensures
        forall|i: int|
            0 <= i < encoded(s).len() ==> is_unreserved(#[trigger] encoded(s)[i]) || encoded(s)[i]
                == '%',
    decreases s.len(),
{
    if s.len() > 0 {
        lemma_encoded_charset(s.drop_last());
        let c = s.last();
        let bytes = utf8_bytes(c);
        lemma_utf8_bytes(c);
        lemma_percents_charset(bytes);
        let before = encoded(s.drop_last());
        let all = encoded(s);
        assert forall|i: int| 0 <= i < all.len() implies is_unreserved(#[trigger] all[i]) || all[i]
            == '%' by {
            if i < before.len() {
                assert(all[i] == before[i]);
            } else {
                assert(all[i] == encoded_char(c)[i - before.len()]);
            }
        }
    }
}

/// A text of unreserved characters is sent as it stands.
pub proof fn lemma_encoded_plain(s: Seq<char>)
    requires
        forall|i: int| 0 <= i < s.len() ==> is_unreserved(#[trigger] s[i]),
    ensures
        encoded(s) == s,
    decreases s.len(),
{
    if s.len() > 0 {
        let init = s.drop_last();
        assert(forall|i: int| 0 <= i < init.len() ==> init[i] == s[i]);
        lemma_encoded_plain(init);
        assert(is_unreserved(s[s.len() - 1]));
        assert(init + seq![s.last()] =~= s);
    }
}

// ---------------------------------------------------------------- decoding

/// The value of a hexadecimal digit.
pub open spec fn hex_value(c: char) -> Option<int> {
    if '0' <= c && c <= '9' {
        Some(c as int - 48)
    } else if 'A' <= c && c <= 'F' {
        Some(c as int - 55)
    } else if 'a' <= c && c <= 'f' {
        Some(c as int - 87)
    } else {
        None
    }
}

/// The bytes that a percent-encoded text stands for: `%` and two hexadecimal
/// digits for the byte they spell, any other character for itself.
pub open spec fn unescaped(t: Seq<char>) -> Seq<u8>
    decreases t.len(),
{
    if t.len() == 0 {
        Seq::empty()
    } else if t.len() >= 3 && t[0] == '%' && hex_value(t[1]) is Some && hex_value(t[2]) is Some {
        seq![(hex_value(t[1]).unwrap() * 16 + hex_value(t[2]).unwrap()) as u8] + unescaped(
            t.skip(3),
        )
    } else {
        vstd::utf8::encode_scalar(t[0] as u32) + unescaped(t.skip(1))
    }
}

proof fn lemma_unescaped_percents(bytes: Seq<int>, rest: Seq<char>)
    requires
        forall|i: int| 0 <= i < bytes.len() ==> 0 <= #[trigger] bytes[i] < 256,
    ensures
        unescaped(percents(bytes) + rest) == bytes.map_values(|b: int| b as u8) + unescaped(rest),
    decreases bytes.len(),
{
    let small = bytes.map_values(|b: int| b as u8);
    if bytes.len() == 0 {
        assert(percents(bytes) + rest =~= rest);
        assert(small + unescaped(rest) =~= unescaped(rest));
    } else {
        let init = bytes.drop_last();
        let byte = bytes[bytes.len() - 1];
        assert(forall|i: int| 0 <= i < init.len() ==> init[i] == bytes[i]);
        let tail = percent(byte) + rest;
        lemma_unescaped_percents(init, tail);
        assert(percents(bytes) + rest =~= percents(init) + tail);
        assert(tail.skip(3) =~= rest);
        assert(hex_value(hex_digit(byte / 16)) == Some(byte / 16));
        assert(hex_value(hex_digit(byte % 16)) == Some(byte % 16));
        assert((byte / 16) * 16 + byte % 16 == byte);
        assert(unescaped(tail) == seq![byte as u8] + unescaped(rest));
        assert(small =~= init.map_values(|b: int| b as u8) + seq![byte as u8]);
        assert(init.map_values(|b: int| b as u8) + (seq![byte as u8] + unescaped(rest)) =~= small
            + unescaped(rest));
    }
}

proof fn lemma_utf8_scalar(c: char)
    ensures
        utf8_bytes(c).map_values(|b: int| b as u8) == vstd::utf8::encode_scalar(c as u32),
{
    let n = c as u32;
    assert(n <= 0x10ffff);
    assert(0x80u8 | (n & 0x3F) as u8 == (0x80 + n % 64) as u8) by (bit_vector);
    assert(0x80u8 | ((n >> 6) & 0x3F) as u8 == (0x80 + (n / 64) % 64) as u8) by (bit_vector);
    assert(0x80u8 | ((n >> 12) & 0x3F) as u8 == (0x80 + (n / 4096) % 64) as u8) by (bit_vector);
    assert(n <= 0x7f ==> (n & 0x7F) as u8 == n as u8) by (bit_vector);
    assert(n <= 0x7ff ==> 0xC0u8 | ((n >> 6) & 0x1F) as u8 == (0xc0 + n / 64) as u8)
        by (bit_vector);
    assert(n <= 0xffff ==> 0xE0u8 | ((n >> 12) & 0x0F) as u8 == (0xe0 + n / 4096) as u8)
        by (bit_vector);
    assert(n <= 0x10ffff ==> 0xF0u8 | ((n >> 18) & 0x7) as u8 == (0xf0 + n / 262144) as u8)
        by (bit_vector);
    assert(utf8_bytes(c).map_values(|b: int| b as u8) =~= vstd::utf8::encode_scalar(n));
}

proof fn lemma_encoded_first(s: Seq<char>)
    requires
        s.len() > 0,
    ensures
        encoded(s) == encoded_char(s[0]) + encoded(s.drop_first()),
    decreases s.len(),
{
    if s.len() == 1 {
        assert(s.drop_last() =~= Seq::<char>::empty());
        assert(s.drop_first() =~= Seq::<char>::empty());
        assert(encoded(s) =~= encoded_char(s[0]) + encoded(s.drop_first()));
    } else {
        lemma_encoded_first(s.drop_last());
        assert(s.drop_last().drop_first() =~= s.drop_first().drop_last());
        assert(encoded(s) =~= encoded_char(s[0]) + encoded(s.drop_first()));
    }
}

proof fn lemma_unescaped_encoded(s: Seq<char>)
    ensures
        unescaped(encoded(s)) == vstd::utf8::encode_utf8(s),
    decreases s.len(),
{
    if s.len() > 0 {
        let c = s[0];
        let rest = encoded(s.drop_first());
        lemma_encoded_first(s);
        lemma_unescaped_encoded(s.drop_first());
        if is_unreserved(c) {
            let whole = seq![c] + rest;
            assert(whole.skip(1) =~= rest);
        } else {
            lemma_utf8_bytes(c);
            lemma_utf8_scalar(c);
            lemma_unescaped_percents(utf8_bytes(c), rest);
        }
    }
}

/// Decoding an encoded text gives the text back: what it stands for is valid
/// UTF-8, and that of the text itself.
pub proof fn lemma_decodes(s: Seq<char>)
    ensures
        vstd::utf8::valid_utf8(unescaped(encoded(s))),
        vstd::utf8::decode_utf8(unescaped(encoded(s))) == s,
{
    lemma_unescaped_encoded(s);
    vstd::utf8::encode_utf8_valid_utf8(s);
    vstd::utf8::encode_utf8_decode_utf8(s);
}

} // verus!
