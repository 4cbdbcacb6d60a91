//! The embedding client's local half: framing the provider request and
//! enforcing the payload-size guard.
//!
//! The request body sent to the embedding provider is a fixed JSON envelope
//! around the escaped model name and text.  The library builds that body
//! itself, character by character, so the guard can be checked against the
//! exact serialized size locally, before any call is made: a request is
//! rejected with [`EmbedError::PayloadTooLarge`] if and only if its
//! serialized UTF-8 byte length exceeds the configured ceiling.
//!
//! One configuration value is shared by the document-chunk call site and
//! the query call site, so both are embedded under the same model by
//! construction.

use vstd::prelude::*;

use vstd::utf8::encode_utf8;

use crate::text::{byte_len, chars_to_string, string_to_chars};

verus! {

/// Why an embedding call failed.
#[derive(Debug)]
pub enum EmbedError {
    /// The serialized request would exceed the provider's payload ceiling;
    /// found by the local pre-flight check, never by a failed remote call.
    PayloadTooLarge { size: usize, limit: usize },
    /// The remote call returned a non-success status; the raw body is kept
    /// for diagnostics.  A timeout is reported the same way.
    Provider { status: u16, body: String },
    /// The response could not be parsed into the expected vector shape.
    Deserialization { detail: String },
}

/// The provider configuration shared by every embedding call of a
/// pipeline: the model identifier and the request payload ceiling in
/// bytes.
pub struct EmbedConfig {
    pub model: String,
    pub payload_limit: usize,
}

impl EmbedConfig {
    pub fn new(model: String, payload_limit: usize) -> (r: EmbedConfig)
        ensures
            r.model@ == model@,
            r.payload_limit == payload_limit,
    {
        EmbedConfig { model, payload_limit }
    }
}

/// The lower-case hexadecimal digit for `n < 16`.
pub open spec fn hex_digit(n: int) -> char {
    if n < 10 {
        ((48 + n) as u8) as char
    } else {
        ((87 + n) as u8) as char
    }
}

/// How one character appears inside a JSON string literal: quote and
/// backslash escaped, the named control characters by letter, the other
/// control characters as `\u00XX`, everything else as itself.
pub open spec fn json_escape_char(c: char) -> Seq<char> {
    if c == '"' {
        seq!['\\', '"']
    } else if c == '\\' {
        seq!['\\', '\\']
    } else if c == '\u{8}' {
        seq!['\\', 'b']
    } else if c == '\u{c}' {
        seq!['\\', 'f']
    } else if c == '\n' {
        seq!['\\', 'n']
    } else if c == '\r' {
        seq!['\\', 'r']
    } else if c == '\t' {
        seq!['\\', 't']
    } else if (c as u32) < 32 {
        seq!['\\', 'u', '0', '0', hex_digit((c as u32) as int / 16), hex_digit(
            (c as u32) as int % 16,
        )]
    } else {
        seq![c]
    }
}

/// A character sequence escaped for use inside a JSON string literal.
pub open spec fn json_escape(s: Seq<char>) -> Seq<char>
    decreases s.len(),
{
    if s.len() == 0 {
        Seq::empty()
    } else {
        json_escape(s.drop_last()) + json_escape_char(s.last())
    }
}

/// The exact request body for one embedding call: the JSON envelope the
/// provider expects, around the escaped model identifier and text.
pub open spec fn spec_embed_request(model: Seq<char>, text: Seq<char>) -> Seq<char> {
    "{\"model\":\""@ + json_escape(model) + "\",\"content\":{\"parts\":[{\"text\":\""@
        + json_escape(text) + "\"}]}}"@
}

/// The serialized size of the request, in UTF-8 bytes.
pub open spec fn spec_payload_size(model: Seq<char>, text: Seq<char>) -> int {
    encode_utf8(spec_embed_request(model, text)).len() as int
}

pub fn hex_digit_exec(n: u32) -> (r: char)
    requires
        n < 16,
    ensures
        r == hex_digit(n as int),
{
    if n < 10 {
        (48 + n as u8) as char
    } else {
        (87 + (n as u8 - 10) + 10) as char
    }
}

/// Escapes a character sequence for a JSON string literal.
fn json_escape_exec(s: &Vec<char>) -> (r: Vec<char>)
    ensures
        r@ == json_escape(s@),
{
    let mut out: Vec<char> = Vec::new();
    let mut i: usize = 0;
    proof {
        assert(s@.take(0) =~= Seq::<char>::empty());
        assert(json_escape(s@.take(0)) =~= Seq::<char>::empty());
    }
    while i < s.len()
        invariant
            0 <= i <= s@.len(),
            out@ == json_escape(s@.take(i as int)),
        decreases s@.len() - i,
    {
        let c = s[i];
        let ghost pre = out@;
        if c == '"' {
            out.push('\\');
            out.push('"');
        } else if c == '\\' {
            out.push('\\');
            out.push('\\');
        } else if c == '\u{8}' {
            out.push('\\');
            out.push('b');
        } else if c == '\u{c}' {
            out.push('\\');
            out.push('f');
        } else if c == '\n' {
            out.push('\\');
            out.push('n');
        } else if c == '\r' {
            out.push('\\');
            out.push('r');
        } else if c == '\t' {
            out.push('\\');
            out.push('t');
        } else if (c as u32) < 32 {
            let u = c as u32;
            out.push('\\');
            out.push('u');
            out.push('0');
            out.push('0');
            out.push(hex_digit_exec(u / 16));
            out.push(hex_digit_exec(u % 16));
        } else {
            out.push(c);
        }
        proof {
            assert(out@ =~= pre + json_escape_char(s@[i as int]));
            assert(s@.take(i + 1 as int).drop_last() =~= s@.take(i as int));
            assert(s@.take(i + 1 as int).last() == s@[i as int]);
        }
        i = i + 1;
    }
    proof {
        assert(s@.take(s@.len() as int) =~= s@);
    }
    out
}

/// Builds the serialized request body for embedding `text` under `config`,
/// enforcing the payload guard: the body is returned exactly when its
/// serialized size is within the ceiling, and otherwise the call is
/// rejected locally with the exact offending size.
pub fn build_embed_request(config: &EmbedConfig, text: &str) -> (r: Result<String, EmbedError>)
    ensures
        r is Ok <==> spec_payload_size(config.model@, text@) <= config.payload_limit,
        r matches Ok(s) ==> s@ == spec_embed_request(config.model@, text@),
        r matches Err(e) ==> (e matches EmbedError::PayloadTooLarge { size, limit } && limit
            == config.payload_limit && size == spec_payload_size(config.model@, text@) && size
            > limit),
{
    let model_chars = string_to_chars(config.model.as_str());
    let text_chars = string_to_chars(text);
    let escaped_model = chars_to_string(&json_escape_exec(&model_chars));
    let escaped_text = chars_to_string(&json_escape_exec(&text_chars));
    let mut body = String::new();
    body.append("{\"model\":\"");
    body.append(escaped_model.as_str());
    body.append("\",\"content\":{\"parts\":[{\"text\":\"");
    body.append(escaped_text.as_str());
    body.append("\"}]}}");
    proof {
        assert(body@ =~= spec_embed_request(config.model@, text@));
    }
    let size = byte_len(body.as_str());
    proof {
        assert(body@ == spec_embed_request(config.model@, text@));
        assert(size as int == spec_payload_size(config.model@, text@));
    }
    if size > config.payload_limit {
        Err(EmbedError::PayloadTooLarge { size, limit: config.payload_limit })
    } else {
        Ok(body)
    }
}

} // verus!
