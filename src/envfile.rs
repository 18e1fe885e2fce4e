//! Setting one `KEY=value` line in the text of a dotenv file.
use vstd::prelude::*;
use vstd::string::StringSliceAdditionalSpecFns;
use vstd::utf8::{decode_utf8, encode_utf8, is_char_boundary};

verus! {

#[derive(Debug, Clone, Copy, PartialEq, Eq, Structural)]
pub enum EnvError {
    /// The key does not make a valid line pattern.
    InvalidKey,
}

/// Whether `pattern` is a valid regular expression.
pub uninterp spec fn pattern_valid(pattern: Seq<char>) -> bool;

/// The byte span of the leftmost-first match of `pattern` in `text`.
pub uninterp spec fn first_match_span(pattern: Seq<char>, text: Seq<char>) -> Option<(int, int)>;

/// Relies on `regex::Regex::new` (an error exactly for an invalid pattern)
/// and `Regex::find` (the span of the first match, whose ends fall on
/// character boundaries of the text).
#[verifier::external_body]
fn search(pattern: &str, text: &str) -> (r: Option<Option<(usize, usize)>>)
    ensures
        r is Some <==> pattern_valid(pattern@),
        r matches Some(m) ==> match m {
            Some(span) => first_match_span(pattern@, text@) == Some((span.0 as int, span.1 as int))
                && span.0 <= span.1 <= text.spec_bytes().len() && is_char_boundary(
                text.spec_bytes(),
                span.0 as int,
            ) && is_char_boundary(text.spec_bytes(), span.1 as int),
            None => first_match_span(pattern@, text@) is None,
        },
{
    match regex::Regex::new(pattern) {
        Ok(re) => Some(re.find(text).map(|m| (m.start(), m.end()))),
        Err(_) => None,
    }
}

/// The pattern of a whole line that starts with `<key>=`, in multi-line mode.
pub open spec fn key_pattern(key: Seq<char>) -> Seq<char> {
    "(?m)^"@ + key + "=.*$"@
}

fn key_line_pattern(key: &str) -> (r: String)
    ensures
        r@ == key_pattern(key@),
{
    let r = "(?m)^".to_owned().concat(key).concat("=.*$");
    assert(r@ =~= key_pattern(key@));
    r
}

/// The text with its bytes `s..e` replaced by `line`.
pub open spec fn spliced(text: Seq<u8>, s: int, e: int, line: Seq<char>) -> Seq<char> {
    decode_utf8(text.subrange(0, s)) + line + decode_utf8(text.subrange(e, text.len() as int))
}

/// The text of a dotenv file with `key=value` set: the first line for the key
/// is replaced, or the line is appended after a newline when there is none.
pub fn update_env_content(content: &str, key: &str, value: &str) -> (r: Result<String, EnvError>)
    ensures
        r is Ok <==> pattern_valid(key_pattern(key@)),
        r matches Ok(out) ==> match first_match_span(key_pattern(key@), content@) {
            Some(span) => out@ == spliced(content.spec_bytes(), span.0, span.1, key@ + "="@ + value@),
            None => out@ == content@ + "\n"@ + key@ + "="@ + value@,
        },
{
    let pattern = key_line_pattern(key);
    let found = match search(pattern.as_str(), content) {
        Some(found) => found,
        None => return Err(EnvError::InvalidKey),
    };
    let line = key.to_owned().concat("=").concat(value);
    match found {
        Some((s, e)) => {
            let (head, rest) = content.split_at(s);
            proof {
                let b = content.spec_bytes();
                let rb = rest.spec_bytes();
                vstd::utf8::encode_utf8_valid_utf8(content@);
                vstd::utf8::encode_utf8_valid_utf8(rest@);
                assert(rb =~= b.subrange(s as int, b.len() as int));
                if (e - s) as int == rb.len() {
                    vstd::utf8::is_char_boundary_start_end_of_seq(rb);
                } else {
                    vstd::utf8::is_char_boundary_iff_not_is_continuation_byte(b, e as int);
                    vstd::utf8::is_char_boundary_iff_not_is_continuation_byte(rb, (e - s) as int);
                    assert(rb[(e - s) as int] == b[e as int]);
                }
            }
            let (_, tail) = rest.split_at(e - s);
            let out = head.to_owned().concat(line.as_str()).concat(tail);
            proof {
                let b = content.spec_bytes();
                vstd::utf8::encode_utf8_decode_utf8(head@);
                vstd::utf8::encode_utf8_decode_utf8(tail@);
                assert(tail.spec_bytes() =~= b.subrange(e as int, b.len() as int));
                assert(out@ == spliced(b, s as int, e as int, key@ + "="@ + value@));
            }
            Ok(out)
        },
        None => {
            let out = content.to_owned().concat("\n").concat(line.as_str());
            proof {
                assert(out@ =~= content@ + "\n"@ + key@ + "="@ + value@);
            }
            Ok(out)
        },
    }
}

} // verus!
