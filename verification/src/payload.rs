use vstd::prelude::*;
use vstd::string::*;
use vstd::utf8::*;
use base64::Engine;

verus! {

/// What the standard base64 alphabet with padding decodes a string to, or
/// `None` where the string is not valid base64. The decoding is a function
/// of the input characters alone.
pub uninterp spec fn b64_decoded(s: Seq<char>) -> Option<Seq<u8>>;

/// Relies on base64's `Engine::decode` with the `STANDARD` engine: the
/// result depends on the input alone; `Ok` exactly where the input is
/// valid standard base64.
#[verifier::external_body]
pub fn base64_decode(s: &str) -> (r: Option<Vec<u8>>)
    ensures
        (r is Some) <==> (b64_decoded(s@) is Some),
        r is Some ==> r->0@ == b64_decoded(s@)->0,
{
    match base64::engine::general_purpose::STANDARD.decode(s) {
        Ok(v) => Some(v),
        Err(_) => None,
    }
}

/// Relies on `String::from_utf8`: `Ok` exactly on valid UTF-8, and the
/// result is the decoding of the bytes.
#[verifier::external_body]
pub fn utf8_to_string(b: &Vec<u8>) -> (r: Option<String>)
    ensures
        (r is Some) <==> valid_utf8(b@),
        r is Some ==> r->0@ == decode_utf8(b@),
{
    match String::from_utf8(b.clone()) {
        Ok(s) => Some(s),
        Err(_) => None,
    }
}

/// How many layers of transport encoding the resolver unwraps at most.
pub const MAX_DECODE_DEPTH: usize = 8;

/// The text that `depth` rounds of unwrapping leave: while the current text
/// is base64 of valid UTF-8, it is replaced by what it decodes to; anything
/// else is already the payload.
pub open spec fn spec_resolve_payload(s: Seq<char>, depth: nat) -> Seq<char>
    decreases depth,
{
    if depth == 0 {
        s
    } else {
        match b64_decoded(s) {
            Option::Some(bytes) => if valid_utf8(bytes) {
                spec_resolve_payload(decode_utf8(bytes), (depth - 1) as nat)
            } else {
                s
            },
            Option::None => s,
        }
    }
}

/// Unwraps up to `MAX_DECODE_DEPTH` layers of base64-encoded text and
/// returns the innermost text. Input that is not base64 of valid UTF-8 is
/// the payload itself and comes back verbatim.
pub fn resolve_payload(input: &str) -> (r: String)
    ensures
        r@ == spec_resolve_payload(input@, MAX_DECODE_DEPTH as nat),
{
    let mut cur = String::from_str(input);
    let mut steps: usize = 0;
    loop
        invariant
            steps <= MAX_DECODE_DEPTH,
            spec_resolve_payload(input@, MAX_DECODE_DEPTH as nat) == spec_resolve_payload(
                cur@,
                (MAX_DECODE_DEPTH - steps) as nat,
            ),
        ensures
            cur@ == spec_resolve_payload(input@, MAX_DECODE_DEPTH as nat),
        decreases MAX_DECODE_DEPTH - steps,
    {
        if steps == MAX_DECODE_DEPTH {
            break ;
        }
        match base64_decode(cur.as_str()) {
            Option::None => {
                break ;
            },
            Option::Some(bytes) => {
                match utf8_to_string(&bytes) {
                    Option::None => {
                        break ;
                    },
                    Option::Some(next) => {
                        cur = next;
                        steps = steps + 1;
                    },
                }
            },
        }
    }
    cur
}

} // verus!
