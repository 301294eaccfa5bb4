//! The origins a CORS policy allows, from a comma-separated setting.
use vstd::prelude::*;
use crate::text::{str_trim, trimmed};

verus! {

/// Whether bytes may form an HTTP header value: each is visible (32 or
/// more, but not DEL) or a tab.
pub open spec fn header_bytes_valid(bytes: Seq<u8>) -> bool {
    forall|i: int| 0 <= i < bytes.len() ==> ((#[trigger] bytes[i]) >= 32 && bytes[i] != 127) || bytes[i] == 9
}

/// `HeaderValue::from_str` of the http crate (through axum), succeeding.
///
/// Trusted: http accepts a string exactly when every one of its bytes is
/// at least 32 and not 127, or is a tab.
#[verifier::external_body]
fn parses_as_header_value(s: &str) -> (r: bool)
    ensures
        r == header_bytes_valid(vstd::utf8::encode_utf8(s@)),
{
    s.parse::<axum::http::HeaderValue>().is_ok()
}

/// The piece, trimmed, when it is a valid header value; nothing otherwise.
pub open spec fn kept_origin(piece: Seq<char>) -> Seq<Seq<char>> {
    if header_bytes_valid(vstd::utf8::encode_utf8(trimmed(piece))) {
        seq![trimmed(piece)]
    } else {
        Seq::empty()
    }
}

/// The kept origins of `s` from position `i` on, the current piece having
/// begun at `start`.
pub open spec fn origins_from(s: Seq<char>, start: int, i: int) -> Seq<Seq<char>>
    decreases s.len() - i,
{
    if i >= s.len() {
        kept_origin(s.subrange(start, s.len() as int))
    } else if s[i] == ',' {
        kept_origin(s.subrange(start, i)) + origins_from(s, i + 1, i + 1)
    } else {
        origins_from(s, start, i + 1)
    }
}

/// The origins a setting allows: its comma-separated pieces, trimmed,
/// that are valid header values, in order.
pub open spec fn allowed_origins(setting: Seq<char>) -> Seq<Seq<char>> {
    origins_from(setting, 0, 0)
}

/// The origins allowed by the `ALLOWED_ORIGINS` setting: `None` for an
/// empty setting (no CORS policy is configured), otherwise its
/// comma-separated pieces, trimmed, that are valid header values.
pub fn cors_allowed_origins(setting: &str) -> (r: Option<Vec<String>>)
    ensures
        setting@.len() == 0 ==> r is None,
        setting@.len() > 0 ==> (r matches Some(v) && v@.map_values(|o: String| o@) == allowed_origins(
            setting@,
        )),
{
    let n = setting.unicode_len();
    if n == 0 {
        return None;
    }
    let ghost s = setting@;
    let mut out: Vec<String> = Vec::new();
    let mut start: usize = 0;
    let mut i: usize = 0;
    while i < n
        invariant
            s == setting@,
            n == s.len(),
            start <= i <= n,
            allowed_origins(s) == out@.map_values(|o: String| o@) + origins_from(
                s,
                start as int,
                i as int,
            ),
        decreases n - i,
    {
        if setting.get_char(i) == ',' {
            let piece = setting.substring_char(start, i);
            let ghost before = out@.map_values(|o: String| o@);
            let t = str_trim(piece);
            if parses_as_header_value(t) {
                out.push(String::from_str(t));
            }
            proof {
                assert(out@.map_values(|o: String| o@) =~= before + kept_origin(s.subrange(start as int, i as int)));
            }
            start = i + 1;
            i = i + 1;
        } else {
            i = i + 1;
        }
    }
    let piece = setting.substring_char(start, n);
    let ghost before = out@.map_values(|o: String| o@);
    let t = str_trim(piece);
    if parses_as_header_value(t) {
        out.push(String::from_str(t));
    }
    proof {
        assert(out@.map_values(|o: String| o@) =~= before + kept_origin(s.subrange(start as int, n as int)));
        assert(allowed_origins(s) =~= out@.map_values(|o: String| o@));
    }
    Some(out)
}

} // verus!
