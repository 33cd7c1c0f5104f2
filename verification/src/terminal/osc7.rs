//! The working directory as a shell reports it: `file://host/path` with percent escapes.

use vstd::prelude::*;

use crate::path::{slice_copy, FsPath};

verus! {

/// The byte `%`.
pub const PERCENT: u8 = 37;

/// The value of a hexadecimal digit.
pub open spec fn hex_digit(byte: u8) -> Option<u8> {
    if 48 <= byte <= 57 {
        Some((byte - 48) as u8)
    } else if 97 <= byte <= 102 {
        Some((byte - 87) as u8)
    } else if 65 <= byte <= 70 {
        Some((byte - 55) as u8)
    } else {
        None
    }
}

/// Whether some bytes start with a percent sign and two hexadecimal digits.
pub open spec fn is_escape(s: Seq<u8>) -> bool {
    s.len() > 2 && s[0] == PERCENT && hex_digit(s[1]) is Some && hex_digit(s[2]) is Some
}

/// The bytes with every escape replaced by the byte that it stands for.
pub open spec fn percent_decoded(s: Seq<u8>) -> Seq<u8>
    decreases s.len(),
{
    if s.len() == 0 {
        Seq::empty()
    } else if is_escape(s) {
        seq![(hex_digit(s[1])->0 * 16 + hex_digit(s[2])->0) as u8] + percent_decoded(s.skip(3))
    } else {
        seq![s[0]] + percent_decoded(s.skip(1))
    }
}

/// The bytes `file://`.
pub open spec fn file_scheme() -> Seq<u8> {
    seq![102u8, 105u8, 108u8, 101u8, 58u8, 47u8, 47u8]
}

/// The path that a file URL names: what stands from the first slash behind the host on, decoded.
pub open spec fn url_path(url: Seq<u8>) -> Option<Seq<u8>> {
    let slash = crate::path::segment_end(url, 7);
    if file_scheme().is_prefix_of(url) && slash < url.len() {
        Some(percent_decoded(url.skip(slash)))
    } else {
        None
    }
}

/// The value of a hexadecimal digit.
pub fn hex_value(byte: u8) -> (r: Option<u8>)
    ensures
        r == hex_digit(byte),
        r matches Some(v) ==> v < 16,
{
    if 48 <= byte && byte <= 57 {
        Some(byte - 48)
    } else if 97 <= byte && byte <= 102 {
        Some(byte - 87)
    } else if 65 <= byte && byte <= 70 {
        Some(byte - 55)
    } else {
        None
    }
}

/// Replaces every escape by the byte that it stands for.
pub fn percent_decode(s: &[u8]) -> (r: Vec<u8>)
    ensures
        r@ == percent_decoded(s@),
{
    let mut out: Vec<u8> = Vec::new();
    let mut i: usize = 0;
    assert(s@.skip(0) =~= s@);
    assert(out@ + percent_decoded(s@.skip(0)) =~= percent_decoded(s@));
    while i < s.len()
        invariant
            i <= s@.len(),
            out@ + percent_decoded(s@.skip(i as int)) == percent_decoded(s@),
        decreases s@.len() - i,
    {
        let ghost rest = s@.skip(i as int);
        let ghost done = out@;
        if s[i] == PERCENT && s.len() - i > 2 {
            if let (Some(high), Some(low)) = (hex_value(s[i + 1]), hex_value(s[i + 2])) {
                out.push(high * 16 + low);
                i += 3;
                proof {
                    assert(is_escape(rest));
                    assert(rest.skip(3) =~= s@.skip(i as int));
                    assert(out@ + percent_decoded(rest.skip(3)) =~= done + percent_decoded(rest));
                }
                continue ;
            }
        }
        out.push(s[i]);
        i += 1;
        proof {
            assert(!is_escape(rest));
            assert(rest.skip(1) =~= s@.skip(i as int));
            assert(out@ + percent_decoded(rest.skip(1)) =~= done + percent_decoded(rest));
        }
    }
    assert(s@.skip(i as int) =~= Seq::empty());
    assert(out@ + Seq::<u8>::empty() =~= out@);
    out
}

/// Whether some bytes start with `file://`.
fn has_file_scheme(url: &[u8]) -> (r: bool)
    ensures
        r == file_scheme().is_prefix_of(url@),
{
    let r = url.len() >= 7 && url[0] == 102 && url[1] == 105 && url[2] == 108 && url[3] == 101
        && url[4] == 58 && url[5] == 47 && url[6] == 47;
    proof {
        if r {
            assert(url@.subrange(0, 7) =~= file_scheme());
        } else if file_scheme().is_prefix_of(url@) {
            let head = url@.subrange(0, 7);
            assert(head == file_scheme());
            assert(forall|k: int| 0 <= k < 7 ==> url@[k] == head[k]);
        }
    }
    r
}

/// The path that a file URL names.
pub fn parse_osc7_path(url: &str) -> (r: Option<FsPath>)
    ensures
        match r {
            Some(p) => url_path(vstd::utf8::encode_utf8(url@)) == Some(p@),
            None => url_path(vstd::utf8::encode_utf8(url@)) is None,
        },
{
    let bytes = url.as_bytes();
    if !has_file_scheme(bytes) {
        return None;
    }
    let mut start: usize = 7;
    while start < bytes.len() && bytes[start] != crate::path::SLASH
        invariant
            7 <= start <= bytes@.len(),
            crate::path::segment_end(bytes@, 7) == crate::path::segment_end(bytes@, start as int),
        decreases bytes@.len() - start,
    {
        start += 1;
    }
    if start == bytes.len() {
        return None;
    }
    let n = bytes.len();
    let encoded = slice_copy(bytes, start, n);
    assert(encoded@ =~= bytes@.skip(start as int));
    Some(FsPath::from_bytes(percent_decode(encoded.as_slice())))
}

/// Bytes without a percent sign stand for themselves.
pub proof fn plain_bytes_decode_to_themselves(s: Seq<u8>)
    requires
        !s.contains(PERCENT),
    ensures
        percent_decoded(s) == s,
    decreases s.len(),
{
    if s.len() > 0 {
        assert(s[0] != PERCENT);
        assert(!s.skip(1).contains(PERCENT)) by {
            assert forall|k: int| 0 <= k < s.skip(1).len() implies s.skip(1)[k] != PERCENT by {
                assert(s.skip(1)[k] == s[k + 1]);
            }
        }
        plain_bytes_decode_to_themselves(s.skip(1));
        assert(seq![s[0]] + s.skip(1) =~= s);
    }
}

/// Decoding never makes the bytes longer.
pub proof fn decoding_does_not_lengthen(s: Seq<u8>)
    ensures
        percent_decoded(s).len() <= s.len(),
    decreases s.len(),
{
    if s.len() > 0 {
        if is_escape(s) {
            decoding_does_not_lengthen(s.skip(3));
        } else {
            decoding_does_not_lengthen(s.skip(1));
        }
    }
}

} // verus!
