//! Frame classifier: an inbound message is either a control frame (pure
//! text: a header block, optionally followed by a body after the first blank
//! line `\r\n\r\n`) or a data frame (binary: a 2-byte big-endian header
//! length `L`, then `L` bytes of header-block text, then raw payload bytes).
//! A binary frame shorter than `L + 2` bytes is malformed and carries
//! nothing.

use vstd::prelude::*;
use vstd::slice::slice_subrange;
use vstd::slice::slice_to_vec;
use vstd::string::StrSliceExecFns;
use crate::headers::first_match;
use crate::headers::lemma_first_match_is;
use crate::headers::lemma_first_match_none;
use crate::headers::lemma_first_match;
use crate::headers::match_at;

verus! {

/// The blank-line terminator that ends the header block of a text frame.
pub open spec fn blank_pat() -> Seq<char> {
    seq!['\r', '\n', '\r', '\n']
}

/// The header block of a text frame: everything before the first blank
/// line, or the whole message when it has none.
pub open spec fn text_header_of(s: Seq<char>) -> Seq<char> {
    let i = first_match(s, blank_pat());
    if 0 <= i <= s.len() {
        s.subrange(0, i)
    } else {
        s
    }
}

/// The header length prefix of a binary frame (unsigned big-endian, from
/// the first two bytes).
pub open spec fn bin_header_len(d: Seq<u8>) -> int {
    (d[0] as int) * 256 + (d[1] as int)
}

/// A binary frame is well formed when it is long enough to hold its length
/// prefix and the header block the prefix announces.
pub open spec fn bin_wf(d: Seq<u8>) -> bool {
    d.len() >= 2 && d.len() >= bin_header_len(d) + 2
}

/// The header-block bytes of a well-formed binary frame.
pub open spec fn bin_header_bytes(d: Seq<u8>) -> Seq<u8> {
    d.subrange(2, bin_header_len(d) + 2)
}

/// The payload bytes of a well-formed binary frame.
pub open spec fn bin_payload(d: Seq<u8>) -> Seq<u8> {
    d.subrange(bin_header_len(d) + 2, d.len() as int)
}

/// What `String::from_utf8_lossy` makes of a byte sequence: a function of
/// the bytes alone.
pub uninterp spec fn utf8_lossy_of(b: Seq<u8>) -> Seq<char>;

/// Relies on `String::from_utf8_lossy`: the decoding depends on the bytes
/// alone.
#[verifier::external_body]
fn utf8_lossy(b: &[u8]) -> (r: String)
    ensures
        r@ == utf8_lossy_of(b@),
{
    String::from_utf8_lossy(b).into_owned()
}

/// Find the first blank line of a text frame, if any.
fn find_blank(s: &str) -> (r: Option<usize>)
    ensures
        match r {
            Some(i) => first_match(s@, blank_pat()) == i as int,
            None => first_match(s@, blank_pat()) == -1,
        },
{
    let n = s.unicode_len();
    if n < 4 {
        proof {
            lemma_first_match(s@, blank_pat());
            assert forall|j: int| !match_at(s@, blank_pat(), j) by {
                if 0 <= j {
                    assert(j + blank_pat().len() > s@.len());
                }
            }
        }
        return None;
    }
    let mut i: usize = 0;
    while i < n - 3
        invariant
            n == s@.len(),
            4 <= n,
            0 <= i <= n - 3,
            forall|j: int| 0 <= j < i ==> !match_at(s@, blank_pat(), j),
        decreases n - i,
    {
        if s.get_char(i) == '\r' && s.get_char(i + 1) == '\n' && s.get_char(i + 2) == '\r'
            && s.get_char(i + 3) == '\n' {
            proof {
                assert(s@.subrange(i as int, i + 4) =~= blank_pat());
                lemma_first_match_is(s@, blank_pat(), i as int);
            }
            return Some(i);
        }
        proof {
            assert forall|j: int| 0 <= j <= i implies !match_at(s@, blank_pat(), j) by {
                if j == i {
                    if match_at(s@, blank_pat(), j) {
                        assert(s@.subrange(j, j + 4)[0] == '\r');
                        assert(s@.subrange(j, j + 4)[1] == '\n');
                        assert(s@.subrange(j, j + 4)[2] == '\r');
                        assert(s@.subrange(j, j + 4)[3] == '\n');
                    }
                }
            }
        }
        i = i + 1;
    }
    proof {
        assert forall|j: int| !match_at(s@, blank_pat(), j) by {
            if 0 <= j && j + 4 <= s@.len() {
                assert(j < n - 3);
            }
        }
        lemma_first_match_none(s@, blank_pat());
    }
    None
}

/// The header block of a text control frame: everything before the first
/// blank line, or the whole message when it has none.  The text after the
/// blank line is the frame's body, unused by this protocol core.
pub fn text_header_block(s: &str) -> (h: &str)
    ensures
        h@ == text_header_of(s@),
{
    match find_blank(s) {
        Some(i) => {
            proof {
                lemma_first_match(s@, blank_pat());
            }
            s.substring_char(0, i)
        },
        None => s,
    }
}

/// The header block of a binary data frame, decoded to text, together with
/// its payload bytes; `None` when the frame is shorter than its length
/// prefix announces (such a frame is malformed and is ignored).
pub fn split_binary_frame(d: &[u8]) -> (r: Option<(String, Vec<u8>)>)
    ensures
        match r {
            Some(p) => bin_wf(d@) && p.0@ == utf8_lossy_of(bin_header_bytes(d@)) && p.1@
                == bin_payload(d@),
            None => !bin_wf(d@),
        },
{
    if d.len() < 2 {
        return None;
    }
    let l: usize = (d[0] as usize) * 256 + (d[1] as usize);
    if d.len() >= l + 2 {
        let header = utf8_lossy(slice_subrange(d, 2, l + 2));
        let payload = slice_to_vec(slice_subrange(d, l + 2, d.len()));
        Some((header, payload))
    } else {
        None
    }
}

} // verus!
