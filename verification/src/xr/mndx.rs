//! Text fields of the MNDX device properties: fixed-size byte buffers holding
//! a NUL-terminated string.

use vstd::prelude::*;
use vstd::utf8::{decode_utf8, valid_utf8};

verus! {

/// What `String::from_utf8_lossy` makes of `bytes`.
pub uninterp spec fn utf8_lossy(bytes: Seq<u8>) -> Seq<char>;

/// Calls `String::from_utf8_lossy` and takes the result as an owned string.
/// Its result is named by `utf8_lossy`; valid UTF-8 is decoded unchanged.
#[verifier::external_body]
fn from_utf8_lossy(bytes: &[u8]) -> (s: String)
    ensures
        s@ == utf8_lossy(bytes@),
        valid_utf8(bytes@) ==> s@ == decode_utf8(bytes@),
{
    String::from_utf8_lossy(bytes).into_owned()
}

/// Position of the first NUL byte, if any.
pub open spec fn first_nul(bytes: Seq<u8>, n: int) -> bool {
    0 <= n < bytes.len() && bytes[n] == 0 && forall|j: int| 0 <= j < n ==> #[trigger] bytes[j] != 0
}

/// The text of a NUL-terminated field: the bytes before the first NUL,
/// decoded with invalid sequences replaced.  `None` when there is no NUL.
pub fn text_until_nul(bytes: &[u8]) -> (r: Option<String>)
    ensures
        match r {
            Some(s) => exists|n: int| #[trigger] first_nul(bytes@, n) && s@ == utf8_lossy(bytes@.take(n)),
            None => forall|j: int| 0 <= j < bytes@.len() ==> #[trigger] bytes@[j] != 0,
        },
{
    let mut prefix: Vec<u8> = Vec::new();
    let mut i: usize = 0;
    while i < bytes.len()
        invariant
            i <= bytes@.len(),
            prefix@ == bytes@.take(i as int),
            forall|j: int| 0 <= j < i ==> #[trigger] bytes@[j] != 0,
        decreases bytes@.len() - i,
    {
        if bytes[i] == 0 {
            let s = from_utf8_lossy(prefix.as_slice());
            proof {
                assert(first_nul(bytes@, i as int));
            }
            return Some(s);
        }
        prefix.push(bytes[i]);
        proof {
            assert(bytes@.take(i as int + 1) =~= bytes@.take(i as int).push(bytes@[i as int]));
        }
        i = i + 1;
    }
    None
}

} // verus!
