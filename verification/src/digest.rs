//! Digests and the event identifiers made from them.

use sha2::{Digest, Sha256};
use vstd::prelude::*;

use crate::text::{concat, is_digit};

verus! {

/// Whether a text is a SHA-256 digest in lower case hexadecimal.
pub open spec fn is_digest(text: Seq<char>) -> bool {
    &&& text.len() == 64
    &&& forall|i: int|
        0 <= i < text.len() ==> is_digit(#[trigger] text[i]) || 'a' <= text[i] <= 'f'
}

/// The SHA-256 digest of the UTF-8 bytes of a text, in lower case hexadecimal.
pub uninterp spec fn sha256_hex(text: Seq<char>) -> Seq<char>;

/// Calls `Sha256::digest` of the sha2 crate on the bytes of a text and writes the 32 bytes in
/// lower case hexadecimal. The digest itself is left to the name `sha256_hex`.
#[verifier::external_body]
pub(crate) fn digest(value: &str) -> (r: String)
    ensures
        r@ == sha256_hex(value@),
        is_digest(r@),
{
    format!("{:x}", Sha256::digest(value.as_bytes()))
}

/// The identifier of the event of a source.
pub open spec fn uid_of(source_key: Seq<char>) -> Seq<char> {
    sha256_hex("chronatello-uid-v1\n"@ + source_key) + "@chronatello.lomzem.github.io"@
}

/// Whether a text has the shape of an identifier: a digest and the name of the feed.
pub open spec fn is_uid(text: Seq<char>) -> bool {
    &&& text.len() >= 64
    &&& is_digest(text.take(64))
    &&& text.skip(64) == "@chronatello.lomzem.github.io"@
}

/// Makes the identifier of the event of a source.
pub fn uid_for(source_key: &str) -> (r: String)
    ensures
        r@ == uid_of(source_key@),
        is_uid(r@),
{
    let basis: String = concat("chronatello-uid-v1\n", source_key);
    let hash: String = digest(basis.as_str());
    let uid: String = concat(hash.as_str(), "@chronatello.lomzem.github.io");
    assert(uid@.take(64) =~= hash@);
    assert(uid@.skip(64) =~= "@chronatello.lomzem.github.io"@);
    uid
}

/// Identifiers tell sources apart: two are the same exactly where the digests of the two whole
/// sources are, each behind the same word. All end with the name of the feed.
pub proof fn law_identifiers_are_told_apart(source_key: Seq<char>, other: Seq<char>)
    ensures
        uid_of(source_key) == uid_of(other) <==> sha256_hex("chronatello-uid-v1\n"@ + source_key)
            == sha256_hex("chronatello-uid-v1\n"@ + other),
        uid_of(source_key).len() == sha256_hex("chronatello-uid-v1\n"@ + source_key).len() + 29,
        uid_of(source_key).skip(sha256_hex("chronatello-uid-v1\n"@ + source_key).len() as int)
            == "@chronatello.lomzem.github.io"@,
{
    reveal_strlit("@chronatello.lomzem.github.io");
    let name = "@chronatello.lomzem.github.io"@;
    let a = sha256_hex("chronatello-uid-v1\n"@ + source_key);
    let b = sha256_hex("chronatello-uid-v1\n"@ + other);
    assert((a + name).skip(a.len() as int) =~= name);
    if a + name == b + name {
        assert(a.len() == b.len());
        assert(a =~= (a + name).take(a.len() as int));
        assert(b =~= (b + name).take(b.len() as int));
    }
}

} // verus!
