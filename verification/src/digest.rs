use vstd::prelude::*;

use crate::upload::UploadError;

verus! {

/// Number of hexadecimal characters in a digest string.
pub const DIGEST_LEN: usize = 64;

/// A character is one of the hexadecimal digits accepted in a digest.
pub open spec fn is_hex_char(c: char) -> bool {
    ('0' as u32 <= c as u32 && c as u32 <= '9' as u32) || ('a' as u32 <= c as u32 && c as u32
        <= 'f' as u32) || ('A' as u32 <= c as u32 && c as u32 <= 'F' as u32)
}

/// A character sequence is a well-formed digest: exactly `DIGEST_LEN`
/// hexadecimal characters.
pub open spec fn digest_chars_ok(s: Seq<char>) -> bool {
    s.len() == DIGEST_LEN && (forall|i: int| 0 <= i < s.len() ==> is_hex_char(#[trigger] s[i]))
}

/// An immutable identity string of exactly `DIGEST_LEN` hexadecimal
/// characters, validated at construction. It names either a problem
/// instance or the canonical content of a solution.
#[derive(Debug, Hash)]
pub struct Digest {
    hex: String,
}

impl View for Digest {
    type V = Seq<char>;

    closed spec fn view(&self) -> Seq<char> {
        self.hex@
    }
}

/// Decides hexness of one character, in executable code.
fn is_hex_char_exec(c: char) -> (r: bool)
    ensures
        r == is_hex_char(c),
{
    let u = c as u32;
    ('0' as u32 <= u && u <= '9' as u32) || ('a' as u32 <= u && u <= 'f' as u32) || ('A' as u32 <= u
        && u <= 'F' as u32)
}

impl Digest {
    /// Every digest value is well formed: construction validates it.
    pub open spec fn wf(&self) -> bool {
        digest_chars_ok(self@)
    }

    /// Validates and wraps a raw string. Succeeds exactly on strings of
    /// `DIGEST_LEN` hexadecimal characters; everything else is rejected
    /// with `InvalidDigest`.
    pub fn parse(raw: &str) -> (r: Result<Digest, UploadError>)
        ensures
            r matches Ok(d) ==> d@ == raw@ && d.wf(),
            r is Ok <==> digest_chars_ok(raw@),
            r matches Err(e) ==> e == UploadError::InvalidDigest,
    {
        let n = raw.unicode_len();
        if n != DIGEST_LEN {
            return Err(UploadError::InvalidDigest);
        }
        let mut i: usize = 0;
        while i < n
            invariant
                n == raw@.len(),
                i <= n,
                forall|j: int| 0 <= j < i ==> is_hex_char(#[trigger] raw@[j]),
            decreases n - i,
        {
            if !is_hex_char_exec(raw.get_char(i)) {
                return Err(UploadError::InvalidDigest);
            }
            i += 1;
        }
        Ok(Digest { hex: raw.to_owned() })
    }

    /// The digest as a string slice.
    pub fn as_str(&self) -> (r: &str)
        ensures
            r@ == self@,
    {
        self.hex.as_str()
    }
}

impl Clone for Digest {
    fn clone(&self) -> (r: Self)
        ensures
            r == *self,
    {
        Digest { hex: self.hex.clone() }
    }
}

impl PartialEq for Digest {
    fn eq(&self, other: &Self) -> (r: bool) {
        self.hex == other.hex
    }
}

impl Eq for Digest {

}

impl vstd::std_specs::cmp::PartialEqSpecImpl for Digest {
    open spec fn obeys_eq_spec() -> bool {
        true
    }

    open spec fn eq_spec(&self, other: &Self) -> bool {
        self@ == other@
    }
}

} // verus!
