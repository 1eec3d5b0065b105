//! Session identifiers: flat, safe names that never carry path components.

use vstd::prelude::*;

verus! {

/// Characters a session id may hold: ASCII letters, digits, `-` and `_`.
pub open spec fn is_id_char(c: char) -> bool {
    ||| ('a' as u32) <= (c as u32) && (c as u32) <= ('z' as u32)
    ||| ('A' as u32) <= (c as u32) && (c as u32) <= ('Z' as u32)
    ||| ('0' as u32) <= (c as u32) && (c as u32) <= ('9' as u32)
    ||| c == '-'
    ||| c == '_'
}

/// A valid session id: 1 to 128 characters, each an [`is_id_char`].
pub open spec fn valid_session_id(s: Seq<char>) -> bool {
    &&& 0 < s.len() <= 128
    &&& forall|i: int| 0 <= i < s.len() ==> is_id_char(#[trigger] s[i])
}

fn id_char_ok(c: char) -> (r: bool)
    ensures
        r == is_id_char(c),
{
    let u = c as u32;
    ('a' as u32 <= u && u <= 'z' as u32) || ('A' as u32 <= u && u <= 'Z' as u32) || ('0' as u32
        <= u && u <= '9' as u32) || c == '-' || c == '_'
}

/// A session id must be a flat, safe identifier: non-empty, ASCII
/// alphanumeric plus `-`/`_` only, at most 128 characters. Rejects `/`, `\`
/// and `..`, so an id from untrusted input can never escape the store root.
pub fn is_valid_session_id(id: &str) -> (r: bool)
    ensures
        r == valid_session_id(id@),
{
    let n = id.unicode_len();
    if n == 0 || n > 128 {
        return false;
    }
    let mut i: usize = 0;
    while i < n
        invariant
            n == id@.len(),
            0 <= i <= n,
            forall|j: int| 0 <= j < i ==> is_id_char(#[trigger] id@[j]),
        decreases n - i,
    {
        let c = id.get_char(i);
        if !id_char_ok(c) {
            return false;
        }
        i = i + 1;
    }
    true
}

/// A valid session id holds no path separator and is never `.` or `..`:
/// joined under a store root it names a direct child of that root.
pub proof fn lemma_valid_id_is_flat(s: Seq<char>)
    requires
        valid_session_id(s),
    ensures
        forall|i: int| 0 <= i < s.len() ==> #[trigger] s[i] != '/' && s[i] != '\\' && s[i] != '.',
        s != seq!['.'],
        s != seq!['.', '.'],
{
    if s == seq!['.'] {
        assert(is_id_char(s[0]));
    }
    if s == seq!['.', '.'] {
        assert(is_id_char(s[0]));
    }
}

} // verus!
