//! Trigger detection: does a message contain the literal token "leet" as a
//! whole word, case-insensitively? A match must not be immediately preceded
//! or followed by an ASCII letter, so "leetcode" and "fleet" do not match
//! while "1337-leet!" does.
//!
//! The classifier works on the UTF-8 bytes of the message. Every byte of a
//! non-ASCII character is at least 0x80 and therefore never an ASCII
//! letter, so byte-level word boundaries agree with character-level ones.

use vstd::prelude::*;

verus! {

use vstd::string::StringSliceAdditionalSpecFns;

/// An ASCII letter, upper or lower case.
pub open spec fn is_ascii_letter(b: u8) -> bool {
    ('a' as u8) <= b <= ('z' as u8) || ('A' as u8) <= b <= ('Z' as u8)
}

/// ASCII lower-casing of a single byte; other bytes are unchanged.
pub open spec fn lower_byte(b: u8) -> u8 {
    if ('A' as u8) <= b <= ('Z' as u8) {
        (b + 32) as u8
    } else {
        b
    }
}

/// The four bytes starting at `i` spell "leet" (any case) and stand on
/// word boundaries: no ASCII letter immediately before or after.
pub open spec fn leet_at(s: Seq<u8>, i: int) -> bool {
    &&& 0 <= i
    &&& i + 4 <= s.len()
    &&& lower_byte(s[i]) == 'l' as u8
    &&& lower_byte(s[i + 1]) == 'e' as u8
    &&& lower_byte(s[i + 2]) == 'e' as u8
    &&& lower_byte(s[i + 3]) == 't' as u8
    &&& (i == 0 || !is_ascii_letter(s[i - 1]))
    &&& (i + 4 == s.len() || !is_ascii_letter(s[i + 4]))
}

/// The message contains "leet" as a whole word, case-insensitively.
pub open spec fn spec_is_leet(s: Seq<u8>) -> bool {
    exists|i: int| leet_at(s, i)
}

fn exec_is_ascii_letter(b: u8) -> (r: bool)
    ensures
        r == is_ascii_letter(b),
{
    ('a' as u8) <= b && b <= ('z' as u8) || ('A' as u8) <= b && b <= ('Z' as u8)
}

fn exec_lower_byte(b: u8) -> (r: u8)
    ensures
        r == lower_byte(b),
{
    if ('A' as u8) <= b && b <= ('Z' as u8) {
        b + 32
    } else {
        b
    }
}

/// Whether the word "leet" occurs at position `i` of `b`, on word
/// boundaries.
fn leet_at_pos(b: &[u8], i: usize) -> (r: bool)
    requires
        i + 4 <= b@.len(),
    ensures
        r == leet_at(b@, i as int),
{
    exec_lower_byte(b[i]) == 'l' as u8 && exec_lower_byte(b[i + 1]) == 'e' as u8
        && exec_lower_byte(b[i + 2]) == 'e' as u8 && exec_lower_byte(b[i + 3]) == 't' as u8 && (i
        == 0 || !exec_is_ascii_letter(b[i - 1])) && (i + 4 == b.len() || !exec_is_ascii_letter(
        b[i + 4],
    ))
}

/// Case-insensitive whole-word detection of the trigger token "leet" in a
/// message, over the message's UTF-8 bytes. Cheap pre-filter: pure, no
/// allocation, safe to run on every inbound message.
pub fn is_leet_message(message: &str) -> (r: bool)
    ensures
        r == spec_is_leet(message.spec_bytes()),
{
    let b: &[u8] = message.as_bytes();
    let n: usize = b.len();
    if n < 4 {
        return false;
    }
    let mut i: usize = 0;
    while i <= n - 4
        invariant
            b@ == message.spec_bytes(),
            n == b@.len(),
            4 <= n,
            i <= n - 3,
            forall|j: int| 0 <= j < i ==> !leet_at(b@, j),
        decreases n - i,
    {
        if leet_at_pos(b, i) {
            return true;
        }
        i += 1;
    }
    false
}

} // verus!
