//! Locating the word a text cursor touches, for definition, hover and
//! rename requests.

use vstd::prelude::*;

verus! {

/// Names the result of `char::is_alphanumeric`: whether a character counts
/// as alphanumeric depends on the character alone, by Unicode properties too
/// large to restate here.
pub uninterp spec fn is_alnum_char(c: char) -> bool;

/// A word character for cursor selection: alphanumeric or an underscore.
pub open spec fn is_word_char(c: char) -> bool {
    is_alnum_char(c) || c == '_'
}

/// Relies on `char::is_alphanumeric`: a pure classification of one
/// character.
#[verifier::external_body]
fn alnum(c: char) -> (r: bool)
    ensures
        r == is_alnum_char(c),
{
    c.is_alphanumeric()
}

fn word_char(c: char) -> (r: bool)
    ensures
        r == is_word_char(c),
{
    alnum(c) || c == '_'
}

/// Returns a text-cursor range (start, end) for the word inside `line` that
/// the cursor at column `pos` points into: `start` sits just after the last
/// non-word character left of the cursor (or at the line start), and `end`
/// on the first non-word character at or right of the cursor — or back at
/// the cursor when only word characters follow, so `(4, 4)` is an empty
/// selection after the first four characters.
#[verifier::loop_isolation(false)]
pub fn find_word_at_pos(line: &str, pos: usize) -> (r: (usize, usize))
    ensures
        ({
            let n: int = if pos as int <= line@.len() {
                pos as int
            } else {
                line@.len() as int
            };
            &&& r.0 <= n
            &&& (forall|k: int| r.0 <= k < n ==> is_word_char(#[trigger] line@[k]))
            &&& (r.0 > 0 ==> !is_word_char(line@[r.0 - 1]))
        }),
        (forall|k: int| pos <= k < line@.len() ==> is_word_char(#[trigger] line@[k])) ==> r.1
            == pos,
        (exists|k: int| pos <= k < line@.len() && !is_word_char(#[trigger] line@[k])) ==> ({
            &&& pos <= r.1 < line@.len()
            &&& !is_word_char(line@[r.1 as int])
            &&& (forall|k: int| pos <= k < r.1 ==> is_word_char(#[trigger] line@[k]))
        }),
{
    let chars = crate::cargo::str_chars(line);
    let n = if pos < chars.len() {
        pos
    } else {
        chars.len()
    };
    let mut start: usize = 0;
    let mut k: usize = 0;
    while k < n
        invariant
            0 <= start <= k <= n <= line@.len(),
            start > 0 ==> !is_word_char(line@[start - 1]),
            forall|j: int| start <= j < k ==> is_word_char(#[trigger] line@[j]),
        decreases n - k,
    {
        if !word_char(chars[k]) {
            start = k + 1;
        }
        k += 1;
    }
    let mut j: usize = pos;
    let mut end: usize = pos;
    let mut found = false;
    while j < chars.len() && !found
        invariant
            pos <= j,
            j <= line@.len() || j == pos,
            !found ==> end == pos,
            !found ==> forall|m: int| pos <= m < j ==> is_word_char(#[trigger] line@[m]),
            found ==> ({
                &&& pos <= end < line@.len()
                &&& !is_word_char(line@[end as int])
                &&& (forall|m: int| pos <= m < end ==> is_word_char(#[trigger] line@[m]))
            }),
        decreases line@.len() - j + (if found {
            0int
        } else {
            1int
        }),
    {
        if !word_char(chars[j]) {
            end = j;
            found = true;
        } else {
            j += 1;
        }
    }
    (start, end)
}

} // verus!
