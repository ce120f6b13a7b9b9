//! Geometric primitives and small helpers shared by the whole crate:
//! three-component vectors, rotations, the dense 3D map and path strings.

use vstd::prelude::*;
use vstd::string::*;

pub mod map3d;
pub mod mat3;
pub mod palette;
pub mod rot;
pub mod vec3;

pub use map3d::Map3D;
pub use mat3::Mat3x3;
pub use rot::{Facing, Orient, Rot};
pub use vec3::Vec3;

verus! {

/// Size of an axis-aligned box; every component counts cells.
pub type Bounds = Vec3<u32>;

/// A position or an offset on the integer grid.
pub type Point = Vec3<i32>;

/// Game ticks in one second.
pub const TICKS_PER_SECOND: u32 = 40;

/// The largest number of outgoing connections a single unit may carry.
pub const MAX_CONNECTIONS: u32 = 255;

/// `point` lies in the box `[0, bounds.x) x [0, bounds.y) x [0, bounds.z)`.
pub open spec fn in_bounds(point: Point, bounds: Bounds) -> bool {
    &&& 0 <= point.x < bounds.x
    &&& 0 <= point.y < bounds.y
    &&& 0 <= point.z < bounds.z
}

/// Returns true if each coordinate lies in the `0..bound` range.
pub fn is_point_in_bounds(point: Point, bounds: Bounds) -> (inside: bool)
    ensures
        inside == in_bounds(point, bounds),
{
    point.x >= 0 && point.y >= 0 && point.z >= 0 && (point.x as i64) < (bounds.x as i64) && (
    point.y as i64) < (bounds.y as i64) && (point.z as i64) < (bounds.z as i64)
}

/// Number of characters of `s` that stand before its first `'/'`
/// (all of them when `s` holds none).
pub open spec fn token_end(s: Seq<char>) -> int
    decreases s.len(),
{
    if s.len() == 0 || s.first() == '/' {
        0
    } else {
        1 + token_end(s.drop_first())
    }
}

/// The first path segment of `s` and, when a separator follows it, the rest
/// of the path behind that separator.
pub open spec fn split_token(s: Seq<char>) -> (Seq<char>, Option<Seq<char>>) {
    let k = token_end(s);
    if k == s.len() {
        (s, None)
    } else {
        (s.take(k), Some(s.skip(k + 1)))
    }
}

/// `token_end` never runs past the end, and stops exactly at the first
/// separator.
pub proof fn lemma_token_end(s: Seq<char>)
    ensures
        0 <= token_end(s) <= s.len(),
        forall|j: int| 0 <= j < token_end(s) ==> s[j] != '/',
        token_end(s) < s.len() ==> s[token_end(s)] == '/',
    decreases s.len(),
{
    if s.len() == 0 || s.first() == '/' {
    } else {
        let t = s.drop_first();
        lemma_token_end(t);
        assert forall|j: int| 0 <= j < token_end(s) implies s[j] != '/' by {
            if j > 0 {
                assert(s[j] == t[j - 1]);
            }
        }
        if token_end(s) < s.len() {
            assert(s[token_end(s)] == t[token_end(t)]);
        }
    }
}

/// A prefix without separator is skipped by `token_end`.
pub proof fn lemma_token_end_scan(s: Seq<char>, i: int)
    requires
        0 <= i <= s.len(),
        forall|j: int| 0 <= j < i ==> s[j] != '/',
    ensures
        token_end(s) == i + token_end(s.skip(i)),
    decreases i,
{
    if i == 0 {
        assert(s.skip(0) =~= s);
    } else {
        let t = s.drop_first();
        assert(s[0] != '/');
        assert forall|j: int| 0 <= j < i - 1 implies t[j] != '/' by {
            assert(t[j] == s[j + 1]);
        }
        lemma_token_end_scan(t, i - 1);
        assert(t.skip(i - 1) =~= s.skip(i));
    }
}

/// Tells whether the text holds the path separator `'/'`.
pub fn has_separator(text: &String) -> (found: bool)
    ensures
        found == text@.contains('/'),
{
    let chars = text.as_str();
    let n = chars.unicode_len();
    let mut i: usize = 0;
    while i < n
        invariant
            n == chars@.len(),
            chars@ == text@,
            i <= n,
            forall|j: int| 0 <= j < i ==> chars@[j] != '/',
        decreases n - i,
    {
        if chars.get_char(i) == '/' {
            proof {
                assert(text@[i as int] == '/');
            }
            return true;
        }
        i += 1;
    }
    false
}

/// The same list, last item first.
pub fn reversed<T>(list: Vec<T>) -> (back: Vec<T>)
    ensures
        back.len() == list.len(),
        forall|i: int| 0 <= i < list.len() ==> #[trigger] back@[i] == list@[list.len() - 1 - i],
{
    let ghost all = list@;
    let n = list.len();
    let mut rest = list;
    let mut back: Vec<T> = Vec::new();
    while rest.len() > 0
        invariant
            rest.len() + back.len() == n,
            n == all.len(),
            rest@ == all.take(rest.len() as int),
            forall|i: int| 0 <= i < back.len() ==> #[trigger] back@[i] == all[n - 1 - i],
        decreases rest.len(),
    {
        let ghost before = rest@;
        match rest.pop() {
            Some(item) => {
                proof {
                    assert(item == all[before.len() - 1]);
                    assert(rest@ =~= all.take(rest.len() as int));
                }
                back.push(item);
            },
            None => {},
        }
    }
    back
}

/// The view of an optional string.
pub open spec fn opt_chars(s: Option<String>) -> Option<Seq<char>> {
    match s {
        Some(t) => Some(t@),
        None => None,
    }
}

/// Splits string at the first '/' (slash) symbol and returns
/// (all the symbols before, all the symbols after). The '/' (slash)
/// symbol itself is being dropped.
pub fn split_first_token(path: String) -> (parts: (String, Option<String>))
    ensures
        (parts.0@, opt_chars(parts.1)) == split_token(path@),
        !parts.0@.contains('/'),
        parts.1 is None ==> parts.0@ == path@,
        parts.1 matches Some(tail) ==> path@ == parts.0@ + seq!['/'] + tail@,
{
    let text = path.as_str();
    let n = text.unicode_len();
    let mut i: usize = 0;
    while i < n && text.get_char(i) != '/'
        invariant
            n == text@.len(),
            i <= n,
            forall|j: int| 0 <= j < i ==> text@[j] != '/',
        decreases n - i,
    {
        i += 1;
    }
    proof {
        lemma_token_end_scan(text@, i as int);
        if i < n {
            assert(text@.skip(i as int).first() == '/');
        }
        assert(token_end(text@) == i);
        lemma_token_end(text@);
    }
    if i == n {
        proof {
            if path@.contains('/') {
                let j = choose|j: int| 0 <= j < path@.len() && path@[j] == '/';
                assert(text@[j] == '/');
            }
        }
        (path, None)
    } else {
        let token = text.substring_char(0, i).to_owned();
        let tail = text.substring_char(i + 1, n).to_owned();
        proof {
            assert(text@.subrange(0, i as int) =~= text@.take(i as int));
            assert(text@.subrange(i + 1, n as int) =~= text@.skip(i + 1));
            assert(path@ =~= token@ + seq!['/'] + tail@);
            if token@.contains('/') {
                let j = choose|j: int| 0 <= j < token@.len() && token@[j] == '/';
                assert(text@[j] == '/');
            }
        }
        (token, Some(tail))
    }
}

} // verus!
