//! Route patterns: `/literal/:capture/*rest`. Segments are separated by `/`
//! or `.`, as the recognizer splits them; a segment that starts with `:`
//! captures one segment, one that starts with `*` captures the rest of the
//! path and must be the last.
use crate::recognizer::{recognizer_accepts, strip_leading_slash};
use vstd::prelude::*;
use vstd::string::*;

verus! {

/// The capture name under which a mount point receives the rest of the path.
/// No user pattern may use it.
pub const MOUNT_REST: &'static str = "-highnoon-path-rest-";

/// The capture name under which the recognizer is given a bare trailing
/// `*`, so that its capture can be reported under the empty name. No user
/// pattern may use it.
pub const UNNAMED_REST: &'static str = "-highnoon-unnamed-rest-";

/// Why a pattern could not be registered.
#[derive(Debug, Clone, Copy, PartialEq, Eq, Structural)]
pub enum RouteError {
    /// A catch-all segment is not the last one, or a character is not ASCII
    /// or is NUL.
    InvalidPattern,
    /// A capture uses one of the names reserved for mount points and bare
    /// catch-alls.
    ReservedName,
    /// A pattern of the same shape is already registered for the same method.
    Duplicate,
}

pub open spec fn is_separator(c: char) -> bool {
    c == '/' || c == '.'
}

/// A segment starts at `s`: at the very start, or right after a separator.
pub open spec fn starts_segment(p: Seq<char>, s: int) -> bool {
    0 <= s < p.len() && (s == 0 || is_separator(p[s - 1]))
}

/// Some separator comes after position `s`.
pub open spec fn separator_after(p: Seq<char>, s: int) -> bool {
    exists|j: int| s < j < p.len() && #[trigger] is_separator(p[j])
}

/// A catch-all segment is followed by another segment.
pub open spec fn misplaced_catch_all(p: Seq<char>) -> bool {
    exists|s: int| #[trigger] starts_segment(p, s) && p[s] == '*' && separator_after(p, s)
}

/// The segment that starts at `s` is a capture (`:` or `*`) named `name`.
pub open spec fn capture_named_at(p: Seq<char>, s: int, name: Seq<char>) -> bool {
    let end = s + 1 + name.len();
    &&& starts_segment(p, s)
    &&& (p[s] == ':' || p[s] == '*')
    &&& end <= p.len()
    &&& p.subrange(s + 1, end) == name
    &&& (end == p.len() || is_separator(p[end]))
}

/// Some capture of the pattern is named `name`.
pub open spec fn uses_capture_name(p: Seq<char>, name: Seq<char>) -> bool {
    exists|s: int| #[trigger] capture_named_at(p, s, name)
}

/// Every character is ASCII and none is NUL.
pub open spec fn plain_ascii(p: Seq<char>) -> bool {
    forall|i: int| 0 <= i < p.len() ==> 0 < (#[trigger] p[i] as u32) < 128
}

/// A pattern that the router can register: plain ASCII (so that characters
/// and bytes line up, as the recognizer assumes) with no catch-all segment
/// before another segment.
pub open spec fn pattern_valid(p: Seq<char>) -> bool {
    plain_ascii(p) && !misplaced_catch_all(p)
}

/// A valid pattern is one the recognizer accepts.
pub proof fn lemma_valid_accepted(p: Seq<char>)
    requires
        pattern_valid(p),
    ensures
        recognizer_accepts(p),
{
    if p.contains('\0') {
        let i = choose|i: int| 0 <= i < p.len() && p[i] == '\0';
        assert(0 < (p[i] as u32));
    }
    let r = strip_leading_slash(p);
    if r.len() > 0 {
        if p.len() > 0 && p[0] == '/' {
            assert(r[0] == p[1]);
        }
        assert(0 < (p[(p.len() - r.len())] as u32) < 128);
    }
}

/// What checking a user pattern answers.
pub open spec fn pattern_outcome(p: Seq<char>) -> Result<(), RouteError> {
    if !pattern_valid(p) {
        Err(RouteError::InvalidPattern)
    } else if uses_capture_name(p, MOUNT_REST@) || uses_capture_name(p, UNNAMED_REST@) {
        Err(RouteError::ReservedName)
    } else {
        Ok(())
    }
}

/// The characters of `s`.
pub fn chars_of(s: &str) -> (r: Vec<char>)
    ensures
        r@ == s@,
{
    let n = s.unicode_len();
    let mut out: Vec<char> = Vec::new();
    let mut i: usize = 0;
    while i < n
        invariant
            n == s@.len(),
            i <= n,
            out@ == s@.subrange(0, i as int),
        decreases n - i,
    {
        out.push(s.get_char(i));
        i = i + 1;
    }
    out
}

/// Whether the pattern can be read by the recognizer and has no catch-all
/// segment before another segment.
pub(crate) fn valid_chars(p: &Vec<char>) -> (r: bool)
    ensures
        r == pattern_valid(p@),
{
    let n = p.len();
    let mut k: usize = 0;
    while k < n
        invariant
            n == p@.len(),
            k <= n,
            forall|i: int| 0 <= i < k ==> 0 < (#[trigger] p@[i] as u32) < 128,
        decreases n - k,
    {
        let c = p[k] as u32;
        if c == 0 || c >= 128 {
            return false;
        }
        k = k + 1;
    }
    let mut first_star: Option<usize> = None;
    let mut i: usize = 0;
    while i < n
        invariant
            n == p@.len(),
            i <= n,
            match first_star {
                None => forall|s: int|
                    0 <= s < i ==> !(#[trigger] starts_segment(p@, s) && p@[s] == '*'),
                Some(f) => {
                    &&& f < i
                    &&& starts_segment(p@, f as int)
                    &&& p@[f as int] == '*'
                    &&& forall|s: int| 0 <= s < f ==> !(#[trigger] starts_segment(p@, s) && p@[s] == '*')
                    &&& forall|j: int| f < j < i ==> !#[trigger] is_separator(p@[j])
                },
            },
        decreases n - i,
    {
        let c = p[i];
        let sep = c == '/' || c == '.';
        if sep && first_star.is_some() {
            proof {
                let f = first_star.unwrap() as int;
                assert(is_separator(p@[i as int]));
                assert(separator_after(p@, f));
                assert(starts_segment(p@, f));
            }
            return false;
        }
        if first_star.is_none() && c == '*' && (i == 0 || p[i - 1] == '/' || p[i - 1] == '.') {
            first_star = Some(i);
        }
        i = i + 1;
    }
    proof {
        assert forall|s: int| #[trigger] starts_segment(p@, s) && p@[s] == '*' implies !separator_after(
            p@,
            s,
        ) by {
            match first_star {
                None => {},
                Some(f) => {
                    let f = f as int;
                    assert(s >= f);
                    if s > f {
                        assert(is_separator(p@[s - 1]));
                        if s - 1 == f {
                            assert(false);
                        }
                    }
                    if separator_after(p@, s) {
                        let j = choose|j: int| s < j < p@.len() && #[trigger] is_separator(p@[j]);
                        assert(is_separator(p@[j]));
                    }
                },
            }
        }
    }
    true
}

/// Whether the segment that starts at `s` is a capture named `name`.
fn capture_named_at_exec(p: &Vec<char>, s: usize, name: &Vec<char>) -> (r: bool)
    requires
        s < p@.len(),
    ensures
        r == capture_named_at(p@, s as int, name@),
{
    let n = p.len();
    if !(s == 0 || p[s - 1] == '/' || p[s - 1] == '.') {
        return false;
    }
    if !(p[s] == ':' || p[s] == '*') {
        return false;
    }
    let m = name.len();
    if m > n - s - 1 {
        return false;
    }
    let mut j: usize = 0;
    while j < m
        invariant
            n == p@.len(),
            m == name@.len(),
            s + 1 + m <= n,
            j <= m,
            forall|k: int| 0 <= k < j ==> p@[s + 1 + k] == name@[k],
        decreases m - j,
    {
        if p[s + 1 + j] != name[j] {
            assert(p@.subrange(s + 1, s + 1 + m)[j as int] != name@[j as int]);
            return false;
        }
        j = j + 1;
    }
    assert(p@.subrange(s + 1, s + 1 + m) =~= name@);
    let end = s + 1 + m;
    end == n || p[end] == '/' || p[end] == '.'
}

/// Checks a pattern that a user registers: it must be valid and must not use
/// a reserved capture name.
pub fn validate_pattern(pattern: &str) -> (r: Result<(), RouteError>)
    ensures
        r == pattern_outcome(pattern@),
{
    let p = chars_of(pattern);
    if !valid_chars(&p) {
        return Err(RouteError::InvalidPattern);
    }
    let reserved = chars_of(MOUNT_REST);
    let unnamed = chars_of(UNNAMED_REST);
    let mut s: usize = 0;
    while s < p.len()
        invariant
            reserved@ == MOUNT_REST@,
            unnamed@ == UNNAMED_REST@,
            p@ == pattern@,
            pattern_valid(p@),
            s <= p@.len(),
            forall|t: int| 0 <= t < s ==> !#[trigger] capture_named_at(p@, t, MOUNT_REST@),
            forall|t: int| 0 <= t < s ==> !#[trigger] capture_named_at(p@, t, UNNAMED_REST@),
        decreases p@.len() - s,
    {
        if capture_named_at_exec(&p, s, &reserved) {
            assert(capture_named_at(p@, s as int, MOUNT_REST@));
            return Err(RouteError::ReservedName);
        }
        if capture_named_at_exec(&p, s, &unnamed) {
            assert(capture_named_at(p@, s as int, UNNAMED_REST@));
            return Err(RouteError::ReservedName);
        }
        s = s + 1;
    }
    Ok(())
}

/// The pattern ends with a bare catch-all: a last segment that is just `*`.
pub open spec fn ends_unnamed(p: Seq<char>) -> bool {
    p.len() > 0 && p.last() == '*' && starts_segment(p, p.len() - 1)
}

/// The pattern as the recognizer is given it: a bare trailing `*` gets the
/// reserved name, so that its capture is reported.
pub open spec fn recognizer_pattern(p: Seq<char>) -> Seq<char> {
    if ends_unnamed(p) {
        p + UNNAMED_REST@
    } else {
        p
    }
}

/// The pattern as the recognizer is given it.
pub fn recognizer_pattern_of(pattern: &str) -> (r: String)
    requires
        pattern_valid(pattern@),
    ensures
        r@ == recognizer_pattern(pattern@),
        recognizer_accepts(r@),
{
    proof {
        lemma_valid_accepted(pattern@);
    }
    let p = chars_of(pattern);
    let n = p.len();
    if n > 0 && p[n - 1] == '*' && (n == 1 || p[n - 2] == '/' || p[n - 2] == '.') {
        let r = pattern.to_owned().concat(UNNAMED_REST);
        proof {
            reveal_strlit("-highnoon-unnamed-rest-");
            let q = pattern@;
            let u = UNNAMED_REST@;
            assert(r@ == q + u);
            assert forall|i: int| 0 <= i < r@.len() implies r@[i] != '\0' by {
                if i < q.len() {
                    assert(r@[i] == q[i]);
                    assert(0 < (q[i] as u32));
                } else {
                    assert(r@[i] == u[i - q.len()]);
                }
            }
            let sr = strip_leading_slash(r@);
            let sq = strip_leading_slash(q);
            assert(sq.len() > 0);
            if q[0] == '/' {
                assert(sr[0] == r@[1] && r@[1] == q[1] && sq[0] == q[1]);
            } else {
                assert(sr[0] == q[0] && sq[0] == q[0]);
            }
        }
        r
    } else {
        pattern.to_owned()
    }
}

/// Position `i` lies inside the name of a capture: after the `:` or `*` that
/// starts the capture's segment, before the next separator.
pub open spec fn in_capture_name(p: Seq<char>, i: int) -> bool {
    exists|s: int|
        #[trigger] starts_segment(p, s) && (p[s] == ':' || p[s] == '*') && s < i < p.len() && forall|
            j: int,
        |
            s < j <= i ==> !#[trigger] is_separator(p[j])
}

/// The first `n` characters of `p` without those inside capture names.
pub open spec fn unnamed_prefix(p: Seq<char>, n: nat) -> Seq<char>
    decreases n,
{
    if n == 0 {
        Seq::empty()
    } else {
        let kept = unnamed_prefix(p, (n - 1) as nat);
        if in_capture_name(p, n - 1) {
            kept
        } else {
            kept.push(p[n - 1])
        }
    }
}

/// The shape of a pattern: the pattern as the recognizer reads it, without
/// its leading `/`, and with the names of its captures left out. For valid
/// patterns, which are plain ASCII, two patterns of one shape reach the same
/// state of the recognizer: they match the same paths, and the later would
/// take the place of the earlier.
pub open spec fn shape(p: Seq<char>) -> Seq<char> {
    let r = strip_leading_slash(p);
    unnamed_prefix(r, r.len())
}

/// The shape of `pattern`.
pub fn shape_of(pattern: &str) -> (r: Vec<char>)
    ensures
        r@ == shape(pattern@),
{
    let all = chars_of(pattern);
    let ghost rv = strip_leading_slash(pattern@);
    let start: usize = if all.len() > 0 && all[0] == '/' {
        1
    } else {
        0
    };
    assert(rv =~= all@.subrange(start as int, all@.len() as int));
    let n = all.len();
    let mut out: Vec<char> = Vec::new();
    let mut naming = false;
    let mut i: usize = start;
    while i < n
        invariant
            all@ == pattern@,
            n == all@.len(),
            start <= i <= n,
            rv == all@.subrange(start as int, n as int),
            out@ == unnamed_prefix(rv, (i - start) as nat),
            naming == (exists|s: int|
                #[trigger] starts_segment(rv, s) && (rv[s] == ':' || rv[s] == '*') && s < i - start
                    && forall|j: int| s < j < i - start ==> !#[trigger] is_separator(rv[j])),
        decreases n - i,
    {
        let k: usize = i - start;
        let c = all[i];
        assert(rv[k as int] == c);
        let sep = c == '/' || c == '.';
        proof {
            if naming && !sep {
                let s = choose|s: int|
                    #[trigger] starts_segment(rv, s) && (rv[s] == ':' || rv[s] == '*') && s < k
                        && forall|j: int| s < j < k ==> !#[trigger] is_separator(rv[j]);
                assert forall|j: int| s < j <= k implies !#[trigger] is_separator(rv[j]) by {
                    if j < k {
                    } else {
                        assert(rv[j] == c);
                    }
                }
                assert(in_capture_name(rv, k as int));
            }
            if !naming || sep {
                if in_capture_name(rv, k as int) {
                    let s = choose|s: int|
                        #[trigger] starts_segment(rv, s) && (rv[s] == ':' || rv[s] == '*') && s < k < rv.len()
                            && forall|j: int| s < j <= k ==> !#[trigger] is_separator(rv[j]);
                    assert(!is_separator(rv[k as int]));
                    assert(forall|j: int| s < j < k ==> !#[trigger] is_separator(rv[j]));
                    assert(false);
                }
            }
        }
        if sep || !naming {
            out.push(c);
        }
        let at_start = k == 0 || all[i - 1] == '/' || all[i - 1] == '.';
        proof {
            if k > 0 {
                assert(rv[k - 1] == all@[i - 1]);
            }
            assert(at_start == starts_segment(rv, k as int));
        }
        let ghost was = naming;
        if sep {
            naming = false;
        } else if !naming && at_start && (c == ':' || c == '*') {
            naming = true;
        }
        proof {
            let k1 = k + 1;
            if sep {
                if exists|s: int|
                    #[trigger] starts_segment(rv, s) && (rv[s] == ':' || rv[s] == '*') && s < k1
                        && forall|j: int| s < j < k1 ==> !#[trigger] is_separator(rv[j]) {
                    let s = choose|s: int|
                        #[trigger] starts_segment(rv, s) && (rv[s] == ':' || rv[s] == '*') && s < k1
                            && forall|j: int| s < j < k1 ==> !#[trigger] is_separator(rv[j]);
                    if s < k {
                        assert(!is_separator(rv[k as int]));
                    }
                }
            } else if naming && !was {
                assert(starts_segment(rv, k as int));
            } else if naming {
                let s = choose|s: int|
                    #[trigger] starts_segment(rv, s) && (rv[s] == ':' || rv[s] == '*') && s < k
                        && forall|j: int| s < j < k ==> !#[trigger] is_separator(rv[j]);
                assert forall|j: int| s < j < k1 implies !#[trigger] is_separator(rv[j]) by {
                    if j == k {
                        assert(rv[j] == c);
                    }
                }
            } else {
                if exists|s: int|
                    #[trigger] starts_segment(rv, s) && (rv[s] == ':' || rv[s] == '*') && s < k1
                        && forall|j: int| s < j < k1 ==> !#[trigger] is_separator(rv[j]) {
                    let s = choose|s: int|
                        #[trigger] starts_segment(rv, s) && (rv[s] == ':' || rv[s] == '*') && s < k1
                            && forall|j: int| s < j < k1 ==> !#[trigger] is_separator(rv[j]);
                    if s < k {
                        assert(forall|j: int| s < j < k ==> !#[trigger] is_separator(rv[j]));
                    }
                }
            }
        }
        i = i + 1;
    }
    out
}

} // verus!
