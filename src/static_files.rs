//! Static file serving: which file under a root directory a request path
//! names. A path that climbs out of the root with `..` is forbidden.
use crate::pattern::chars_of;
use vstd::prelude::*;
use vstd::string::*;

verus! {

/// The pieces of `s` between `/` characters, empty pieces included.
pub open spec fn split_parts(s: Seq<char>) -> Seq<Seq<char>>
    decreases s.len(),
{
    if s.len() == 0 {
        seq![Seq::<char>::empty()]
    } else {
        let parts = split_parts(s.drop_last());
        if s.last() == '/' {
            parts.push(Seq::empty())
        } else {
            parts.update(parts.len() - 1, parts.last().push(s.last()))
        }
    }
}

/// A piece that names something: not empty and not `.`.
pub open spec fn is_component(p: Seq<char>) -> bool {
    p.len() > 0 && p != seq!['.']
}

/// The pieces that name something, in order.
pub open spec fn keep_components(parts: Seq<Seq<char>>) -> Seq<Seq<char>>
    decreases parts.len(),
{
    if parts.len() == 0 {
        Seq::empty()
    } else {
        let kept = keep_components(parts.drop_last());
        if is_component(parts.last()) {
            kept.push(parts.last())
        } else {
            kept
        }
    }
}

/// The components of a path: its pieces between `/` that are neither empty
/// nor `.`; `..` is kept and climbs when the path is walked.
pub open spec fn components(s: Seq<char>) -> Seq<Seq<char>> {
    keep_components(split_parts(s))
}

/// The path starts at the root directory.
pub open spec fn is_absolute(s: Seq<char>) -> bool {
    s.len() > 0 && s[0] == '/'
}

/// Walking `rest` from `start`: `..` removes the last component, if any;
/// any other component is appended.
pub open spec fn walk(start: Seq<Seq<char>>, rest: Seq<Seq<char>>) -> Seq<Seq<char>>
    decreases rest.len(),
{
    if rest.len() == 0 {
        start
    } else {
        let t = walk(start, rest.drop_last());
        if rest.last() == seq!['.', '.'] {
            if t.len() > 0 {
                t.drop_last()
            } else {
                t
            }
        } else {
            t.push(rest.last())
        }
    }
}

/// The components joined by `/`.
pub open spec fn join(c: Seq<Seq<char>>) -> Seq<char>
    decreases c.len(),
{
    if c.len() == 0 {
        Seq::empty()
    } else if c.len() == 1 {
        c[0]
    } else {
        join(c.drop_last()) + "/"@ + c.last()
    }
}

/// What a request for static files resolves to.
pub enum Resolved {
    /// The file at this path.
    File(String),
    /// The path leaves the root directory.
    Forbidden,
    /// The path does not start with the route's prefix.
    OutsidePrefix,
}

/// Serves the files under `root` for the requests under `prefix`.
pub struct StaticFiles {
    root: Vec<String>,
    root_absolute: bool,
    prefix: Vec<String>,
    prefix_absolute: bool,
}

/// The components of `s`.
fn components_of(s: &str) -> (r: Vec<String>)
    ensures
        views(r@) == components(s@),
{
    let chars = chars_of(s);
    let n = chars.len();
    let mut out: Vec<String> = Vec::new();
    let mut start: usize = 0;
    let mut i: usize = 0;
    let ghost mut done: Seq<Seq<char>> = Seq::empty();
    assert(s@.subrange(0, 0) =~= Seq::<char>::empty());
    assert(done.push(s@.subrange(0, 0)) =~= seq![Seq::<char>::empty()]);
    while i < n
        invariant
            chars@ == s@,
            n == s@.len(),
            start <= i <= n,
            split_parts(s@.subrange(0, i as int)) == done.push(s@.subrange(start as int, i as int)),
            views(out@) == keep_components(done),
        decreases n - i,
    {
        proof {
            assert(s@.subrange(0, i + 1).drop_last() =~= s@.subrange(0, i as int));
        }
        if chars[i] == '/' {
            let piece = s.substring_char(start, i).to_owned();
            proof {
                let d2 = done.push(s@.subrange(start as int, i as int));
                assert(d2.drop_last() =~= done);
            }
            if piece.unicode_len() > 0 && !(piece.unicode_len() == 1 && piece.get_char(0) == '.') {
                out.push(piece);
                proof {
                    assert(is_component(piece@)) by {
                        if piece@ == seq!['.'] {
                            assert(piece@.len() == 1 && piece@[0] == '.');
                        }
                    }
                    assert(views(out@) =~= keep_components(done).push(piece@));
                }
            } else {
                proof {
                    if piece@.len() > 0 {
                        assert(piece@ =~= seq!['.']);
                    }
                }
            }
            proof {
                done = done.push(s@.subrange(start as int, i as int));
            }
            start = i + 1;
            proof {
                assert(s@.subrange(start as int, i + 1) =~= Seq::<char>::empty());
            }
        } else {
            proof {
                assert(s@.subrange(start as int, i + 1) =~= s@.subrange(start as int, i as int).push(s@[i as int]));
            }
        }
        i = i + 1;
    }
    assert(s@.subrange(0, n as int) =~= s@);
    let piece = s.substring_char(start, n).to_owned();
    proof {
        let d2 = done.push(s@.subrange(start as int, n as int));
        assert(d2.drop_last() =~= done);
    }
    if piece.unicode_len() > 0 && !(piece.unicode_len() == 1 && piece.get_char(0) == '.') {
        out.push(piece);
        proof {
            assert(is_component(piece@)) by {
                if piece@ == seq!['.'] {
                    assert(piece@.len() == 1 && piece@[0] == '.');
                }
            }
            assert(views(out@) =~= keep_components(done).push(piece@));
        }
    } else {
        proof {
            if piece@.len() > 0 {
                assert(piece@ =~= seq!['.']);
            }
        }
    }
    out
}

/// The character sequences of a list of strings.
pub open spec fn views(v: Seq<String>) -> Seq<Seq<char>> {
    v.map_values(|c: String| c@)
}

/// `pre` is an initial part of `s`.
pub open spec fn is_prefix(pre: Seq<Seq<char>>, s: Seq<Seq<char>>) -> bool {
    pre.len() <= s.len() && s.subrange(0, pre.len() as int) == pre
}

/// A path without its last component.
pub open spec fn parent(c: Seq<Seq<char>>) -> Seq<Seq<char>> {
    if c.len() > 0 {
        c.drop_last()
    } else {
        c
    }
}

/// Whether `pre` is an initial part of `s`.
fn starts_with(s: &Vec<String>, pre: &Vec<String>) -> (r: bool)
    ensures
        r == is_prefix(views(pre@), views(s@)),
{
    if pre.len() > s.len() {
        return false;
    }
    let mut i: usize = 0;
    while i < pre.len()
        invariant
            pre@.len() <= s@.len(),
            i <= pre@.len(),
            forall|j: int| 0 <= j < i ==> s@[j]@ == pre@[j]@,
        decreases pre@.len() - i,
    {
        if !(s[i] == pre[i]) {
            assert(views(s@).subrange(0, pre@.len() as int)[i as int] != views(pre@)[i as int]);
            return false;
        }
        i = i + 1;
    }
    assert(views(s@).subrange(0, pre@.len() as int) =~= views(pre@));
    true
}

/// Whether the string is `..`.
fn is_parent_dir(c: &String) -> (r: bool)
    ensures
        r == (c@ == seq!['.', '.']),
{
    let r = c.unicode_len() == 2 && c.get_char(0) == '.' && c.get_char(1) == '.';
    proof {
        if c@.len() == 2 && c@[0] == '.' && c@[1] == '.' {
            assert(c@ =~= seq!['.', '.']);
        }
    }
    r
}

/// The components joined by `/`.
fn join_components(c: &Vec<String>) -> (r: String)
    ensures
        r@ == join(views(c@)),
{
    let mut acc = String::new();
    let mut i: usize = 0;
    while i < c.len()
        invariant
            i <= c@.len(),
            acc@ == join(views(c@).subrange(0, i as int)),
        decreases c@.len() - i,
    {
        let ghost sub = views(c@).subrange(0, i + 1);
        assert(sub.drop_last() =~= views(c@).subrange(0, i as int));
        if i == 0 {
            acc = acc.concat(c[i].as_str());
            assert(acc@ =~= c@[0]@);
        } else {
            acc = acc.concat("/").concat(c[i].as_str());
        }
        i = i + 1;
    }
    assert(views(c@).subrange(0, c@.len() as int) =~= views(c@));
    acc
}

impl StaticFiles {
    pub closed spec fn root_spec(&self) -> Seq<Seq<char>> {
        views(self.root@)
    }

    pub closed spec fn root_absolute_spec(&self) -> bool {
        self.root_absolute
    }

    pub closed spec fn prefix_spec(&self) -> Seq<Seq<char>> {
        views(self.prefix@)
    }

    pub closed spec fn prefix_absolute_spec(&self) -> bool {
        self.prefix_absolute
    }

    /// What a request for `path` resolves to: outside the prefix if the path
    /// does not start with it; else the root walked along the rest of the
    /// path, which is forbidden unless it still starts with the root.
    pub open spec fn resolve_spec(&self, path: Seq<char>) -> Option<Option<Seq<char>>> {
        let pc = components(path);
        if is_absolute(path) != self.prefix_absolute_spec() || !is_prefix(self.prefix_spec(), pc) {
            None
        } else {
            let t = walk(self.root_spec(), pc.subrange(self.prefix_spec().len() as int, pc.len() as int));
            if is_prefix(self.root_spec(), t) {
                Some(Some((if self.root_absolute_spec() { "/"@ } else { Seq::empty() }) + join(t)))
            } else {
                Some(None)
            }
        }
    }

    /// Serves the files under `root` for the route `prefix`, whose last
    /// segment (the catch-all that captures the file's path) is dropped.
    pub fn new(root: &str, prefix: &str) -> (r: StaticFiles)
        ensures
            r.root_spec() == components(root@),
            r.root_absolute_spec() == is_absolute(root@),
            r.prefix_spec() == parent(components(prefix@)),
            r.prefix_absolute_spec() == is_absolute(prefix@),
    {
        let root_parts = components_of(root);
        let mut prefix_parts = components_of(prefix);
        if prefix_parts.len() > 0 {
            prefix_parts.pop();
            assert(views(prefix_parts@) =~= components(prefix@).drop_last());
        }
        let root_absolute = root.unicode_len() > 0 && root.get_char(0) == '/';
        let prefix_absolute = prefix.unicode_len() > 0 && prefix.get_char(0) == '/';
        StaticFiles { root: root_parts, root_absolute, prefix: prefix_parts, prefix_absolute }
    }

    /// Resolves the path of a request to a file under the root.
    pub fn resolve(&self, path: &str) -> (r: Resolved)
        ensures
            match self.resolve_spec(path@) {
                None => r is OutsidePrefix,
                Some(None) => r is Forbidden,
                Some(Some(f)) => r matches Resolved::File(file) && file@ == f,
            },
    {
        let pc = components_of(path);
        let absolute = path.unicode_len() > 0 && path.get_char(0) == '/';
        if absolute != self.prefix_absolute || !starts_with(&pc, &self.prefix) {
            return Resolved::OutsidePrefix;
        }
        let ghost rest = views(pc@).subrange(self.prefix@.len() as int, pc@.len() as int);
        let mut target: Vec<String> = Vec::new();
        let mut i: usize = 0;
        while i < self.root.len()
            invariant
                i <= self.root@.len(),
                views(target@) == views(self.root@).subrange(0, i as int),
            decreases self.root@.len() - i,
        {
            let c = self.root[i].clone();
            assert(c@ == self.root@[i as int]@);
            let ghost before = target@;
            target.push(c);
            assert(target@ == before.push(c));
            assert(views(before.push(c)) =~= views(before).push(c@));
            assert(views(self.root@).subrange(0, i + 1) =~= views(self.root@).subrange(0, i as int).push(c@));
            i = i + 1;
        }
        assert(views(self.root@).subrange(0, self.root@.len() as int) =~= views(self.root@));
        let mut j: usize = self.prefix.len();
        while j < pc.len()
            invariant
                self.prefix@.len() <= j <= pc@.len(),
                rest == views(pc@).subrange(self.prefix@.len() as int, pc@.len() as int),
                views(target@) == walk(
                    views(self.root@),
                    rest.subrange(0, j - self.prefix@.len()),
                ),
            decreases pc@.len() - j,
        {
            let ghost k = j - self.prefix@.len();
            assert(rest.subrange(0, k + 1).drop_last() =~= rest.subrange(0, k));
            assert(rest.subrange(0, k + 1).last() == pc@[j as int]@);
            if is_parent_dir(&pc[j]) {
                if target.len() > 0 {
                    target.pop();
                    assert(views(target@) =~= walk(views(self.root@), rest.subrange(0, k)).drop_last());
                }
            } else {
                target.push(pc[j].clone());
                assert(views(target@) =~= walk(views(self.root@), rest.subrange(0, k)).push(pc@[j as int]@));
            }
            j = j + 1;
        }
        assert(rest.subrange(0, rest.len() as int) =~= rest);
        if !starts_with(&target, &self.root) {
            return Resolved::Forbidden;
        }
        let joined = join_components(&target);
        if self.root_absolute {
            let file = "/".to_owned().concat(joined.as_str());
            Resolved::File(file)
        } else {
            assert(Seq::<char>::empty() + joined@ =~= joined@);
            Resolved::File(joined)
        }
    }
}

} // verus!
