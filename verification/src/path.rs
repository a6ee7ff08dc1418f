//! Paths, as the text of a Unix path.

use crate::text;
use vstd::prelude::*;
use vstd::string::*;

verus! {

/// `part` below `base`: an absolute `part` stands for itself, and a separator is put between
/// the two unless `base` is empty or ends in one.
pub open spec fn joined(base: Seq<char>, part: Seq<char>) -> Seq<char> {
    if part.len() > 0 && part[0] == '/' {
        part
    } else if base.len() == 0 || base.last() == '/' {
        base + part
    } else {
        base.push('/') + part
    }
}

/// Joins two paths.
pub fn join(base: &str, part: &str) -> (r: String)
    ensures
        r@ == joined(base@, part@),
{
    let b = text::chars_of(base);
    let p = text::chars_of(part);
    if p.len() > 0 && p[0] == '/' {
        return part.to_owned();
    }
    let mut r: String = base.to_owned();
    if b.len() > 0 && b[b.len() - 1] != '/' {
        r.push('/');
    }
    r.append(part);
    r
}

/// Whether a path starts at the root.
pub open spec fn rooted(s: Seq<char>) -> bool {
    s.len() > 0 && s[0] == '/'
}

/// The first of the parts that slashes divide a path into.
pub open spec fn head(s: Seq<char>) -> Seq<char> {
    s.take(text::position(s, '/'))
}

/// Whether a relative path names the current directory in front.
pub open spec fn from_here(s: Seq<char>) -> bool {
    !rooted(s) && head(s) == seq!['.']
}

/// The names along a path. Repeated slashes and the current directory name nothing.
pub open spec fn names(s: Seq<char>) -> Seq<Seq<char>>
    decreases s.len(),
{
    let n = text::position(s, '/');
    let rest = if 0 <= n < s.len() {
        names(s.skip(n + 1))
    } else {
        Seq::empty()
    };
    if s.take(n).len() == 0 || s.take(n) == seq!['.'] {
        rest
    } else {
        seq![s.take(n)] + rest
    }
}

/// Whether two texts are the same path.
pub open spec fn same_path(a: Seq<char>, b: Seq<char>) -> bool {
    rooted(a) == rooted(b) && from_here(a) == from_here(b) && names(a) == names(b)
}

fn is_dot(s: &str) -> (r: bool)
    ensures
        r == (s@ == seq!['.']),
{
    let c = text::chars_of(s);
    let r: bool = c.len() == 1 && c[0] == '.';
    assert(r ==> s@ =~= seq!['.']);
    r
}

/// The names along a path.
fn name_list<'a>(s: &'a str) -> (out: Vec<&'a str>)
    ensures
        out.deep_view() == names(s@),
{
    let mut out: Vec<&'a str> = Vec::new();
    let mut rest: &'a str = s;
    let mut more: bool = true;
    assert(out.deep_view() + names(s@) =~= names(s@));
    while more
        invariant
            more ==> out.deep_view() + names(rest@) == names(s@),
            !more ==> out.deep_view() == names(s@),
        decreases (if more { rest@.len() + 1 } else { 0 }),
    {
        let ghost done = out.deep_view();
        let ghost all = rest@;
        proof {
            text::lemma_position(all, '/');
        }
        let part: &'a str = match text::split_once(rest, '/') {
            Some((part, tail)) => {
                rest = tail;
                part
            },
            None => {
                more = false;
                assert(all.take(text::position(all, '/')) =~= all);
                rest
            },
        };
        assert(part@ == all.take(text::position(all, '/')));
        let ghost after = if more { names(rest@) } else { Seq::empty() };
        if !part.is_empty() && !is_dot(part) {
            out.push(part);
            assert(out.deep_view() =~= done.push(part@));
            assert(done + (seq![part@] + after) =~= out.deep_view() + after);
        }
        assert(out.deep_view() + after == names(s@));
        assert(!more ==> out.deep_view() + after =~= out.deep_view());
    }
    out
}

/// Whether two texts are the same path.
pub fn is_same_path(a: &str, b: &str) -> (r: bool)
    ensures
        r == same_path(a@, b@),
{
    if root_of(a) != root_of(b) || here_of(a) != here_of(b) {
        return false;
    }
    let x = name_list(a);
    let y = name_list(b);
    if x.len() != y.len() {
        assert(x.deep_view().len() != y.deep_view().len());
        return false;
    }
    let mut i: usize = 0;
    while i < x.len()
        invariant
            i <= x.len(),
            x.len() == y.len(),
            x.deep_view() == names(a@),
            y.deep_view() == names(b@),
            forall|j: int| 0 <= j < i ==> x.deep_view()[j] == y.deep_view()[j],
        decreases x.len() - i,
    {
        if !text::same(x[i], y[i]) {
            assert(x.deep_view()[i as int] != y.deep_view()[i as int]);
            return false;
        }
        i += 1;
    }
    assert(x.deep_view() =~= y.deep_view());
    true
}

fn root_of(s: &str) -> (r: bool)
    ensures
        r == rooted(s@),
{
    let c = text::chars_of(s);
    c.len() > 0 && c[0] == '/'
}

fn here_of(s: &str) -> (r: bool)
    ensures
        r == from_here(s@),
{
    if root_of(s) {
        return false;
    }
    proof {
        text::lemma_position(s@, '/');
    }
    match text::split_once(s, '/') {
        Some((part, _)) => is_dot(part),
        None => {
            assert(head(s@) =~= s@);
            is_dot(s)
        },
    }
}

/// Names that do not start at the root are told apart by the paths below the same base.
pub proof fn lemma_joined_injective(base: Seq<char>, a: Seq<char>, b: Seq<char>)
    requires
        !rooted(a),
        !rooted(b),
        joined(base, a) == joined(base, b),
    ensures
        a == b,
{
    let start = if base.len() == 0 || base.last() == '/' {
        base
    } else {
        base.push('/')
    };
    assert(a =~= joined(base, a).skip(start.len() as int));
    assert(b =~= joined(base, b).skip(start.len() as int));
}

/// A name is put below a directory with one slash between them, whether or not the directory is
/// written with a slash at its end. A path from the root stands for itself.
pub proof fn law_name_is_put_below(base: Seq<char>, name: Seq<char>)
    requires
        name.len() > 0,
    ensures
        name[0] == '/' ==> joined(base, name) == name,
        name[0] != '/' && base.len() > 0 && base.last() != '/' ==> joined(base, name) == base + (
        seq!['/'] + name),
        name[0] != '/' && base.len() > 0 && base.last() == '/' ==> joined(base, name) == base
            + name,
        name[0] != '/' && base.len() == 0 ==> joined(base, name) == name,
{
    assert(base.push('/') + name =~= base + (seq!['/'] + name));
    if base.len() == 0 {
        assert(base + name =~= name);
    }
}

/// Being the same path is an equivalence, and texts that are equal are the same path.
pub proof fn law_same_path_is_an_equivalence(a: Seq<char>, b: Seq<char>, c: Seq<char>)
    ensures
        same_path(a, a),
        same_path(a, b) ==> same_path(b, a),
        same_path(a, b) && same_path(b, c) ==> same_path(a, c),
{
}

proof fn lemma_names_step(part: Seq<char>, rest: Seq<char>)
    requires
        !part.contains('/'),
    ensures
        names(part + (seq!['/'] + rest)) == if part.len() == 0 || part == seq!['.'] {
            names(rest)
        } else {
            seq![part] + names(rest)
        },
{
    let s = part + (seq!['/'] + rest);
    let n = part.len() as int;
    assert forall|j: int| 0 <= j < n implies s[j] != '/' by {
        assert(s[j] == part[j]);
        assert(part.contains(part[j]));
    }
    assert(s[n] == '/');
    text::lemma_position_is(s, '/', n);
    assert(s.take(n) =~= part);
    assert(s.skip(n + 1) =~= rest);
}

/// Every part of a path between slashes is a name along it, but for empty parts and the dot that
/// names the current directory.
pub proof fn law_parts_are_names(part: Seq<char>, rest: Seq<char>)
    requires
        !part.contains('/'),
    ensures
        part.len() > 0 && part != seq!['.'] ==> names(part + (seq!['/'] + rest)) == seq![part]
            + names(rest),
        names(seq!['/'] + rest) == names(rest),
        names(seq!['.', '/'] + rest) == names(rest),
{
    lemma_names_step(part, rest);
    lemma_names_step(Seq::empty(), rest);
    assert(Seq::<char>::empty() + (seq!['/'] + rest) =~= seq!['/'] + rest);
    lemma_names_step(seq!['.'], rest);
    assert(seq!['.'] + (seq!['/'] + rest) =~= seq!['.', '/'] + rest);
}

} // verus!
